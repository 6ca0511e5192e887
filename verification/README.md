# maskforge

The vocabulary, syntax and framing core of a grammar-constrained decoder, verified
with Verus.

- `src/` is the library. Every function in it has a contract, proved from the ones
  it builds on.
  - `vocabulary`, `vocab_build`, `vocab_text`, `token_map`, `tokenizer_source`:
    vocabularies and how they come about.
  - `admission`, `packing`, `layout`, `ordering`, `records`, `prepared`,
    `canonical`, `fingerprint`, `ingest`, `rearrangement`: the canonical form of a
    vocabulary, from token maps, packed buffers and dense decodes.
  - `validator`, `scalar_grammar`: JSON scalars, byte by byte, and their grammar.
  - `artifact`, `walk`: which tokens may come next at a state, as masks, and where each
    leads.
  - `wire`, `little_endian`, `digest`: checksummed envelopes.
  - `bind`, `mask_buffer`, `session_state`, `bench`, `locator`, `report`,
    `error`, `text`, `byte_order`: decisions and texts around them.
  - `hash_tables` holds most of what is trusted of other crates; `digest`,
    `ordering`, `admission`, `bind` and `locator` hold the rest. Each such function
    says in its comment which outside function it calls and what it claims of it.
- `tests/` runs the library.
- `app/` is ordinary Rust around it: tokenizers, the model hub, payload encoding and
  measurements.
