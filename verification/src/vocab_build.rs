//! The validated ways to make a vocabulary.

use vstd::prelude::*;
use vstd::slice::slice_to_vec;

use crate::admission::empty_token;
use crate::error::{ErrorCode, VocabError, VocabErrorView};
use crate::hash_tables::{
    StringTokenMap, TokenMap, string_map_contents, token_map_contents, token_map_insert,
    token_map_new, token_map_remove, token_map_try_reserve,
};
use crate::packing::is_unsupported;
use crate::records::{assigns, assigns_at, assigns_push};
use crate::report::CoreError;
use crate::token_map::map_assigns;
use crate::tokenizer_source::{TokenizerTables, tokenizer_json_outcome};
use crate::vocabulary::{Error, TokenId, Vocabulary, distinct_ids, encoded_keys, raw_map_fault};

verus! {

/// The public error of a vocabulary that could not be built.
pub open spec fn public_error(e: Error, eos_token_id: u32) -> VocabErrorView {
    let malformed = |token: Option<u32>, detail: Seq<char>|
        VocabErrorView { code: ErrorCode::MalformedTokenizer, token, detail };
    match e {
        Error::EmptyToken => VocabErrorView {
            code: ErrorCode::EmptyToken,
            token: None,
            detail: "vocabulary token has zero bytes"@,
        },
        Error::EmptyTokenIds => malformed(None, "token has an empty id list"@),
        Error::EOSTokenDisallowed => malformed(
            Some(eos_token_id),
            "EOS token id present in the token map"@,
        ),
        Error::TokenizerJsonTooLarge { .. } => VocabErrorView {
            code: ErrorCode::InternalLimitExceeded,
            token: None,
            detail: "tokenizer JSON exceeds the accepted byte limit"@,
        },
        Error::TokenizersError(_) => malformed(
            None,
            "the tokenizer library rejected the tokenizer data"@,
        ),
        Error::UnsupportedTokenizer { .. } => malformed(
            None,
            "tokenizer model or decoder is unsupported"@,
        ),
        Error::UnsupportedByTokenProcessor => malformed(
            None,
            "tokenizer is unsupported by the token processor"@,
        ),
        Error::DecoderUnpackingFailed => malformed(
            None,
            "tokenizer decoder could not be unpacked"@,
        ),
        Error::ByteProcessorFailed => malformed(None, "byte-level token processing failed"@),
        Error::ByteFallbackProcessorFailed => malformed(
            None,
            "byte-fallback token processing failed"@,
        ),
    }
}

/// Converts vocabulary construction errors to the public `VocabError` contract.
pub fn map_error(e: Error, eos_token_id: TokenId) -> (v: VocabError)
    ensures
        v@ == public_error(e, eos_token_id),
{
    match e {
        Error::EmptyToken => VocabError::empty_token(),
        Error::EmptyTokenIds => VocabError::malformed_tokenizer("token has an empty id list"),
        Error::EOSTokenDisallowed => VocabError::malformed_tokenizer_for(
            eos_token_id,
            "EOS token id present in the token map",
        ),
        Error::TokenizerJsonTooLarge { .. } => VocabError::limit_exceeded(
            "tokenizer JSON exceeds the accepted byte limit",
        ),
        Error::TokenizersError(_) => VocabError::malformed_tokenizer(
            "the tokenizer library rejected the tokenizer data",
        ),
        Error::UnsupportedTokenizer { .. } => VocabError::malformed_tokenizer(
            "tokenizer model or decoder is unsupported",
        ),
        Error::UnsupportedByTokenProcessor => VocabError::malformed_tokenizer(
            "tokenizer is unsupported by the token processor",
        ),
        Error::DecoderUnpackingFailed => VocabError::malformed_tokenizer(
            "tokenizer decoder could not be unpacked",
        ),
        Error::ByteProcessorFailed => VocabError::malformed_tokenizer(
            "byte-level token processing failed",
        ),
        Error::ByteFallbackProcessorFailed => VocabError::malformed_tokenizer(
            "byte-fallback token processing failed",
        ),
    }
}

/// Validated `Vocabulary` constructor: rejects empty-byte tokens, an empty id list, and an EOS id
/// present in the token map. Raw non-UTF-8 bytes are valid.
pub fn build_vocabulary(eos_token_id: TokenId, tokens: TokenMap) -> (r: Result<
    Vocabulary,
    VocabError,
>)
    ensures
        match raw_map_fault(eos_token_id, token_map_contents(tokens)) {
            Some(fault) => r is Err && r->Err_0@ == public_error(fault, eos_token_id),
            None => r is Ok && r->Ok_0.eos() == eos_token_id && r->Ok_0.contents() == distinct_ids(
                token_map_contents(tokens),
            ),
        },
{
    match Vocabulary::from_raw_bytes_map(eos_token_id, tokens) {
        Ok(v) => Ok(v),
        Err(e) => Err(map_error(e, eos_token_id)),
    }
}

/// Validated `Vocabulary` constructor over `String` keys. Same rules as `build_vocabulary`.
pub fn build_vocabulary_from_str_keys(eos_token_id: TokenId, tokens: StringTokenMap) -> (r: Result<
    Vocabulary,
    VocabError,
>)
    ensures
        match raw_map_fault(eos_token_id, encoded_keys(string_map_contents(tokens))) {
            Some(fault) => r is Err && r->Err_0@ == public_error(fault, eos_token_id),
            None => r is Ok && r->Ok_0.eos() == eos_token_id && r->Ok_0.contents() == distinct_ids(
                encoded_keys(string_map_contents(tokens)),
            ),
        },
{
    match Vocabulary::from_raw_string_map(eos_token_id, tokens) {
        Ok(v) => Ok(v),
        Err(e) => Err(map_error(e, eos_token_id)),
    }
}

/// Validated `Vocabulary` constructor from serialized fast-tokenizer JSON of `json_len` bytes, once
/// it has been read; same choke-point as `build_vocabulary`.
pub fn build_vocabulary_from_tokenizer_json(
    json_len: usize,
    tables: Result<TokenizerTables, String>,
    eos_token_id: TokenId,
) -> (r: Result<Vocabulary, VocabError>)
    ensures
        exists|inner: Result<Vocabulary, Error>|
            {
                &&& #[trigger] tokenizer_json_outcome(json_len, eos_token_id, tables, inner)
                &&& match inner {
                    Ok(v) => r == Ok::<Vocabulary, VocabError>(v),
                    Err(e) => r is Err && r->Err_0@ == public_error(e, eos_token_id),
                }
            },
{
    let inner: Result<Vocabulary, Error> = Vocabulary::from_tokenizer_json(
        json_len,
        eos_token_id,
        tables,
    );
    let ghost outcome = inner;
    assert(tokenizer_json_outcome(json_len, eos_token_id, tables, outcome));
    match inner {
        Ok(v) => Ok(v),
        Err(e) => Err(map_error(e, eos_token_id)),
    }
}

/// A token list as a map: the ids of equal byte strings in a row, in the order of the list.
pub open spec fn merged(tokens: Seq<(Seq<u8>, Seq<u32>)>) -> Map<Seq<u8>, Seq<u32>>
    decreases tokens.len(),
{
    if tokens.len() == 0 {
        Map::empty()
    } else {
        let rest = merged(tokens.drop_last());
        let (key, ids) = tokens.last();
        if rest.contains_key(key) {
            rest.insert(key, rest[key] + ids)
        } else {
            rest.insert(key, ids)
        }
    }
}

/// What a merged token list assigns is what the list assigns.
pub proof fn merging_keeps_assignments(
    tokens: Seq<(Seq<u8>, Seq<u32>)>,
    key: Seq<u8>,
    id: u32,
)
    ensures
        map_assigns(merged(tokens), key, id) == assigns(tokens, key, id),
        merged(tokens).contains_key(key) <==> exists|i: int|
            0 <= i < tokens.len() && (#[trigger] tokens[i]).0 == key,
    decreases tokens.len(),
{
    if tokens.len() > 0 {
        let front = tokens.drop_last();
        let last = tokens.last();
        merging_keeps_assignments(front, key, id);
        assigns_push(front, last, key, id);
        assert(tokens =~= front.push(last));
        let rest = merged(front);
        if key == last.0 && rest.contains_key(key) {
            let both = rest[key] + last.1;
            if both.contains(id) {
                let k = both.index_of(id);
                if k < rest[key].len() {
                    assert(rest[key][k] == id);
                } else {
                    assert(last.1[k - rest[key].len()] == id);
                }
            }
            if rest[key].contains(id) {
                let k = rest[key].index_of(id);
                assert(both[k] == id);
            }
            if last.1.contains(id) {
                let k = last.1.index_of(id);
                assert(both[rest[key].len() + k] == id);
            }
        }
        if exists|i: int| 0 <= i < front.len() && (#[trigger] front[i]).0 == key {
            let i = choose|i: int| 0 <= i < front.len() && (#[trigger] front[i]).0 == key;
            assert(tokens[i].0 == key);
        }
        if key == last.0 {
            assert(tokens[tokens.len() - 1].0 == key);
        }
        if exists|i: int| 0 <= i < tokens.len() && (#[trigger] tokens[i]).0 == key {
            let i = choose|i: int| 0 <= i < tokens.len() && (#[trigger] tokens[i]).0 == key;
            if i < front.len() {
                assert(front[i].0 == key);
            }
        }
    } else {
        if assigns(tokens, key, id) {
            let i = choose|i: int| assigns_at(tokens, i, key, id);
        }
    }
}

/// The byte strings and ids of owned pairs.
pub open spec fn owned_view(tokens: Seq<(Vec<u8>, Vec<u32>)>) -> Seq<(Seq<u8>, Seq<u32>)> {
    Seq::new(tokens.len(), |i: int| (tokens[i].0@, tokens[i].1@))
}

/// What building a vocabulary of a token list returns.
pub open spec fn core_outcome(
    eos: u32,
    tokens: Seq<(Seq<u8>, Seq<u32>)>,
    r: Result<Vocabulary, CoreError>,
) -> bool {
    match raw_map_fault(eos, merged(tokens)) {
        Some(fault) => r matches Err(CoreError::Vocab(e)) && e@ == public_error(fault, eos),
        None => r is Ok && r->Ok_0.eos() == eos && r->Ok_0.contents() == distinct_ids(
            merged(tokens),
        ),
    }
}

/// Marshals owned `(bytes, [ids])` pairs into the validated `Vocabulary`. Equal byte strings
/// merge.
pub fn build_vocab_core(eos: u32, tokens: Vec<(Vec<u8>, Vec<u32>)>) -> (r: Result<
    Vocabulary,
    CoreError,
>)
    ensures
        core_outcome(eos, owned_view(tokens@), r) || (r is Err && is_unsupported(
            r->Err_0,
            "vocabulary map allocation failed"@,
        )),
        tokens@.len() == 0 ==> core_outcome(eos, owned_view(tokens@), r),
{
    let mut table: TokenMap = token_map_new();
    if tokens.len() > 0 {
        match token_map_try_reserve(&mut table, tokens.len()) {
            Ok(()) => {},
            Err(_) => {
                return Err(CoreError::Unsupported("vocabulary map allocation failed".to_owned()));
            },
        }
    }
    build_vocab_in(eos, &tokens, table)
}

/// Marshals pairs into the validated `Vocabulary`, in an empty map that the caller has reserved.
pub fn build_vocab_in(eos: u32, tokens: &Vec<(Vec<u8>, Vec<u32>)>, table: TokenMap) -> (r: Result<
    Vocabulary,
    CoreError,
>)
    requires
        token_map_contents(table) == Map::<Seq<u8>, Seq<u32>>::empty(),
    ensures
        core_outcome(eos, owned_view(tokens@), r),
{
    let ghost all = owned_view(tokens@);
    let mut table: TokenMap = table;
    let mut i: usize = 0;
    while i < tokens.len()
        invariant
            i <= tokens@.len(),
            all == owned_view(tokens@),
            token_map_contents(table) == merged(all.take(i as int)),
        decreases tokens@.len() - i,
    {
        let ghost ids = all[i as int].1;
        proof {
            assert(all.take(i + 1).drop_last() =~= all.take(i as int));
            assert(all.take(i + 1).last() == all[i as int]);
        }
        let mut held: Vec<u32> = match token_map_remove(&mut table, tokens[i].0.as_slice()) {
            Some(held) => held,
            None => Vec::new(),
        };
        let ghost start = held@;
        held.extend_from_slice(tokens[i].1.as_slice());
        assert(held@ =~= start + ids);
        token_map_insert(&mut table, slice_to_vec(tokens[i].0.as_slice()), held);
        assert(token_map_contents(table) =~= merged(all.take(i + 1))) by {
            assert(Seq::<u32>::empty() + ids =~= ids);
        }
        i = i + 1;
    }
    assert(all.take(i as int) =~= all);
    match build_vocabulary(eos, table) {
        Ok(v) => Ok(v),
        Err(e) => Err(CoreError::Vocab(e)),
    }
}

} // verus!
