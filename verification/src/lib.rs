//! Vocabulary preparation, scalar syntax tracking and envelope framing for
//! grammar-constrained decoding.

pub mod admission;
pub mod artifact;
pub mod bench;
pub mod bind;
pub mod bind_laws;
pub mod build_laws;
pub mod byte_order;
pub mod canonical;
pub mod digest;
pub mod engine_laws;
pub mod error;
pub mod fingerprint;
pub mod hash_tables;
pub mod ingest;
pub mod layout;
pub mod little_endian;
pub mod locator;
pub mod mask_buffer;
pub mod ordering;
pub mod packing;
pub mod packing_laws;
pub mod prepared;
pub mod rearrangement;
pub mod records;
pub mod report;
pub mod report_laws;
pub mod scalar_grammar;
pub mod scalar_laws;
pub mod session_state;
pub mod text;
pub mod text_laws;
pub mod token_map;
pub mod tokenizer_laws;
pub mod tokenizer_source;
pub mod validator;
pub mod vocab_build;
pub mod vocab_text;
pub mod vocabulary;
pub mod vocabulary_laws;
pub mod walk;
pub mod wire;
pub mod wire_laws;
