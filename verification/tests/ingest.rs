//! Vocabularies from raw buffers, token lists and dense decodes.

use maskforge::canonical::CanonicalVocabulary;
use maskforge::error::{CompileError, ErrorCode, Stage};
use maskforge::ingest::{
    bounded_buffers_to_vecs, from_id_ordered_tokens, from_packed_buffers, from_tokens,
};
use maskforge::packing::{BuildPermit, MAX_PACKED_BUFFER_BYTES};
use maskforge::report::CoreError;

fn granted_permit() -> BuildPermit {
    BuildPermit {
        peak: Some(1),
        granted: Ok(()),
    }
}

fn le(words: &[u32]) -> Vec<u8> {
    words.iter().flat_map(|w| w.to_le_bytes()).collect()
}

fn entries(v: &CanonicalVocabulary) -> Vec<(Vec<u8>, Vec<u32>)> {
    v.iter()
        .into_iter()
        .map(|(bytes, ids)| (bytes.to_vec(), ids.to_vec()))
        .collect()
}

fn words<T>(r: Result<T, CoreError>) -> String {
    match r {
        Err(CoreError::Unsupported(words)) => words,
        _ => panic!("expected Unsupported"),
    }
}

#[test]
fn raw_buffers_are_read_and_built() {
    let v = from_packed_buffers(
        b"zab",
        &le(&[0, 1, 3]),
        &le(&[7, 3, 4]),
        &le(&[0, 2, 3]),
        9,
        Some(64),
        granted_permit(),
    )
    .unwrap();
    assert_eq!(
        entries(&v),
        vec![(b"ab".to_vec(), vec![4]), (b"z".to_vec(), vec![3, 7])]
    );
    assert_eq!(v.mask_vocab_size(), 64);
    assert_eq!(v.eos_token_id(), 9);
}

#[test]
fn uneven_raw_buffers_are_refused_in_order() {
    let ok = le(&[0]);
    assert_eq!(
        words(bounded_buffers_to_vecs(b"", &[0, 0, 0], &[0], &[0], granted_permit())),
        "byte_offsets byte length 3 is not a multiple of 4"
    );
    assert_eq!(
        words(bounded_buffers_to_vecs(b"", &ok, &[0], &[0], granted_permit())),
        "token_ids byte length 1 is not a multiple of 4"
    );
    assert_eq!(
        words(bounded_buffers_to_vecs(b"", &ok, &[], &[0, 0], granted_permit())),
        "id_offsets byte length 2 is not a multiple of 4"
    );
    let read = bounded_buffers_to_vecs(
        b"xy",
        &le(&[0, 2]),
        &le(&[256]),
        &le(&[0, 1]),
        granted_permit(),
    )
    .unwrap();
    assert_eq!(read.token_bytes, b"xy");
    assert_eq!(read.byte_offsets, [0, 2]);
    assert_eq!(read.token_ids, [256]);
    assert_eq!(read.id_offsets, [0, 1]);
}

#[test]
fn an_oversized_raw_buffer_is_refused_before_it_is_read() {
    let big = vec![0u8; MAX_PACKED_BUFFER_BYTES + 1];
    assert_eq!(
        words(bounded_buffers_to_vecs(&big, &[0], &[], &[], granted_permit())),
        "packed buffer of 268435457 bytes exceeds the cap of 268435456 (per buffer)"
    );
}

#[test]
fn build_faults_of_raw_buffers_are_compile_errors() {
    match from_packed_buffers(
        b"ab",
        &le(&[0, 1]),
        &le(&[0]),
        &le(&[0, 1]),
        5,
        None,
        granted_permit(),
    ) {
        Err(CoreError::Compile(e)) => {
            assert_eq!(e.code, ErrorCode::Unsupported);
            assert_eq!(e.message, "offsets' final entry must equal the buffer length");
        }
        _ => panic!("expected a compile error"),
    }
}

#[test]
fn listed_tokens_are_held_by_their_vocabulary() {
    let tokens: [(&[u8], &[u32]); 3] = [(b"b", &[2, 1]), (b"a", &[]), (b"a", &[5])];
    let v = from_tokens(&tokens, 8, None, granted_permit()).unwrap();
    assert_eq!(
        entries(&v),
        vec![(b"a".to_vec(), vec![5]), (b"b".to_vec(), vec![1, 2])]
    );
    assert_eq!(v.mask_vocab_size(), 9);
    match from_tokens(&tokens, 5, None, granted_permit()) {
        Err(CoreError::Compile(e)) => assert_eq!(e.message, "EOS token id present in the token map"),
        _ => panic!("expected a compile error"),
    }
    assert!(from_tokens(&[], 0, None, granted_permit()).unwrap().is_empty());
}

#[test]
fn present_slots_are_held_by_their_vocabulary() {
    let slots: [Option<&[u8]>; 5] = [Some(b"a"), None, Some(b"b"), Some(b"a"), None];
    let v = from_id_ordered_tokens(&slots, 4, None, granted_permit()).unwrap();
    assert_eq!(
        entries(&v),
        vec![(b"a".to_vec(), vec![0, 3]), (b"b".to_vec(), vec![2])]
    );
    assert_eq!(v.token_bytes(3), Some(b"a".as_slice()));
    assert_eq!(v.token_bytes(1), None);
    match from_id_ordered_tokens(&[Some(b"")], 4, None, granted_permit()) {
        Err(CoreError::Compile(e)) => assert_eq!(e.code, ErrorCode::EmptyToken),
        _ => panic!("expected a compile error"),
    }
}

#[test]
fn absent_slots_alone_make_an_empty_vocabulary() {
    let v = from_id_ordered_tokens(&[None, None, None], 1, None, granted_permit()).unwrap();
    assert!(v.is_empty());
    assert_eq!(v.mask_vocab_size(), 2);
}

#[test]
fn the_order_of_tokens_does_not_matter() {
    let forth: [(&[u8], &[u32]); 3] = [(b"b", &[2, 1]), (b"a", &[5]), (b"b", &[7])];
    let back: [(&[u8], &[u32]); 3] = [(b"b", &[7]), (b"a", &[5]), (b"b", &[2, 1])];
    let f = from_tokens(&forth, 8, None, granted_permit()).unwrap();
    let b = from_tokens(&back, 8, None, granted_permit()).unwrap();
    assert_eq!(entries(&f), entries(&b));
    assert_eq!(f.fingerprint().as_bytes(), b.fingerprint().as_bytes());
    let error = |tokens: &[(&[u8], &[u32])], eos| match from_tokens(tokens, eos, None, granted_permit()) {
        Err(CoreError::Compile(e)) => e.message,
        _ => panic!("expected a compile error"),
    };
    assert_eq!(error(&forth, 7), error(&back, 7));
    assert_eq!(error(&forth, 7), "EOS token id present in the token map");
    let bad: [(&[u8], &[u32]); 3] = [(b"", &[1]), (b"a", &[]), (b"b", &[9])];
    let turned: [(&[u8], &[u32]); 3] = [(b"b", &[9]), (b"a", &[]), (b"", &[1])];
    assert_eq!(error(&bad, 9), error(&turned, 9));
    assert_eq!(error(&bad[1..], 3), error(&turned[..2], 3));
    assert_eq!(error(&bad[1..], 3), "token has an empty id list");
}

#[test]
fn the_permit_refuses_what_the_caps_let_through() {
    let refusal = || CompileError::new(ErrorCode::InternalLimitExceeded, Stage::L4Bind, "busy");
    let shut = |peak| BuildPermit {
        peak,
        granted: Err(refusal()),
    };
    let busy = || Some(CoreError::Compile(refusal()));
    let tokens: [(&[u8], &[u32]); 1] = [(b"a", &[1])];
    assert_eq!(from_tokens(&tokens, 0, None, shut(Some(1))).err(), busy());
    assert_eq!(
        words(from_tokens(&tokens, 0, None, shut(None))),
        "packed ingestion peak overflows"
    );
    assert_eq!(
        from_id_ordered_tokens(&[Some(b"a")], 9, None, shut(Some(1))).err(),
        busy()
    );
    assert_eq!(
        words(from_id_ordered_tokens(&[Some(b"a")], 9, None, shut(None))),
        "dense ingestion peak overflows"
    );
    // The permit is asked for before a buffer of uneven length is refused, and after the caps.
    assert_eq!(
        bounded_buffers_to_vecs(b"", &[0], &[], &[], shut(Some(1))).err(),
        busy()
    );
    assert_eq!(
        words(from_packed_buffers(b"", &[0], &[], &[], 0, None, shut(None))),
        "packed ingestion peak overflows"
    );
    let big = vec![0u8; MAX_PACKED_BUFFER_BYTES + 1];
    assert_eq!(
        words(from_packed_buffers(&big, &[0], &[], &[], 0, None, shut(None))),
        "packed buffer of 268435457 bytes exceeds the cap of 268435456 (per buffer)"
    );
}
