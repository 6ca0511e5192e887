//! Packing tokens into buffers, and reading buffers back.

use maskforge::canonical::CanonicalVocabulary;
use maskforge::packing::{
    admit_and_pack_dense_tokens, admit_and_pack_tokens, buffer_to_u32_vec_le, check_packed_lengths,
    admit_ingestion, checked_u32, prescan_dense_totals, prescan_token_totals, BuildPermit,
    MAX_PACKED_AGGREGATE_BYTES, MAX_PACKED_BUFFER_BYTES,
};
use maskforge::error::{CompileError, ErrorCode, Stage};
use maskforge::prepared::PreparedVocabulary;
use maskforge::report::CoreError;

fn granted_permit() -> BuildPermit {
    BuildPermit {
        peak: Some(1),
        granted: Ok(()),
    }
}

fn refusal() -> CompileError {
    CompileError::new(ErrorCode::InternalLimitExceeded, Stage::L4Bind, "busy")
}

fn words(e: CoreError) -> String {
    match e {
        CoreError::Unsupported(msg) => msg,
        _ => panic!("expected Unsupported"),
    }
}

#[test]
fn accepts_lengths_under_both_caps() {
    assert!(check_packed_lengths([100, 100, 100, 100]).is_ok());
}

#[test]
fn rejects_a_single_buffer_over_the_per_buffer_cap() {
    let err = check_packed_lengths([MAX_PACKED_BUFFER_BYTES + 1, 0, 0, 0]).unwrap_err();
    match err {
        CoreError::Unsupported(msg) => {
            assert!(msg.contains("per buffer"));
            assert_eq!(
                msg,
                "packed buffer of 268435457 bytes exceeds the cap of 268435456 (per buffer)"
            );
        }
        _ => panic!("expected Unsupported"),
    }
}

#[test]
fn rejects_four_individually_legal_buffers_that_exceed_the_aggregate_cap() {
    let each = MAX_PACKED_AGGREGATE_BYTES / 4 + 1;
    assert!(each <= MAX_PACKED_BUFFER_BYTES, "fixture sanity");
    assert!(check_packed_lengths([each, each, each, each]).is_err());
    assert_eq!(
        words(check_packed_lengths([each, each, each, each]).unwrap_err()),
        "packed buffers total 268435460 bytes, which exceeds the cap of 268435456 (aggregate)"
    );
}

#[test]
fn accepts_four_buffers_exactly_at_the_aggregate_boundary() {
    let each = MAX_PACKED_AGGREGATE_BYTES / 4;
    assert!(check_packed_lengths([each, each, each, each]).is_ok());
}

#[test]
fn words_are_read_little_endian() {
    let bytes = [1, 0, 0, 0, 0, 1, 0, 0, 0xff, 0xff, 0xff, 0xff];
    assert_eq!(
        buffer_to_u32_vec_le(&bytes, "token_ids").unwrap(),
        vec![1, 256, u32::MAX]
    );
    assert_eq!(buffer_to_u32_vec_le(&[], "token_ids").unwrap(), vec![]);
    assert_eq!(
        words(buffer_to_u32_vec_le(&bytes[..5], "token_ids").unwrap_err()),
        "token_ids byte length 5 is not a multiple of 4"
    );
}

#[test]
fn totals_are_counted_before_copying() {
    assert_eq!(
        prescan_token_totals(&[(3, 1), (2, 2), (0, 0)]).unwrap(),
        (5, 3, 3)
    );
    assert_eq!(
        words(prescan_token_totals(&[(usize::MAX, 0), (1, 0)]).unwrap_err()),
        "token byte total overflows"
    );
    assert_eq!(
        words(prescan_token_totals(&[(0, usize::MAX), (1, 1)]).unwrap_err()),
        "token id total overflows"
    );
    assert_eq!(
        prescan_dense_totals(&[Some(3), None, Some(2)]).unwrap(),
        (5, 2, 3)
    );
    assert_eq!(
        words(prescan_dense_totals(&[Some(usize::MAX), None, Some(1)]).unwrap_err()),
        "token byte total overflows"
    );
}

#[test]
fn packed_tokens_are_cut_where_they_were_joined() {
    let tokens: Vec<(&[u8], &[u32])> = vec![(b"cat", &[17]), (b"car", &[42, 99]), (b"c", &[])];
    let packed = admit_and_pack_tokens(&tokens, 7, 3, granted_permit()).unwrap();
    assert_eq!(packed.token_bytes, b"catcarc");
    assert_eq!(packed.byte_offsets, vec![0, 3, 6, 7]);
    assert_eq!(packed.token_ids, vec![17, 42, 99]);
    assert_eq!(packed.id_offsets, vec![0, 1, 3, 3]);
}

#[test]
fn content_that_grew_after_admission_is_refused() {
    let tokens: Vec<(&[u8], &[u32])> = vec![(b"cat", &[17]), (b"car", &[42, 99])];
    let changed = "token content changed between admission and copy";
    assert_eq!(
        words(admit_and_pack_tokens(&tokens, 5, 3, granted_permit()).unwrap_err()),
        changed
    );
    assert_eq!(
        words(admit_and_pack_tokens(&tokens, 6, 2, granted_permit()).unwrap_err()),
        changed
    );
    assert!(admit_and_pack_tokens(&tokens, 6, 3, granted_permit()).is_ok());
    let slots: Vec<Option<&[u8]>> = vec![Some(b"cat"), None, Some(b"dog")];
    assert_eq!(
        words(admit_and_pack_dense_tokens(&slots, 5, granted_permit()).unwrap_err()),
        changed
    );
}

#[test]
fn dense_slots_are_packed_with_absent_ones_empty() {
    let slots: Vec<Option<&[u8]>> = vec![Some(b"cat"), None, Some(b"dog")];
    let packed = admit_and_pack_dense_tokens(&slots, 6, granted_permit()).unwrap();
    assert_eq!(packed.token_bytes, b"catdog");
    assert_eq!(packed.byte_offsets, vec![0, 3, 3, 6]);
    assert_eq!(packed.present, vec![true, false, true]);
}

#[test]
fn packed_and_dense_buffers_prepare_the_same_vocabulary() {
    let tokens: Vec<(&[u8], &[u32])> = vec![(b"cat", &[2]), (b"a", &[0]), (b"cat", &[1])];
    let packed = admit_and_pack_tokens(&tokens, 7, 3, granted_permit()).unwrap();
    let from_packed = PreparedVocabulary::build_from_packed(
        &packed.token_bytes,
        &packed.byte_offsets,
        &packed.token_ids,
        &packed.id_offsets,
        9,
    )
    .unwrap();
    let slots: Vec<Option<&[u8]>> = vec![Some(b"a"), Some(b"cat"), Some(b"cat")];
    let dense = admit_and_pack_dense_tokens(&slots, 7, granted_permit()).unwrap();
    let from_dense = PreparedVocabulary::build_from_dense_id_ordered(
        &dense.token_bytes,
        &dense.byte_offsets,
        &dense.present,
        9,
    )
    .unwrap();
    let expected: Vec<(&[u8], &[u32])> = vec![(b"a", &[0]), (b"cat", &[1, 2])];
    assert_eq!(from_packed.iter(), expected);
    assert_eq!(from_dense.iter(), expected);
    assert_eq!(from_dense.total_bytes(), 4);
    assert_eq!(from_dense.total_ids(), 3);

    let canonical = CanonicalVocabulary::from_dense_id_ordered_with_logits_vocab_size(
        &dense.token_bytes,
        &dense.byte_offsets,
        &dense.present,
        9,
        Some(40),
    )
    .unwrap();
    assert_eq!(canonical.token_bytes(2), Some(b"cat".as_slice()));
    assert_eq!(canonical.token_bytes(9), None);
    assert_eq!(canonical.mask_vocab_size(), 40);
    assert_eq!(canonical.mask_width_words(), 2);
    assert_eq!(canonical.len(), 4);
    assert_eq!(canonical.prepared().len(), 2);
    assert_eq!(canonical.iter(), expected);
}

#[test]
fn offsets_reach_as_far_as_u32() {
    assert_eq!(checked_u32(u32::MAX as usize).unwrap(), u32::MAX);
    assert_eq!(
        words(checked_u32(u32::MAX as usize + 1).unwrap_err()),
        "packed offset exceeds the addressable range"
    );
}

#[test]
fn packed_buffers_make_a_canonical_vocabulary() {
    let build = |ids: &[u32], eos, width| {
        CanonicalVocabulary::from_packed_with_logits_vocab_size(
            b"ab",
            &[0, 1, 2],
            ids,
            &[0, 1, 2],
            eos,
            width,
        )
    };
    let c = build(&[0, 1], 2, None).unwrap();
    assert_eq!(c.mask_vocab_size(), 3);
    assert_eq!(c.eos_token_id(), 2);
    assert_eq!(c.token_bytes(1), Some(b"b".as_slice()));
    let e = build(&[0, 1], 2, Some(2)).unwrap_err();
    assert_eq!(
        e.message,
        "explicit logits vocab size is smaller than the largest token/EOS id"
    );
    let e = build(&[1, 1], 2, None).unwrap_err();
    assert_eq!(e.message, "one token id maps to two different byte sequences");
    assert!(build(&[2, 1], 2, None).is_err());
}

#[test]
fn the_permit_decides_before_anything_is_packed() {
    let shut = |peak| BuildPermit {
        peak,
        granted: Err(refusal()),
    };
    assert_eq!(admit_ingestion(granted_permit(), "over"), Ok(()));
    assert_eq!(
        admit_ingestion(shut(Some(9)), "over"),
        Err(CoreError::Compile(refusal()))
    );
    assert_eq!(
        admit_ingestion(shut(None), "over"),
        Err(CoreError::Unsupported("over".to_string()))
    );
    // Totals that do not cover the tokens are not even looked at.
    let tokens: [(&[u8], &[u32]); 1] = [(b"ab", &[1])];
    assert_eq!(
        admit_and_pack_tokens(&tokens, 0, 0, shut(Some(9))).err(),
        Some(CoreError::Compile(refusal()))
    );
    assert_eq!(
        words(admit_and_pack_tokens(&tokens, 0, 0, shut(None)).err().unwrap()),
        "packed ingestion peak overflows"
    );
    assert_eq!(
        admit_and_pack_dense_tokens(&[Some(b"ab")], 0, shut(Some(9))).err(),
        Some(CoreError::Compile(refusal()))
    );
    assert_eq!(
        words(admit_and_pack_dense_tokens(&[Some(b"ab")], 0, shut(None)).err().unwrap()),
        "dense ingestion peak overflows"
    );
}
