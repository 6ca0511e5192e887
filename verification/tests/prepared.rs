//! Preparing vocabularies from token maps, packed buffers and dense decodes.

use maskforge::admission::{
    check_addressable_totals, projected_peak_bytes, try_alloc, CONSERVATIVE_SPARSE_SLOT_BYTES,
    MAX_MASK_TOKENS, MAX_PACKED_PROJECTED_PEAK_BYTES, MAX_PACKED_TOKENS,
};
use maskforge::error::ErrorCode;
use maskforge::prepared::{BuildBuffers, PreparedVocabulary};
use maskforge::vocab_build::build_vocabulary;
use maskforge::vocabulary::Vocabulary;
use rustc_hash::FxHashMap;

fn vocab(pairs: &[(&[u8], &[u32])], eos: u32) -> Vocabulary {
    let mut map: FxHashMap<Vec<u8>, Vec<u32>> = FxHashMap::default();
    for &(bytes, ids) in pairs {
        map.insert(bytes.to_vec(), ids.to_vec());
    }
    build_vocabulary(eos, map).expect("vocab")
}

#[test]
fn an_unsatisfiable_capacity_is_a_typed_error_not_an_abort() {
    // An impossible reservation verifies that allocation fails safely.
    match try_alloc::<u8>(usize::MAX / 2, "test") {
        Err(e) => assert_eq!(e.code, ErrorCode::InternalLimitExceeded),
        Ok(_) => panic!("an allocation this large must not succeed"),
    }
}

#[test]
fn requests_over_the_largest_vector_fail_and_empty_ones_succeed() {
    // A vector holds `isize::MAX` bytes at most, however much memory there is.
    for cap in [usize::MAX / 8 + 1, usize::MAX / 2, usize::MAX] {
        let e = try_alloc::<u32>(cap, "words").unwrap_err();
        assert_eq!(e.code, ErrorCode::InternalLimitExceeded);
        assert_eq!(e.message, "words");
        let e = BuildBuffers::reserve(cap, 0, 0, "order", "group").err().unwrap();
        assert_eq!(e.message, "order");
    }
    assert!(try_alloc::<u32>(0, "words").unwrap().is_empty());
    assert!(BuildBuffers::reserve(0, 0, 0, "order", "group").is_ok());
    let room = try_alloc::<u32>(100, "words").unwrap();
    assert!(room.is_empty() && room.capacity() >= 100);
}

#[test]
fn records_are_sorted_by_byte_key_regardless_of_hashmap_order() {
    let v = vocab(&[(b"zeta", &[2]), (b"alpha", &[0]), (b"mid", &[1])], 9);
    let p = PreparedVocabulary::build(&v).unwrap();
    let keys: Vec<&[u8]> = p.iter().into_iter().map(|(b, _)| b).collect();
    assert_eq!(
        keys,
        vec![b"alpha".as_slice(), b"mid".as_slice(), b"zeta".as_slice()]
    );
}

#[test]
fn ids_and_bytes_round_trip_exactly() {
    let v = vocab(&[(b"cat", &[17]), (b"car", &[42, 99])], 9);
    let p = PreparedVocabulary::build(&v).unwrap();
    for (bytes, ids) in p.iter().into_iter() {
        let expected = v.token_ids(bytes).unwrap();
        assert_eq!(ids, expected);
    }
    assert_eq!(p.len(), 2);
}

#[test]
fn a_records_own_ids_come_back_sorted_ascending() {
    let v = vocab(&[(b"car", &[99, 7, 42])], 9);
    let p = PreparedVocabulary::build(&v).unwrap();
    assert_eq!(p.record_ids(0), &[7, 42, 99]);
}

#[test]
fn non_utf8_bytes_round_trip_exactly() {
    let v = vocab(&[(&[0xFF, 0xFE, 0x00], &[1]), (b"a", &[0])], 9);
    let p = PreparedVocabulary::build(&v).unwrap();
    let bytes_seen: Vec<&[u8]> = p.iter().into_iter().map(|(b, _)| b).collect();
    assert!(bytes_seen.contains(&[0xFFu8, 0xFE, 0x00].as_slice()));
}

fn as_content(p: &PreparedVocabulary) -> Vec<(Vec<u8>, Vec<u32>)> {
    p.iter().into_iter().map(|(b, i)| (b.to_vec(), i.to_vec())).collect()
}

// Synthetic usize values, no real multi-gigabyte data: proves the u32 boundary is rejected
// before any allocation attempt, without needing to actually construct that much memory.
#[test]
fn addressable_totals_at_the_u32_boundary_are_accepted() {
    assert!(check_addressable_totals(u32::MAX as usize, u32::MAX as usize).is_ok());
}

#[test]
fn addressable_totals_one_past_u32_max_are_rejected() {
    assert!(check_addressable_totals(u32::MAX as usize + 1, 0).is_err());
    assert!(check_addressable_totals(0, u32::MAX as usize + 1).is_err());
}

/// Packs `(bytes, ids)` items into the four CSR buffers `build_from_packed` expects.
fn pack(items: &[(&[u8], &[u32])]) -> (Vec<u8>, Vec<u32>, Vec<u32>, Vec<u32>) {
    let mut token_bytes = Vec::new();
    let mut byte_offsets = vec![0u32];
    let mut token_ids = Vec::new();
    let mut id_offsets = vec![0u32];
    for &(bytes, ids) in items {
        token_bytes.extend_from_slice(bytes);
        byte_offsets.push(token_bytes.len() as u32);
        token_ids.extend_from_slice(ids);
        id_offsets.push(token_ids.len() as u32);
    }
    (token_bytes, byte_offsets, token_ids, id_offsets)
}

#[test]
fn build_from_packed_matches_build_vocabulary_on_curated_cases() {
    let cases: Vec<Vec<(&[u8], &[u32])>> = vec![
        vec![(b"cat", &[17][..]), (b"car", &[42, 99]), (b"c", &[7])],
        vec![(b"z", &[3, 1, 2, 2][..])], // dup id within one token, dedups + sorts
        vec![
            (&[0xff][..], &[7][..]),
            (&[0x00], &[8]),
            (&[0x80, 0xff], &[9]),
        ],
    ];
    for items in &cases {
        let (tb, bo, ti, io) = pack(items);
        let packed = PreparedVocabulary::build_from_packed(&tb, &bo, &ti, &io, 9999).unwrap();

        let v = vocab(items, 9999);
        let via_vocab = PreparedVocabulary::build(&v).unwrap();
        assert_eq!(
            as_content(&packed),
            as_content(&via_vocab),
            "mismatch for {items:?}"
        );
    }
}

#[test]
fn build_from_packed_merges_a_byte_key_repeated_across_two_packed_entries() {
    // "cat" appears twice at different packed indices with different ids: they must merge into
    // ONE record, same as `build_vocabulary`'s `HashMap::entry().or_default()` merge.
    let items: Vec<(&[u8], &[u32])> = vec![(b"cat", &[17]), (b"car", &[42]), (b"cat", &[200])];
    let (tb, bo, ti, io) = pack(&items);
    let packed = PreparedVocabulary::build_from_packed(&tb, &bo, &ti, &io, 9999).unwrap();
    assert_eq!(packed.len(), 2);
    let cat = packed.iter().into_iter().find(|(b, _)| *b == b"cat").unwrap();
    assert_eq!(cat.1, &[17, 200]);
}

#[test]
fn build_from_packed_rejects_an_empty_token() {
    let items: Vec<(&[u8], &[u32])> = vec![(b"", &[0])];
    let (tb, bo, ti, io) = pack(&items);
    let err = PreparedVocabulary::build_from_packed(&tb, &bo, &ti, &io, 9).unwrap_err();
    assert_eq!(err.code, ErrorCode::EmptyToken);
}

#[test]
fn build_from_packed_rejects_a_mask_width_cap_violation_before_sorting() {
    let items: Vec<(&[u8], &[u32])> = vec![(b"a", &[MAX_MASK_TOKENS as u32])];
    let (tb, bo, ti, io) = pack(&items);
    let err = PreparedVocabulary::build_from_packed(&tb, &bo, &ti, &io, 9).unwrap_err();
    assert_eq!(err.code, ErrorCode::InternalLimitExceeded);
}

#[test]
fn build_from_packed_accepts_a_mask_width_exactly_at_the_cap() {
    let items: Vec<(&[u8], &[u32])> = vec![(b"a", &[(MAX_MASK_TOKENS - 1) as u32])];
    let (tb, bo, ti, io) = pack(&items);
    assert!(PreparedVocabulary::build_from_packed(&tb, &bo, &ti, &io, 9).is_ok());
}

#[test]
fn build_from_packed_rejects_an_empty_id_list() {
    let items: Vec<(&[u8], &[u32])> = vec![(b"a", &[])];
    let (tb, bo, ti, io) = pack(&items);
    let err = PreparedVocabulary::build_from_packed(&tb, &bo, &ti, &io, 9).unwrap_err();
    assert_eq!(err.code, ErrorCode::MalformedTokenizer);
}

#[test]
fn tuple_and_packed_paths_reject_an_empty_id_list_the_same_way() {
    let mut map: FxHashMap<Vec<u8>, Vec<u32>> = FxHashMap::default();
    map.insert(b"a".to_vec(), vec![]);
    let tuple_err = build_vocabulary(9, map).unwrap_err();

    let items: Vec<(&[u8], &[u32])> = vec![(b"a", &[])];
    let (tb, bo, ti, io) = pack(&items);
    let packed_err = PreparedVocabulary::build_from_packed(&tb, &bo, &ti, &io, 9).unwrap_err();

    assert_eq!(tuple_err.code, ErrorCode::MalformedTokenizer);
    assert_eq!(packed_err.code, ErrorCode::MalformedTokenizer);
}

#[test]
fn build_from_packed_rejects_an_empty_id_list_after_duplicate_key_merge() {
    // Two packed entries for the SAME byte key, both with empty ids: the merged group is still
    // empty and must be rejected, not silently accepted because each half looked like "no ids".
    let items: Vec<(&[u8], &[u32])> = vec![(b"a", &[]), (b"a", &[])];
    let (tb, bo, ti, io) = pack(&items);
    let err = PreparedVocabulary::build_from_packed(&tb, &bo, &ti, &io, 9).unwrap_err();
    assert_eq!(err.code, ErrorCode::MalformedTokenizer);
}

#[test]
fn build_from_packed_rejects_eos_as_an_ordinary_id() {
    let items: Vec<(&[u8], &[u32])> = vec![(b"a", &[5])];
    let (tb, bo, ti, io) = pack(&items);
    let err = PreparedVocabulary::build_from_packed(&tb, &bo, &ti, &io, 5).unwrap_err();
    assert_eq!(err.code, ErrorCode::MalformedTokenizer);
}

#[test]
fn build_from_packed_rejects_mismatched_offset_array_lengths() {
    let items: Vec<(&[u8], &[u32])> = vec![(b"a", &[0])];
    let (tb, bo, ti, mut io) = pack(&items);
    io.push(99); // now longer than byte_offsets
    assert!(PreparedVocabulary::build_from_packed(&tb, &bo, &ti, &io, 9).is_err());
}

#[test]
fn build_from_packed_rejects_non_monotonic_byte_offsets() {
    let tb = b"catcar".to_vec();
    let bo = vec![0u32, 3, 1, 6]; // decreasing: 3 > 1
    let ti = vec![0u32, 1, 2];
    let io = vec![0u32, 1, 2, 3];
    assert!(PreparedVocabulary::build_from_packed(&tb, &bo, &ti, &io, 1000).is_err());
}

#[test]
fn build_from_packed_rejects_a_final_offset_that_does_not_match_the_buffer_length() {
    let items: Vec<(&[u8], &[u32])> = vec![(b"a", &[0])];
    let (tb, mut bo, ti, io) = pack(&items);
    *bo.last_mut().unwrap() += 1; // claims one more byte than token_bytes actually has
    assert!(PreparedVocabulary::build_from_packed(&tb, &bo, &ti, &io, 9).is_err());
}

#[test]
fn build_from_packed_orders_adversarial_keys_correctly() {
    // Covers prefix ties, byte prefixes, raw bytes, and duplicate-key merging.
    let items: Vec<(&[u8], &[u32])> = vec![
        (b"abcdefghZZ", &[0][..]),
        (b"abcdefghAA", &[1]),
        (b"ab", &[2]),
        (&[0x00, 0x01, 0x02], &[3]),
        (&[0xff, 0xfe], &[4]),
        (b"ab", &[5]),
    ];
    let (tb, bo, ti, io) = pack(&items);
    let packed = PreparedVocabulary::build_from_packed(&tb, &bo, &ti, &io, 9999).unwrap();

    let mut expected: Vec<Vec<u8>> = items.iter().map(|(b, _)| b.to_vec()).collect();
    expected.sort();
    expected.dedup();
    let got: Vec<Vec<u8>> = packed.iter().into_iter().map(|(b, _)| b.to_vec()).collect();
    assert_eq!(got, expected);

    let ab = packed.iter().into_iter().find(|(b, _)| *b == b"ab").unwrap();
    assert_eq!(
        ab.1,
        &[2, 5],
        "duplicate key 'ab' must merge both ids, sorted ascending"
    );
}

#[test]
fn build_from_packed_agrees_with_build_vocabulary_on_200_randomized_vocabularies() {
    let mut state = 0xD1B5_4A32_D192_ED03u64;
    let mut next = || {
        state = state.wrapping_add(0x9E37_79B9_7F4A_7C15);
        let mut z = state;
        z = (z ^ (z >> 30)).wrapping_mul(0xBF58_476D_1CE4_E5B9);
        z = (z ^ (z >> 27)).wrapping_mul(0x94D0_49BB_1331_11EB);
        z ^ (z >> 31)
    };
    for seed in 0..200 {
        let count = 1 + (next() % 30) as usize;
        let mut owned: Vec<(Vec<u8>, Vec<u32>)> = Vec::new();
        let mut next_id = 0u32;
        for _ in 0..count {
            let len = 1 + (next() % 6) as usize;
            let bytes: Vec<u8> = (0..len).map(|_| (next() & 0xff) as u8).collect();
            let ids: Vec<u32> = (0..1 + next() % 3)
                .map(|_| {
                    let id = next_id;
                    next_id += 1;
                    id
                })
                .collect();
            owned.push((bytes, ids));
        }
        let eos = next_id + 1000;
        let items: Vec<(&[u8], &[u32])> = owned
            .iter()
            .map(|(b, i)| (b.as_slice(), i.as_slice()))
            .collect();
        let (tb, bo, ti, io) = pack(&items);
        let packed = PreparedVocabulary::build_from_packed(&tb, &bo, &ti, &io, eos)
            .unwrap_or_else(|e| panic!("seed {seed}: {e:?}"));

        let mut map: FxHashMap<Vec<u8>, Vec<u32>> = FxHashMap::default();
        for (b, i) in &owned {
            map.entry(b.clone()).or_default().extend_from_slice(i);
        }
        let v = build_vocabulary(eos, map).expect("vocab");
        let via_vocab = PreparedVocabulary::build(&v).unwrap();
        assert_eq!(
            as_content(&packed),
            as_content(&via_vocab),
            "mismatch at seed {seed}"
        );
    }
}

// Synthetic usize values, no real multi-hundred-MB allocation: proves the projected-peak
// arithmetic and cap are load-bearing without constructing that much real memory.
#[test]
fn projected_peak_bytes_accepts_a_small_realistic_build() {
    let peak = projected_peak_bytes(1_000_000, 200_000, 50_000);
    assert!(peak < MAX_PACKED_PROJECTED_PEAK_BYTES);
}

#[test]
fn projected_peak_bytes_at_the_maximal_token_count_stays_under_the_cap() {
    // The packed-token cap protects against degenerate input, not real tokenizers.
    let peak = projected_peak_bytes(MAX_PACKED_TOKENS, MAX_PACKED_TOKENS, MAX_PACKED_TOKENS);
    assert!(peak < MAX_PACKED_PROJECTED_PEAK_BYTES);
}

#[test]
fn projected_peak_bytes_is_dominated_by_token_count_not_just_input_buffer_length() {
    // A single, tiny input buffer with a huge CLAIMED id count (independent of token_count)
    // must also be caught: this is exactly the gap raw-input-byte admission alone would miss.
    let small_buffers = projected_peak_bytes(100, 100, 10);
    let huge_id_count = projected_peak_bytes(100, 1 << 28, 10);
    assert!(small_buffers < MAX_PACKED_PROJECTED_PEAK_BYTES);
    assert!(huge_id_count > MAX_PACKED_PROJECTED_PEAK_BYTES);
}

#[test]
fn projected_peak_bytes_charges_group_scratch_on_top_of_the_final_ids_array() {
    // All ids concentrated under ONE byte key: group_ids' worst-case growth (token_ids_len)
    // is live AT THE SAME TIME as the final `ids` array, so both must be charged.
    let token_ids_len = 1 << 20;
    let peak = projected_peak_bytes(10, token_ids_len, 1);
    assert!(
        peak >= token_ids_len * 4 * 2,
        "group scratch and the ids array must both count"
    );
}

#[test]
fn projected_peak_bytes_charges_the_sparse_branch_not_just_dense() {
    // A token_ids_len far larger than the fixed dense-branch cap must show up via the sparse
    // term, not be silently capped at the dense worst case.
    let token_ids_len = 100_000_000;
    let peak = projected_peak_bytes(10, token_ids_len, 1);
    assert!(peak >= token_ids_len * CONSERVATIVE_SPARSE_SLOT_BYTES);
}

#[test]
fn build_from_packed_budgeted_rejects_on_a_tiny_injected_budget_no_huge_allocation() {
    // A too-small budget rejects even a valid packed vocabulary.
    let items: Vec<(&[u8], &[u32])> = vec![(b"a", &[0]), (b"b", &[1])];
    let (tb, bo, ti, io) = pack(&items);
    let err = PreparedVocabulary::build_from_packed_budgeted(&tb, &bo, &ti, &io, 9, 4)
        .expect_err("a 4-byte budget cannot hold even the smallest real build");
    assert_eq!(err.code, ErrorCode::Unsupported);
}

#[test]
fn build_from_packed_budgeted_binds_once_the_budget_covers_the_real_peak() {
    let items: Vec<(&[u8], &[u32])> = vec![(b"a", &[0]), (b"b", &[1])];
    let (tb, bo, ti, io) = pack(&items);
    let generous = projected_peak_bytes(tb.len(), ti.len(), 2) + 1;
    assert!(
        PreparedVocabulary::build_from_packed_budgeted(&tb, &bo, &ti, &io, 9, generous).is_ok()
    );
}

/// Packs a dense, id-ordered decode (`decoded[i]` is slot `i`'s bytes, `None` for absent) into
/// the `(token_bytes, byte_offsets, present)` triple `build_from_dense_id_ordered` expects.
fn pack_dense(decoded: &[Option<&[u8]>]) -> (Vec<u8>, Vec<u32>, Vec<bool>) {
    let mut token_bytes = Vec::new();
    let mut byte_offsets = vec![0u32];
    let mut present = Vec::with_capacity(decoded.len());
    for slot in decoded {
        if let Some(bytes) = slot {
            token_bytes.extend_from_slice(bytes);
            present.push(true);
        } else {
            present.push(false);
        }
        byte_offsets.push(token_bytes.len() as u32);
    }
    (token_bytes, byte_offsets, present)
}

#[test]
fn dense_id_ordered_ids_are_the_slot_index() {
    let decoded = [
        Some(b"cat".as_slice()),
        Some(b"dog".as_slice()),
        Some(b"a".as_slice()),
    ];
    let (tb, bo, present) = pack_dense(&decoded);
    let p = PreparedVocabulary::build_from_dense_id_ordered(&tb, &bo, &present, 9999).unwrap();
    assert_eq!(p.len(), 3);
    let cat = p.iter().into_iter().find(|(b, _)| *b == b"cat").unwrap();
    assert_eq!(cat.1, &[0]);
    let dog = p.iter().into_iter().find(|(b, _)| *b == b"dog").unwrap();
    assert_eq!(dog.1, &[1]);
    let a = p.iter().into_iter().find(|(b, _)| *b == b"a").unwrap();
    assert_eq!(a.1, &[2]);
}

#[test]
fn dense_id_ordered_skips_absent_slots_without_error() {
    let decoded = [Some(b"cat".as_slice()), None, Some(b"dog".as_slice())];
    let (tb, bo, present) = pack_dense(&decoded);
    let p = PreparedVocabulary::build_from_dense_id_ordered(&tb, &bo, &present, 9999).unwrap();
    assert_eq!(p.len(), 2, "the absent slot must not become a record");
}

#[test]
fn dense_id_ordered_rejects_an_empty_byte_string_on_a_present_slot() {
    let decoded = [Some(b"".as_slice())];
    let (tb, bo, present) = pack_dense(&decoded);
    let err =
        PreparedVocabulary::build_from_dense_id_ordered(&tb, &bo, &present, 9).unwrap_err();
    assert_eq!(err.code, ErrorCode::EmptyToken);
}

#[test]
fn dense_id_ordered_rejects_eos_id_present_as_an_ordinary_slot() {
    let decoded = [Some(b"a".as_slice()), Some(b"b".as_slice())];
    let (tb, bo, present) = pack_dense(&decoded);
    // eos_token_id = 1: slot 1 ("b") is present, so EOS collides with an ordinary token.
    let err =
        PreparedVocabulary::build_from_dense_id_ordered(&tb, &bo, &present, 1).unwrap_err();
    assert_eq!(err.code, ErrorCode::MalformedTokenizer);
}

#[test]
fn dense_id_ordered_accepts_eos_id_pointing_at_an_absent_slot() {
    let decoded = [Some(b"a".as_slice()), None];
    let (tb, bo, present) = pack_dense(&decoded);
    // eos_token_id = 1: slot 1 is absent (the caller's own EOS placeholder), no collision.
    assert!(PreparedVocabulary::build_from_dense_id_ordered(&tb, &bo, &present, 1).is_ok());
}

#[test]
fn dense_id_ordered_merges_two_different_ids_decoding_to_the_same_bytes() {
    let decoded = [
        Some(b"a".as_slice()),
        Some(b"a".as_slice()),
        Some(b"b".as_slice()),
    ];
    let (tb, bo, present) = pack_dense(&decoded);
    let p = PreparedVocabulary::build_from_dense_id_ordered(&tb, &bo, &present, 9999).unwrap();
    assert_eq!(p.len(), 2, "the two 'a' slots must merge into one record");
    let a = p.iter().into_iter().find(|(b, _)| *b == b"a").unwrap();
    assert_eq!(a.1, &[0, 1], "both source ids survive, sorted ascending");
}

#[test]
fn dense_id_ordered_agrees_with_build_from_packed_on_the_same_content() {
    // Same logical vocabulary, expressed both ways: dense (id = index) and packed (explicit
    // id lists) must produce byte-identical PreparedVocabulary content.
    let items: Vec<(&[u8], &[u32])> = vec![
        (b"cat", &[0][..]),
        (b"car", &[1]),
        (b"c", &[2]),
        (b"cat", &[3]),
    ];
    let (tb_p, bo_p, ti_p, io_p) = pack(&items);
    let packed =
        PreparedVocabulary::build_from_packed(&tb_p, &bo_p, &ti_p, &io_p, 9999).unwrap();

    let decoded: Vec<Option<&[u8]>> =
        vec![Some(b"cat"), Some(b"car"), Some(b"c"), Some(b"cat")];
    let (tb_d, bo_d, present) = pack_dense(&decoded);
    let dense =
        PreparedVocabulary::build_from_dense_id_ordered(&tb_d, &bo_d, &present, 9999).unwrap();

    assert_eq!(as_content(&packed), as_content(&dense));
}

#[test]
fn dense_id_ordered_rejects_a_byte_offsets_length_mismatch() {
    let (tb, mut bo, present) = pack_dense(&[Some(b"a")]);
    bo.push(99); // now longer than present.len() + 1
    assert!(PreparedVocabulary::build_from_dense_id_ordered(&tb, &bo, &present, 9).is_err());
}

#[test]
fn dense_id_ordered_budgeted_rejects_on_a_tiny_injected_budget() {
    let (tb, bo, present) = pack_dense(&[Some(b"a"), Some(b"b")]);
    let err =
        PreparedVocabulary::build_from_dense_id_ordered_budgeted(&tb, &bo, &present, 9, 4)
            .expect_err("a 4-byte budget cannot hold even the smallest real build");
    assert_eq!(err.code, ErrorCode::Unsupported);
}

#[test]
fn dense_id_ordered_agrees_with_build_vocabulary_on_200_randomized_dense_vocabularies() {
    let mut state = 0xA5A5_1234_9E37_79B9u64;
    let mut next = || {
        state = state.wrapping_add(0x9E37_79B9_7F4A_7C15);
        let mut z = state;
        z = (z ^ (z >> 30)).wrapping_mul(0xBF58_476D_1CE4_E5B9);
        z = (z ^ (z >> 27)).wrapping_mul(0x94D0_49BB_1331_11EB);
        z ^ (z >> 31)
    };
    for seed in 0..200 {
        let count = 1 + (next() % 40) as usize;
        let mut owned: Vec<Option<Vec<u8>>> = Vec::with_capacity(count);
        for _ in 0..count {
            if next() % 5 == 0 {
                owned.push(None); // ~20% absent slots
                continue;
            }
            let len = 1 + (next() % 6) as usize;
            owned.push(Some((0..len).map(|_| (next() & 0xff) as u8).collect()));
        }
        let eos = count as u32 + 1000; // always out of range, never collides
        let decoded: Vec<Option<&[u8]>> = owned.iter().map(|o| o.as_deref()).collect();
        let (tb, bo, present) = pack_dense(&decoded);
        let dense = PreparedVocabulary::build_from_dense_id_ordered(&tb, &bo, &present, eos)
            .unwrap_or_else(|e| panic!("seed {seed}: {e:?}"));

        let mut map: FxHashMap<Vec<u8>, Vec<u32>> = FxHashMap::default();
        for (i, slot) in owned.iter().enumerate() {
            if let Some(bytes) = slot {
                map.entry(bytes.clone()).or_default().push(i as u32);
            }
        }
        let v = build_vocabulary(eos, map).expect("vocab");
        let via_vocab = PreparedVocabulary::build(&v).unwrap();
        assert_eq!(
            as_content(&dense),
            as_content(&via_vocab),
            "mismatch at seed {seed}"
        );
    }
}

