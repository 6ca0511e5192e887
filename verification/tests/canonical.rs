//! Canonical vocabularies: id lookup, mask widths and fingerprints.

use maskforge::admission::MAX_MASK_TOKENS;
use maskforge::canonical::{CanonicalVocabulary, IdIndex};
use maskforge::error::ErrorCode;
use maskforge::fingerprint::VocabFingerprint;
use maskforge::prepared::PreparedVocabulary;
use maskforge::vocab_build::build_vocabulary;
use maskforge::vocabulary::Vocabulary;
use rustc_hash::FxHashMap;

fn vocab(pairs: &[(&[u8], &[u32])], eos: u32) -> Vocabulary {
    let mut map: FxHashMap<Vec<u8>, Vec<u32>> = FxHashMap::default();
    for &(bytes, ids) in pairs {
        map.insert(bytes.to_vec(), ids.to_vec());
    }
    build_vocabulary(eos, map).expect("vocab")
}

#[test]
fn token_bytes_round_trips_every_id() {
    let v = vocab(&[(b"cat", &[17]), (b"car", &[42, 99]), (b"c", &[7])], 9999);
    let c = CanonicalVocabulary::from_vocabulary(&v).unwrap();
    assert_eq!(c.token_bytes(17), Some(b"cat".as_slice()));
    assert_eq!(c.token_bytes(42), Some(b"car".as_slice()));
    assert_eq!(c.token_bytes(99), Some(b"car".as_slice()));
    assert_eq!(c.token_bytes(7), Some(b"c".as_slice()));
    assert_eq!(c.token_bytes(9999), None); // EOS is not an ordinary id
    assert_eq!(c.token_bytes(123), None); // never assigned
}

#[test]
fn mask_vocab_size_covers_the_max_id_and_eos() {
    let v = vocab(&[(b"a", &[3])], 10);
    let c = CanonicalVocabulary::from_vocabulary(&v).unwrap();
    assert_eq!(c.mask_vocab_size(), 11); // max(3, 10) + 1
}

#[test]
fn fingerprint_matches_vocab_fingerprint_of() {
    let v = vocab(&[(b"a", &[0]), (b"b", &[1])], 9);
    let c = CanonicalVocabulary::from_vocabulary(&v).unwrap();
    assert_eq!(
        c.fingerprint().as_bytes(),
        VocabFingerprint::of(&v).unwrap().as_bytes()
    );
}

#[test]
fn sparse_id_space_still_resolves_correctly() {
    // A huge gap between ids forces the sparse index path, not the dense one.
    let v = vocab(&[(b"a", &[0]), (b"b", &[1_000_000])], 2_000_000);
    let c = CanonicalVocabulary::from_vocabulary(&v).unwrap();
    assert_eq!(c.token_bytes(0), Some(b"a".as_slice()));
    assert_eq!(c.token_bytes(1_000_000), Some(b"b".as_slice()));
    assert_eq!(c.token_bytes(500_000), None);
    assert_eq!(c.len(), 3); // 2 ordinary ids + 1 for EOS
}

#[test]
fn one_id_under_two_byte_sequences_is_rejected_dense_and_sparse() {
    let dense = vocab(&[(b"a", &[0]), (b"b", &[0])], 9);
    assert!(CanonicalVocabulary::from_vocabulary(&dense).is_err());

    // A wide id gap (via an unrelated third token) forces the sparse index path.
    let mut map: FxHashMap<Vec<u8>, Vec<u32>> = FxHashMap::default();
    map.insert(b"a".to_vec(), vec![0]);
    map.insert(b"b".to_vec(), vec![0]); // same id as "a" under a different byte string
    map.insert(b"c".to_vec(), vec![500_000]);
    let sparse_conflict = build_vocabulary(600_000, map).unwrap();
    assert!(CanonicalVocabulary::from_vocabulary(&sparse_conflict).is_err());
}

#[test]
fn dense_and_sparse_paths_agree_on_200_randomized_vocabularies() {
    fn next_rand(state: &mut u64) -> u64 {
        *state = state.wrapping_add(0x9E37_79B9_7F4A_7C15);
        let mut z = *state;
        z = (z ^ (z >> 30)).wrapping_mul(0xBF58_476D_1CE4_E5B9);
        z = (z ^ (z >> 27)).wrapping_mul(0x94D0_49BB_1331_11EB);
        z ^ (z >> 31)
    }
    for seed in 0..200u64 {
        let mut st = seed.wrapping_add(1);
        let mut map: FxHashMap<Vec<u8>, Vec<u32>> = FxHashMap::default();
        let mut next_id = 0u32;
        let sparse = seed % 2 == 0;
        for _ in 0..(4 + next_rand(&mut st) % 30) {
            let len = 1 + (next_rand(&mut st) % 6) as usize;
            let bytes: Vec<u8> = (0..len)
                .map(|_| (next_rand(&mut st) & 0xff) as u8)
                .collect();
            let ids = map.entry(bytes).or_default();
            let step = if sparse {
                1 + next_rand(&mut st) % 5000
            } else {
                1
            };
            for _ in 0..1 + next_rand(&mut st) % 3 {
                ids.push(next_id);
                next_id += u32::try_from(step).unwrap();
            }
        }
        let eos = next_id + 1000;
        let v = build_vocabulary(eos, map).expect("vocab");
        let c = CanonicalVocabulary::from_vocabulary(&v).unwrap();
        for (bytes, ids) in v.tokens() {
            for &id in ids {
                assert_eq!(c.token_bytes(id), Some(bytes.as_slice()), "seed {seed}");
            }
        }
    }
}

#[test]
fn empty_vocabulary_is_empty_and_len_counts_only_eos() {
    let v = vocab(&[], 9);
    let c = CanonicalVocabulary::from_vocabulary(&v).unwrap();
    assert!(c.is_empty());
    assert_eq!(c.len(), 1); // 0 ordinary ids + 1 for EOS
}

#[test]
fn a_byte_key_with_an_empty_id_list_is_rejected() {
    // An empty id list represents nothing decodable; the choke-point rejects it before a
    // CanonicalVocabulary (or a persisted trie derived from it) ever has to reason about it.
    let mut map: FxHashMap<Vec<u8>, Vec<u32>> = FxHashMap::default();
    map.insert(b"a".to_vec(), vec![]);
    assert_eq!(
        build_vocabulary(9, map).unwrap_err().code,
        ErrorCode::MalformedTokenizer
    );
}

#[test]
fn sparse_eos_does_not_force_a_huge_dense_table_for_small_ordinary_ids() {
    // Sparse EOS must not force a dense index sized to the EOS id.
    let v = vocab(&[(b"a", &[0]), (b"b", &[1])], 1_000_000);
    let c = CanonicalVocabulary::from_vocabulary(&v).unwrap();
    assert_eq!(c.token_bytes(0), Some(b"a".as_slice()));
    assert_eq!(c.token_bytes(1), Some(b"b".as_slice()));
    assert_eq!(c.token_bytes(1_000_000), None); // EOS is never an ordinary id
    assert_eq!(c.mask_vocab_size(), 1_000_001); // mask width still covers EOS
}

#[test]
fn mask_vocab_size_at_the_cap_is_accepted_one_above_is_rejected() {
    let at_cap = vocab(&[(b"a", &[(MAX_MASK_TOKENS - 1) as u32])], 0);
    assert_eq!(
        CanonicalVocabulary::from_vocabulary(&at_cap)
            .unwrap()
            .mask_vocab_size(),
        MAX_MASK_TOKENS
    );
    let over_cap = vocab(&[(b"a", &[MAX_MASK_TOKENS as u32])], 0);
    assert!(CanonicalVocabulary::from_vocabulary(&over_cap).is_err());
}

#[test]
fn explicit_logits_vocab_size_wider_than_inferred_is_used_directly() {
    let v = vocab(&[(b"a", &[5])], 9); // inferred width would be 10 (max(5, 9) + 1)
    let c = CanonicalVocabulary::from_vocabulary_with_logits_vocab_size(&v, Some(50000))
        .expect("wider explicit width accepted");
    assert_eq!(c.mask_vocab_size(), 50000);
}

#[test]
fn explicit_logits_vocab_size_smaller_than_inferred_is_rejected() {
    let v = vocab(&[(b"a", &[500])], 9); // inferred width is 501
    let err = CanonicalVocabulary::from_vocabulary_with_logits_vocab_size(&v, Some(100))
        .expect_err("a width narrower than an actual id must be rejected");
    assert_eq!(err.code, ErrorCode::InternalLimitExceeded);
}

#[test]
fn explicit_logits_vocab_size_equal_to_inferred_is_accepted() {
    let v = vocab(&[(b"a", &[5])], 9); // inferred width is 10
    let c = CanonicalVocabulary::from_vocabulary_with_logits_vocab_size(&v, Some(10))
        .expect("width exactly matching the inferred one is accepted");
    assert_eq!(c.mask_vocab_size(), 10);
}

#[test]
fn explicit_logits_vocab_size_does_not_change_the_fingerprint() {
    let v = vocab(&[(b"a", &[5])], 9);
    let narrow = CanonicalVocabulary::from_vocabulary(&v).unwrap();
    let wide =
        CanonicalVocabulary::from_vocabulary_with_logits_vocab_size(&v, Some(50000)).unwrap();
    assert_eq!(narrow.fingerprint(), wide.fingerprint());
    assert_ne!(narrow.mask_vocab_size(), wide.mask_vocab_size());
}

#[test]
fn explicit_logits_vocab_size_above_the_cap_is_rejected() {
    let v = vocab(&[(b"a", &[5])], 9);
    let err = CanonicalVocabulary::from_vocabulary_with_logits_vocab_size(
        &v,
        Some(MAX_MASK_TOKENS + 1),
    )
    .expect_err("an explicit width past the cap must still be rejected");
    assert_eq!(err.code, ErrorCode::InternalLimitExceeded);
}

#[test]
fn the_index_is_dense_exactly_where_a_table_takes_no_more_room() {
    // Two ids are charged for 48 bytes: a table of up to twelve slots.
    for (max, dense) in [(1, true), (11, true), (12, false), (1_000_000, false)] {
        let v = vocab(&[(b"a", &[0]), (b"b", &[max])], 2_000_000);
        let prepared = PreparedVocabulary::build(&v).unwrap();
        let index = IdIndex::build(&prepared, Some(max)).unwrap();
        assert_eq!(matches!(index, IdIndex::Dense(_)), dense, "{max}");
        assert_eq!(index.record_of(max), Some(1));
        assert_eq!(index.record_of(max + 1), None);
    }
    let none = PreparedVocabulary::build(&vocab(&[], 3)).unwrap();
    assert!(matches!(
        IdIndex::build(&none, None),
        Ok(IdIndex::Dense(_))
    ));
}
