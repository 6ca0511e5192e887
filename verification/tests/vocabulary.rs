//! Vocabularies: insertion, removal and deduplication.

use maskforge::vocabulary::{dedup_ids, Error, Token, TokenId, Vocabulary};
use rustc_hash::{FxHashMap as HashMap, FxHashSet as HashSet};

#[test]
fn repeated_identical_insertion_is_idempotent() {
    let mut v = Vocabulary::new(0);
    let before_len = v.len();
    v.try_insert("a".into(), 5).unwrap();
    let after_first = v.len();
    v.try_insert("a".into(), 5).unwrap();
    v.try_insert("a".into(), 5).unwrap();
    assert_eq!(
        v.len(),
        after_first,
        "repeated identical insert must not grow len()"
    );
    assert_eq!(v.token_ids("a".as_bytes()), Some(&[5][..]));
    assert_eq!(after_first, before_len + 1);
}

#[test]
fn dedup_ids_small_and_large_paths_agree_across_the_boundary() {
    // A reference dedup (order-preserving, always the HashSet path) the fast paths must match on
    // every length, so the len<=1 / len<=8 shortcuts never drift from the general case (M053).
    fn reference(ids: &[TokenId]) -> Vec<TokenId> {
        let mut seen = HashSet::default();
        ids.iter().copied().filter(|id| seen.insert(*id)).collect()
    }
    // Deterministic pseudo-random ids with heavy duplication, spanning the <=1, <=8, and >8 arms.
    let mut state = 0x1234_5678u32;
    for len in 0..40usize {
        let raw: Vec<TokenId> = (0..len)
            .map(|_| {
                state = state.wrapping_mul(1_664_525).wrapping_add(1_013_904_223);
                state % 6 // small id space forces frequent duplicates
            })
            .collect();
        let mut got = raw.clone();
        dedup_ids(&mut got);
        assert_eq!(got, reference(&raw), "len={len} raw={raw:?}");
    }
}

#[test]
fn same_bytes_two_different_ids_are_both_kept() {
    let mut v = Vocabulary::new(0);
    v.try_insert("a".into(), 5).unwrap();
    v.try_insert("a".into(), 6).unwrap();
    let ids = v.token_ids("a".as_bytes()).unwrap();
    assert_eq!(ids.len(), 2);
    assert!(ids.contains(&5) && ids.contains(&6));
}

#[test]
fn token_id_u32_max_is_accepted_as_an_ordinary_id() {
    let mut v = Vocabulary::new(0);
    v.try_insert("a".into(), u32::MAX).unwrap();
    assert_eq!(v.token_ids("a".as_bytes()), Some(&[u32::MAX][..]));
}

#[test]
fn sparse_ids_do_not_inflate_len_beyond_stored_entries() {
    let mut v = Vocabulary::new(0);
    v.try_insert("low".into(), 1).unwrap();
    v.try_insert("high".into(), 1000).unwrap();
    assert_eq!(v.len(), 3); // 2 tokens + 1 for EOS, not 1001
}

#[test]
fn from_raw_bytes_map_dedups_duplicate_ids_within_one_token() {
    let mut m: HashMap<Token, Vec<TokenId>> = HashMap::default();
    m.insert(b"a".to_vec(), vec![5, 5, 6, 5]);
    let v = Vocabulary::from_raw_bytes_map(0, m).unwrap();
    let ids = v.token_ids("a".as_bytes()).unwrap();
    assert_eq!(ids.len(), 2);
    assert!(ids.contains(&5) && ids.contains(&6));
}

#[test]
fn from_raw_string_map_dedups_duplicate_ids_within_one_token() {
    let mut m: HashMap<String, Vec<TokenId>> = HashMap::default();
    m.insert("a".to_string(), vec![5, 5, 6, 5]);
    let v = Vocabulary::from_raw_string_map(0, m).unwrap();
    let ids = v.token_ids("a".as_bytes()).unwrap();
    assert_eq!(ids.len(), 2);
    assert!(ids.contains(&5) && ids.contains(&6));
}

#[test]
fn duplicate_removal_preserves_first_occurrence_order_not_sorted() {
    // Deliberately out of numeric order: 9, 3, 7. A sort would reorder to 3, 7, 9.
    let mut v = Vocabulary::new(0);
    for id in [9, 3, 7, 9, 3] {
        v.try_insert("a".into(), id).unwrap();
    }
    assert_eq!(v.token_ids("a".as_bytes()), Some(&[9, 3, 7][..]));

    let mut m: HashMap<Token, Vec<TokenId>> = HashMap::default();
    m.insert(b"a".to_vec(), vec![9, 3, 7, 9, 3]);
    let raw = Vocabulary::from_raw_bytes_map(0, m).unwrap();
    assert_eq!(raw.token_ids("a".as_bytes()), Some(&[9, 3, 7][..]));
}

#[test]
fn raw_bytes_and_string_map_construction_agree_on_id_order() {
    let ids = vec![9, 3, 7, 9, 3];
    let mut bytes_map: HashMap<Token, Vec<TokenId>> = HashMap::default();
    bytes_map.insert(b"a".to_vec(), ids.clone());
    let by_bytes = Vocabulary::from_raw_bytes_map(0, bytes_map).unwrap();

    let mut str_map: HashMap<String, Vec<TokenId>> = HashMap::default();
    str_map.insert("a".to_string(), ids);
    let by_str = Vocabulary::from_raw_string_map(0, str_map).unwrap();

    assert_eq!(by_bytes.token_ids("a".as_bytes()), by_str.token_ids("a".as_bytes()));
    assert_eq!(by_bytes.token_ids("a".as_bytes()), Some(&[9, 3, 7][..]));
}

#[test]
fn basic_interface() {
    let eos_token_id = 3;
    let mut vocabulary = Vocabulary::new(eos_token_id);

    match vocabulary.try_insert("eos-token".into(), eos_token_id) {
        Err(Error::EOSTokenDisallowed) => {}
        _ => unreachable!(),
    }

    // New empty vocabulary.
    assert_eq!(vocabulary.eos_token_id(), eos_token_id);
    assert!(vocabulary.tokens().is_empty());

    for (token, id) in [("zero", 0), ("one", 1), ("two", 2)] {
        vocabulary.try_insert(token.into(), id).expect("Insert failed");
        assert_eq!(vocabulary.token_ids(token.as_bytes()), Some(&[id][..]));
    }
    assert_eq!(vocabulary.tokens().len(), 3);
    assert_eq!(vocabulary.tokens().len(), 3);

    // Confirm different types.
    vocabulary.try_insert(b"four".into(), 4).expect("Insert failed");
    assert_eq!(vocabulary.token_ids("four".as_bytes()), Some(&[4][..]));

    vocabulary
        .try_insert(b"five".to_vec(), 5)
        .expect("Insert failed");
    assert_eq!(vocabulary.token_ids("five".as_bytes()), Some(&[5][..]));

    vocabulary
        .try_insert("six".to_string().into(), 6)
        .expect("Insert failed");
    assert_eq!(vocabulary.token_ids("six".as_bytes()), Some(&[6][..]));

    vocabulary.remove(b"four");
    assert_eq!(vocabulary.token_ids("four".as_bytes()), None);

    vocabulary.remove(&b"five".to_vec());
    assert_eq!(vocabulary.token_ids("five".as_bytes()), None);

    vocabulary.remove("six".to_string().as_bytes());
    assert_eq!(vocabulary.token_ids("six".as_bytes()), None);
}

#[test]
fn new_empty_vocabulary_from_hashmap() {
    let map: HashMap<Token, Vec<TokenId>> = HashMap::default();
    let vocabulary = Vocabulary::from_raw_bytes_map(1_u32, map).expect("Vocabulary failed");
    assert_eq!(vocabulary.eos_token_id(), 1);
    assert!(vocabulary.tokens().is_empty());
}

