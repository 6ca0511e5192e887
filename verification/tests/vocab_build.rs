//! The validated vocabulary constructors.

use maskforge::error::ErrorCode;
use maskforge::vocab_build::{build_vocabulary, build_vocabulary_from_str_keys};
use maskforge::vocabulary::{Token, TokenId, Vocabulary};
use rustc_hash::FxHashMap as HashMap;

fn map(entries: &[(&[u8], &[TokenId])]) -> HashMap<Token, Vec<TokenId>> {
    entries
        .iter()
        .map(|(bytes, ids)| (bytes.to_vec(), ids.to_vec()))
        .collect()
}

#[test]
fn empty_byte_token_is_rejected() {
    let v = build_vocabulary(0, map(&[(b"", &[1])]));
    assert_eq!(v.unwrap_err().code, ErrorCode::EmptyToken);
}

#[test]
fn str_keyed_choke_point_rejects_empty_and_eos() {
    let mut sm: HashMap<String, Vec<TokenId>> = HashMap::default();
    sm.insert(String::new(), vec![1]);
    assert_eq!(
        build_vocabulary_from_str_keys(0, sm).unwrap_err().code,
        ErrorCode::EmptyToken
    );
    let mut ok: HashMap<String, Vec<TokenId>> = HashMap::default();
    ok.insert("a".to_string(), vec![7]);
    let v = build_vocabulary_from_str_keys(0, ok).expect("valid");
    assert_eq!(v.token_ids("a".as_bytes()), Some(&[7][..]));
}

#[test]
fn str_and_bytes_keyed_construction_agree() {
    let mut sm: HashMap<String, Vec<TokenId>> = HashMap::default();
    sm.insert("1".to_string(), vec![1]);
    sm.insert("a".to_string(), vec![2]);
    let by_str = build_vocabulary_from_str_keys(3, sm).expect("valid");
    let by_bytes = build_vocabulary(3, map(&[(b"1", &[1]), (b"a", &[2])])).expect("valid");
    assert_eq!(by_str.token_ids("1".as_bytes()), by_bytes.token_ids(b"1"));
    assert_eq!(by_str.token_ids("a".as_bytes()), by_bytes.token_ids(b"a"));
    assert_eq!(by_str.eos_token_id(), by_bytes.eos_token_id());
    assert_eq!(by_str.len(), by_bytes.len());
}

#[test]
fn duplicate_bytes_different_ids_preserved() {
    let v = build_vocabulary(0, map(&[(b"ab", &[1, 2])])).expect("valid");
    let ids = v.token_ids(b"ab").expect("present");
    assert!(ids.contains(&1) && ids.contains(&2));
}

#[test]
fn raw_non_utf8_payload_is_accepted() {
    let v = build_vocabulary(0, map(&[(&[0xFF], &[7])])).expect("valid");
    assert_eq!(v.token_ids(&[0xFFu8]), Some(&[7][..]));
}

#[test]
fn eos_in_token_map_is_malformed_metadata() {
    let e = build_vocabulary(3, map(&[(b"x", &[3])])).unwrap_err();
    assert_eq!(e.code, ErrorCode::MalformedTokenizer);
    assert_eq!(e.token, Some(3));
}

#[test]
fn no_public_construction_path_admits_an_empty_token() {
    assert_eq!(
        build_vocabulary(0, map(&[(b"", &[1])])).unwrap_err().code,
        ErrorCode::EmptyToken
    );
    let mut v = Vocabulary::new(0);
    assert!(v.try_insert(Vec::<u8>::new(), 1).is_err());
    let mut m: HashMap<Token, Vec<TokenId>> = HashMap::default();
    m.insert(Vec::new(), vec![1]);
    assert!(Vocabulary::from_raw_bytes_map(0u32, m).is_err());
    let mut sm: HashMap<String, Vec<TokenId>> = HashMap::default();
    sm.insert(String::new(), vec![1]);
    assert!(Vocabulary::from_raw_string_map(0u32, sm).is_err());
}

