//! Laws of the library, on concrete values.

use std::cmp::Ordering;

use maskforge::byte_order::{compare_bytes, lexical_prefix, same_bytes};
use maskforge::canonical::CanonicalVocabulary;
use maskforge::fingerprint::VocabFingerprint;
use maskforge::layout::TokenRecord;
use maskforge::little_endian::{push_le, read_le};
use maskforge::ordering::PackedSortKey;
use maskforge::prepared::PreparedVocabulary;
use maskforge::text::{decimal, same_text};
use maskforge::validator::{scalar_is_complete, step_scalar, ScalarPhase, ScalarStep};
use maskforge::vocab_build::build_vocabulary;
use rustc_hash::FxHashMap;

fn run_scalar(bytes: &[u8]) -> Option<ScalarPhase> {
    let mut phase = ScalarPhase::BeforeValue;
    for &b in bytes {
        match step_scalar(phase, b) {
            ScalarStep::Continue(next) => phase = next,
            _ => return None,
        }
    }
    Some(phase)
}

#[test]
fn exactly_json_scalars_end_complete() {
    for text in ["0", "-0", "10", "1.5", "1e3", "-1.25E+07", "true", "false", "null"] {
        let phase = run_scalar(text.as_bytes());
        assert!(phase.is_some_and(scalar_is_complete), "{text}");
    }
    for text in ["", "-", "01", "1.", ".5", "1e", "1e+", "tru", "nul", "+1", "truee", "--1"] {
        let phase = run_scalar(text.as_bytes());
        assert!(!phase.is_some_and(scalar_is_complete), "{text}");
    }
}

#[test]
fn a_complete_value_never_rejects_a_byte_and_an_open_one_never_ends() {
    for text in ["0", "12", "1.5", "1e3", "true", "-", "1.", "1e", "1e-", "fa"] {
        let phase = run_scalar(text.as_bytes()).unwrap();
        for b in 0..=255u8 {
            match step_scalar(phase, b) {
                ScalarStep::Done => assert!(scalar_is_complete(phase)),
                ScalarStep::Invalid => assert!(!scalar_is_complete(phase)),
                _ => {}
            }
        }
    }
}

#[test]
fn prefixes_order_as_their_strings_do() {
    let strings: [&[u8]; 7] = [
        b"",
        b"\0",
        b"a",
        b"ab",
        b"abcdefgh",
        b"abcdefghi",
        &[0xff; 9],
    ];
    for a in strings {
        for b in strings {
            assert_eq!(compare_bytes(a, b), a.cmp(b));
            assert_eq!(same_bytes(a, b), a == b);
            if lexical_prefix(a) < lexical_prefix(b) {
                assert_eq!(compare_bytes(a, b), Ordering::Less);
            }
        }
    }
    assert_eq!(lexical_prefix(b"ab"), 0x6162_0000_0000_0000);
    assert_eq!(lexical_prefix(b"abcdefghi"), 0x6162_6364_6566_6768);
}

#[test]
fn record_and_sort_key_sizes_are_what_the_peak_charges() {
    assert_eq!(
        std::mem::size_of::<TokenRecord>(),
        maskforge::admission::TOKEN_RECORD_BYTES
    );
    assert_eq!(
        std::mem::size_of::<PackedSortKey>(),
        maskforge::admission::SORT_KEY_BYTES
    );
    assert_eq!(
        maskforge::admission::projected_peak_bytes(10, 20, 5),
        10 + 80 + 80 + 80 + 80 + 4 * (1 << 21)
    );
}

#[test]
fn the_order_of_packed_tokens_does_not_matter() {
    let a = PreparedVocabulary::build_from_packed(
        b"catcarc",
        &[0, 3, 6, 7],
        &[2, 1, 0],
        &[0, 1, 2, 3],
        9,
    )
    .unwrap();
    let b = PreparedVocabulary::build_from_packed(
        b"ccarcat",
        &[0, 1, 4, 7],
        &[0, 1, 2],
        &[0, 1, 2, 3],
        9,
    )
    .unwrap();
    assert_eq!(a.iter(), b.iter());
}

#[test]
fn fingerprints_tell_content_apart() {
    let fingerprint = |eos: u32, tokens: &[(&[u8], &[u32])]| {
        let mut map: FxHashMap<Vec<u8>, Vec<u32>> = FxHashMap::default();
        for (bytes, ids) in tokens {
            map.insert(bytes.to_vec(), ids.to_vec());
        }
        let v = build_vocabulary(eos, map).unwrap();
        let of = VocabFingerprint::of(&v).unwrap();
        let canonical = CanonicalVocabulary::from_vocabulary(&v).unwrap();
        assert_eq!(canonical.fingerprint(), of);
        assert_eq!(canonical.len(), v.len());
        assert_eq!(canonical.is_empty(), v.is_empty());
        *of.as_bytes()
    };
    let base = fingerprint(9, &[(b"a", &[0]), (b"b", &[1, 2])]);
    assert_eq!(base, fingerprint(9, &[(b"b", &[2, 1]), (b"a", &[0])]));
    assert_ne!(base, fingerprint(8, &[(b"a", &[0]), (b"b", &[1, 2])]));
    assert_ne!(base, fingerprint(9, &[(b"a", &[0, 1]), (b"b", &[2])]));
    assert_ne!(base, fingerprint(9, &[(b"ab", &[0]), (b"b", &[1, 2])]));
    assert_eq!(
        fingerprint(9, &[]),
        *blake3::hash(&[9, 0, 0, 0]).as_bytes()
    );
}

#[test]
fn little_endian_numbers_round_trip() {
    for x in [0u64, 1, 255, 256, 0x1234_5678, u64::MAX] {
        let mut bytes = vec![0xaa];
        push_le(&mut bytes, x, 8);
        assert_eq!(bytes[1..], x.to_le_bytes());
        assert_eq!(read_le(&bytes, 1, 8), x);
    }
}

#[test]
fn decimals_are_written_without_leading_zeros() {
    for n in [0u64, 9, 10, 105, 4_294_967_296, u64::MAX] {
        assert_eq!(decimal(n), n.to_string());
    }
    assert!(same_text("byte_trie", "byte_trie"));
    assert!(!same_text("byte_trie", "byte_trie_lazy"));
}
