//! Every combination of the three predicates is reached, dead is permanent, EOS stays a side
//! predicate, and the mask layout holds at word boundaries.

use maskforge::artifact::{ByteEngine, CompiledArtifact, Matcher};
use maskforge::canonical::CanonicalVocabulary;
use maskforge::error::ErrorCode;
use maskforge::vocab_build::build_vocabulary;
use maskforge::vocabulary::Vocabulary;
use maskforge::walk::{reachable, walk_distinct_states};
use rustc_hash::FxHashMap;

/// The EOS id. Its bit exists in the mask (width `EOS_ID + 1`) but is never set.
const EOS_ID: u32 = 64;

/// A vocabulary covering word-boundary ids (0, 31, 32, 63), a duplicate-byte token with two ids,
/// and a non-multiple-of-32 width (65). EOS = 64.
fn shared_vocab() -> Vocabulary {
    let mut map: FxHashMap<Vec<u8>, Vec<u32>> = FxHashMap::default();
    let singles: &[(&[u8], u32)] = &[
        (b"true", 0),
        (b"false", 1),
        (b"null", 2),
        (b"[", 3),
        (b"]", 4),
        (b",", 5),
        (b"{", 6),
        (b"}", 7),
        (b"1", 31),
        (b"2", 32),
        (b"12", 63),
    ];
    for &(bytes, id) in singles {
        map.insert(bytes.to_vec(), vec![id]);
    }
    map.insert(b"tr".to_vec(), vec![20, 21]);
    build_vocabulary(EOS_ID, map).expect("shared vocab builds")
}

/// The automaton of edges that each spell a byte string. State 0 starts; the last state is dead.
fn engine(named: u32, edges: &[(u32, &[u8], u32)], accepting: &[u32]) -> ByteEngine {
    let mut next: Vec<Vec<Option<u32>>> = vec![vec![None; 256]; named as usize];
    for &(from, bytes, to) in edges {
        let mut at = from;
        for (i, &b) in bytes.iter().enumerate() {
            let known = next[at as usize][b as usize];
            at = if i + 1 == bytes.len() {
                next[at as usize][b as usize] = Some(to);
                to
            } else if let Some(t) = known {
                t
            } else {
                let fresh = next.len() as u32;
                next.push(vec![None; 256]);
                next[at as usize][b as usize] = Some(fresh);
                fresh
            };
        }
    }
    let dead = next.len() as u32;
    next.push(vec![None; 256]);
    let table = next.iter().flatten().map(|t| t.unwrap_or(dead)).collect();
    let accepting = (0..=dead).map(|s| accepting.contains(&s)).collect();
    ByteEngine {
        table,
        accepting,
        start: 0,
        dead,
    }
}

fn artifact(name: &str) -> CompiledArtifact {
    let engine = match name {
        "suite-type-boolean" => engine(2, &[(0, b"true", 1), (0, b"false", 1)], &[1]),
        "syn-enum-prefix" => engine(3, &[(0, b"1", 1), (1, b"2", 2)], &[1, 2]),
        "syn-array-unbounded" => engine(
            5,
            &[
                (0, b"[", 1),
                (1, b"]", 4),
                (1, b"true", 2),
                (1, b"false", 2),
                (2, b",", 3),
                (2, b"]", 4),
                (3, b"true", 2),
                (3, b"false", 2),
            ],
            &[4],
        ),
        other => panic!("no engine named {other}"),
    };
    assert!(engine.is_whole());
    CompiledArtifact {
        engine,
        vocabulary: CanonicalVocabulary::from_vocabulary(&shared_vocab()).unwrap(),
    }
}

#[test]
fn only_whole_automata_can_be_walked() {
    let whole = || engine(2, &[(0, b"ok", 1)], &[1]);
    assert!(whole().is_whole());
    let mut short = whole();
    short.table.pop();
    assert!(!short.is_whole());
    let mut wild = whole();
    wild.table[3] = 99;
    assert!(!wild.is_whole());
    let mut risen = whole();
    let dead = risen.dead as usize;
    risen.table[dead * 256] = 0;
    assert!(!risen.is_whole());
    let mut useless = whole();
    useless.accepting[1] = false;
    assert!(!useless.is_whole());
    let mut accepting_dead = whole();
    accepting_dead.accepting[dead] = true;
    assert!(!accepting_dead.is_whole());
    let mut astray = whole();
    astray.start = 7;
    assert!(!astray.is_whole());
}

fn at(art: &CompiledArtifact, prefix: &[u8]) -> (bool, bool, bool) {
    let s = art
        .engine
        .walk(art.start(), prefix)
        .unwrap_or_else(|| art.dead());
    (art.is_accepting(s), art.can_continue(s), art.is_dead(s))
}

fn bit(mask: &[u32], id: u32) -> bool {
    mask[id as usize / 32] & (1u32 << (id % 32)) != 0
}

#[test]
fn every_predicate_combination_is_reached() {
    let boolean = artifact("suite-type-boolean");
    let prefix_enum = artifact("syn-enum-prefix");
    // accept AND continue: after "1", "1" is a complete value and "12" extends it.
    assert_eq!(at(&prefix_enum, b"1"), (true, true, false));
    // accept AND NOT continue: a closed, complete value.
    assert_eq!(at(&boolean, b"true"), (true, false, false));
    // NOT accept AND continue: ordinary mid-generation.
    assert_eq!(at(&boolean, b"tru"), (false, true, false));
    // NOT accept AND NOT continue: the single dead sentinel.
    assert_eq!(at(&boolean, b"xyz"), (false, false, true));
}

#[test]
fn dead_state_self_loops_on_all_256_bytes_and_stays_dead() {
    let boolean = artifact("suite-type-boolean");
    let dead = boolean.dead();
    assert!(boolean.is_dead(dead));
    for b in 0u8..=255 {
        assert!(
            boolean.engine.walk(dead, &[b]).is_none(),
            "byte {b} from dead must stay dead"
        );
    }
}

#[test]
fn eos_is_a_side_predicate_and_never_a_mask_bit() {
    for name in [
        "suite-type-boolean",
        "syn-enum-prefix",
        "syn-array-unbounded",
    ] {
        let art = artifact(name);
        for s in 0..art.engine.accepting.len() as u32 {
            assert_eq!(
                art.eos_legal(s),
                art.is_accepting(s),
                "{name}: eos != accept"
            );
            let mask = art.allowed_mask(s);
            assert!(!bit(&mask, EOS_ID), "{name}: EOS bit set at state {s}");
            assert_eq!(
                art.is_dead(s),
                !art.is_accepting(s) && !art.can_continue(s),
                "{name}: {s}"
            );
        }
    }
}

#[test]
fn duplicate_byte_sequence_sets_all_its_ids_together() {
    // "tr" (ids 20 and 21) is consumable from the boolean engine's start.
    let boolean = artifact("suite-type-boolean");
    let mask = boolean.allowed_mask(boolean.start());
    assert!(
        bit(&mask, 20) && bit(&mask, 21),
        "both ids sharing the bytes must be set together"
    );
}

#[test]
fn empty_byte_token_is_rejected_at_the_vocab_choke_point() {
    let mut map: FxHashMap<Vec<u8>, Vec<u32>> = FxHashMap::default();
    map.insert(Vec::new(), vec![1]);
    assert_eq!(
        build_vocabulary(0, map).unwrap_err().code,
        ErrorCode::EmptyToken
    );
}

#[test]
fn mask_abi_holds_at_word_boundaries_and_non_multiple_of_32_width() {
    let boolean = artifact("suite-type-boolean");
    // vocab width is EOS_ID + 1 = 65, not a multiple of 32.
    assert_eq!(boolean.vocab_size(), (EOS_ID + 1) as usize);
    assert_eq!(boolean.words_per_row(), 3);

    let prefix_enum = artifact("syn-enum-prefix");
    let s1 = prefix_enum
        .engine
        .walk(prefix_enum.start(), b"1")
        .expect("live");
    let mut out = vec![0u32; prefix_enum.words_per_row()];
    prefix_enum.write_mask_into(&[s1], &mut out).expect("fill");
    assert!(bit(&out, 32), "id 32 (\"2\") allowed after \"1\"");
    // The final word covers ids 64..95; only id 64 (EOS) exists there and is never set, so every
    // bit of the final word is zero.
    assert_eq!(out[2], 0, "unused high bits must be zero");
    let start = prefix_enum.allowed_mask(prefix_enum.start());
    assert_eq!(start, vec![1 << 31, 1 << 31, 0]);
}

#[test]
fn write_mask_into_rejects_a_mismatched_buffer_length() {
    let boolean = artifact("suite-type-boolean");
    let s = boolean.start();
    let mut wrong = vec![0u32; boolean.words_per_row() + 1];
    assert_eq!(
        boolean.write_mask_into(&[s], &mut wrong).unwrap_err().code,
        ErrorCode::ArtifactOutOfBounds
    );
    assert_eq!(wrong, vec![0u32; 4]);
}

#[test]
fn a_rejected_token_does_not_advance_the_matcher() {
    let boolean = artifact("suite-type-boolean");
    let mut m = Matcher::new(&boolean);
    let start = m.state;
    assert!(m.advance(&boolean, 2).is_err()); // "null" is not a boolean
    assert_eq!(
        m.state, start,
        "a rejected token must not move the matcher"
    );
    assert!(m.advance(&boolean, 20).is_ok());
    assert_ne!(m.state, start);
}

#[test]
fn dead_and_forged_states_are_empty_both_ways() {
    let art = artifact("suite-type-boolean");
    for s in [art.dead(), u32::MAX] {
        assert!(art.is_dead(s));
        assert_eq!(art.allowed_mask(s), vec![0, 0, 0]);
        assert_eq!(art.allowed_ids(s), Vec::<u32>::new());
        assert!(art.advance(s, 0).is_err());
    }
}

#[test]
fn a_mask_bit_is_set_exactly_where_advancing_succeeds() {
    for name in [
        "suite-type-boolean",
        "syn-enum-prefix",
        "syn-array-unbounded",
    ] {
        let art = artifact(name);
        for s in reachable(&art.graph()) {
            let mask = art.allowed_mask(s);
            let ids = art.allowed_ids(s);
            for id in 0..art.vocab_size() as u32 {
                let advanced = art.advance(s, id);
                assert_eq!(bit(&mask, id), advanced.is_ok(), "{name} {s} {id}");
                assert_eq!(ids.contains(&id), advanced.is_ok());
                if let Err(e) = advanced {
                    assert_eq!(e.code, "IllegalToken");
                    assert_eq!(e.message, format!("token {id}"));
                }
            }
        }
    }
}

#[test]
fn tokens_that_share_bytes_walk_to_the_same_place() {
    let art = artifact("syn-array-unbounded");
    let opened = art.advance(art.start(), 3).unwrap();
    assert_eq!(art.engine.walk(art.start(), b"[tr"), art.engine.walk(opened, b"tr"));
    let two = art.mask_words(&[art.start(), opened]);
    assert_eq!(two[..3], art.allowed_mask(art.start())[..]);
    assert_eq!(two[3..], art.allowed_mask(opened)[..]);
    assert!(!art.start_is_dead());
    let graph = art.graph();
    for s in reachable(&graph) {
        let listed: Vec<u32> = graph.moves[s as usize].iter().map(|m| m.0).collect();
        assert_eq!(listed, art.allowed_ids(s));
        for &(id, t) in &graph.moves[s as usize] {
            assert_eq!(art.advance(s, id), Ok(t));
        }
    }
    let walked = walk_distinct_states(&graph, 10);
    assert_eq!(walked[..2], [art.start(), opened]);
}
