//! Walks over state graphs, and the decisions of the benchmark programs.

use maskforge::bench::{
    crossover_samples, parse_bench_mode, parse_decimal, parse_stage, probe_mode, report_field,
    synthetic_vocab,
    vocab_by_id, BenchStage,
};
use maskforge::bind::BindMode;
use maskforge::walk::{reachable, walk_distinct_states, StateGraph};

/// 0 -> 1 -> 2 (accepting), 0 -> 3, 3 -> 3; 4 is unreachable.
fn graph() -> StateGraph {
    StateGraph {
        start: 0,
        moves: vec![
            vec![(9, 3), (4, 1)],
            vec![(7, 2)],
            vec![(1, 0)],
            vec![(2, 3)],
            vec![(0, 0)],
        ],
        accepting: vec![false, false, true, false, false],
    }
}

#[test]
fn every_reachable_state_is_found_once() {
    assert_eq!(reachable(&graph()), vec![0, 3, 1, 2]);
}

#[test]
fn the_walk_takes_the_smallest_token_and_stops_at_acceptance() {
    assert_eq!(walk_distinct_states(&graph(), 8), vec![0, 1, 2]);
    assert_eq!(walk_distinct_states(&graph(), 2), vec![0, 1]);
    assert_eq!(walk_distinct_states(&graph(), 0), Vec::<u32>::new());
}

#[test]
fn the_walk_stops_at_dead_ends_and_repeats() {
    let mut looping = graph();
    looping.start = 3;
    assert_eq!(walk_distinct_states(&looping, 8), vec![3]);
    let mut dead = graph();
    dead.moves[1] = vec![];
    assert_eq!(walk_distinct_states(&dead, 8), vec![0, 1]);
}

#[test]
fn benchmark_names_are_known_or_not() {
    assert_eq!(parse_stage("bind_warm"), Some(BenchStage::BindWarm));
    assert_eq!(
        parse_stage("core_cached_batch_n"),
        Some(BenchStage::CachedBatchN)
    );
    assert_eq!(parse_stage("bind"), None);
    assert_eq!(parse_bench_mode("naive"), Some(BindMode::Naive));
    assert_eq!(parse_bench_mode("byte_trie"), Some(BindMode::TrieJointByte));
    assert_eq!(parse_bench_mode("lazy"), None);
    assert_eq!(vocab_by_id("gpt2"), Some("openai-community/gpt2"));
    assert_eq!(vocab_by_id("qwen"), Some("Qwen/Qwen2.5-0.5B"));
    assert_eq!(vocab_by_id("bert"), None);
    assert_eq!(probe_mode(0), BindMode::TrieJointByteLazy);
    assert_eq!(probe_mode(1), BindMode::TrieJointBytePacked);
}

#[test]
fn slow_crossover_cells_are_sampled_less() {
    assert_eq!(crossover_samples(512, 15), 15);
    assert_eq!(crossover_samples(4096, 15), 5);
    assert_eq!(crossover_samples(4096, 3), 3);
}

#[test]
fn report_fields_are_read_by_name() {
    let report = "TIME_NS=1234 RSS_BYTES=99\n STATES_VISITED=7 ";
    assert_eq!(report_field(report, "TIME_NS="), Some(1234));
    assert_eq!(report_field(report, "RSS_BYTES="), Some(99));
    assert_eq!(report_field(report, "STATES_VISITED="), Some(7));
    assert_eq!(report_field(report, "OTHER="), Some(0));
    assert_eq!(report_field("TIME_NS=1 TIME_NS=2", "TIME_NS="), Some(2));
    assert_eq!(report_field("TIME_NS=x", "TIME_NS="), None);
    assert_eq!(report_field("", "TIME_NS="), Some(0));
    // Words are parted by any Unicode white space.
    for gap in "\t\u{b}\u{85}\u{a0}\u{1680}\u{2003}\u{2028}\u{202f}\u{205f}\u{3000}".chars() {
        assert!(gap.is_whitespace());
        let report = format!("X=1{gap}TIME_NS=5{gap}Y=2");
        assert_eq!(report_field(&report, "TIME_NS="), Some(5));
    }
    assert_eq!(report_field("X=1\u{200b}TIME_NS=5", "TIME_NS="), Some(0));
}

#[test]
fn white_space_parts_words_exactly_where_unicode_has_it() {
    for c in '\0'..=char::MAX {
        let parted = report_field(&format!("{c}N=1"), "N=") == Some(1);
        assert_eq!(parted, c.is_whitespace(), "{c:?}");
    }
}

#[test]
fn decimals_fit_or_are_refused() {
    assert_eq!(
        parse_decimal("340282366920938463463374607431768211455"),
        Some(u128::MAX)
    );
    assert_eq!(
        parse_decimal("340282366920938463463374607431768211456"),
        None
    );
    assert_eq!(parse_decimal("+7"), Some(7));
    assert_eq!(parse_decimal("+"), None);
    assert_eq!(parse_decimal("++7"), None);
    assert_eq!(parse_decimal("007"), Some(7));
    assert_eq!(parse_decimal(""), None);
    assert_eq!(parse_decimal("1a"), None);
}

#[test]
fn synthetic_tokens_are_numbered() {
    let v = synthetic_vocab(300);
    assert_eq!(v.len(), 301);
    assert_eq!(v.eos_token_id(), 300);
    assert_eq!(v.token_ids(&[43, 1, 0, 0]), Some(&[299][..]));
    assert_eq!(v.token_ids(&[44, 1, 0, 0]), None);
    assert!(synthetic_vocab(0).is_empty());
}
