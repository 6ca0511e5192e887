//! What the benchmark programs decide: names of stages, modes and vocabularies,
//! sample counts, and the fields of a child process's report.

use vstd::prelude::*;
use vstd::slice::slice_subrange;
use vstd::string::StrSliceExecFns;

use crate::bind::BindMode;
use crate::hash_tables::{TokenMap, token_map_contents, token_map_insert, token_map_new};
use crate::little_endian::{
    le_bytes, le_limits, le_round_trip, le_value, le_value_round_trip, push_le,
};
use crate::text::same_text;
use crate::token_map::{first_occurrences, first_occurrences_of_distinct};
use crate::vocab_build::build_vocabulary;
use crate::vocabulary::{Vocabulary, distinct_ids};

verus! {

/// One measured operation.
#[derive(Clone, Copy, Debug, PartialEq, Eq, Structural)]
pub enum BenchStage {
    Compile,
    BindCold,
    BindWarm,
    RawAllowedMask,
    CachedFirst,
    CachedRepeated,
    CachedDistinctN,
    CachedBatchN,
}

/// The name of a stage.
pub open spec fn stage_label(stage: BenchStage) -> Seq<char> {
    match stage {
        BenchStage::Compile => "compile"@,
        BenchStage::BindCold => "bind_cold"@,
        BenchStage::BindWarm => "bind_warm"@,
        BenchStage::RawAllowedMask => "core_raw_allowed_mask"@,
        BenchStage::CachedFirst => "core_cached_first"@,
        BenchStage::CachedRepeated => "core_cached_repeated"@,
        BenchStage::CachedDistinctN => "core_cached_distinct_n"@,
        BenchStage::CachedBatchN => "core_cached_batch_n"@,
    }
}

/// The stage of a name, if there is one.
pub fn parse_stage(name: &str) -> (r: Option<BenchStage>)
    ensures
        match r {
            Some(stage) => name@ == stage_label(stage),
            None => forall|stage: BenchStage| name@ != #[trigger] stage_label(stage),
        },
{
    if same_text(name, "compile") {
        Some(BenchStage::Compile)
    } else if same_text(name, "bind_cold") {
        Some(BenchStage::BindCold)
    } else if same_text(name, "bind_warm") {
        Some(BenchStage::BindWarm)
    } else if same_text(name, "core_raw_allowed_mask") {
        Some(BenchStage::RawAllowedMask)
    } else if same_text(name, "core_cached_first") {
        Some(BenchStage::CachedFirst)
    } else if same_text(name, "core_cached_repeated") {
        Some(BenchStage::CachedRepeated)
    } else if same_text(name, "core_cached_distinct_n") {
        Some(BenchStage::CachedDistinctN)
    } else if same_text(name, "core_cached_batch_n") {
        Some(BenchStage::CachedBatchN)
    } else {
        None
    }
}

/// The mode of a benchmark's name for it.
pub open spec fn benched_mode(name: Seq<char>) -> Option<BindMode> {
    if name == "naive"@ {
        Some(BindMode::Naive)
    } else if name == "byte_trie"@ {
        Some(BindMode::TrieJointByte)
    } else {
        None
    }
}

/// The mode of a benchmark's name for it, if there is one.
pub fn parse_bench_mode(name: &str) -> (r: Option<BindMode>)
    ensures
        r == benched_mode(name@),
        r == if name@ == "naive"@ {
            Some(BindMode::Naive)
        } else if name@ == "byte_trie"@ {
            Some(BindMode::TrieJointByte)
        } else {
            None
        },
{
    if same_text(name, "naive") {
        Some(BindMode::Naive)
    } else if same_text(name, "byte_trie") {
        Some(BindMode::TrieJointByte)
    } else {
        None
    }
}

/// The published model of a vocabulary identifier.
pub open spec fn published_model(vocab_id: Seq<char>) -> Option<Seq<char>> {
    if vocab_id == "gpt2"@ {
        Some("openai-community/gpt2"@)
    } else if vocab_id == "qwen"@ {
        Some("Qwen/Qwen2.5-0.5B"@)
    } else {
        None
    }
}

/// The published model of a vocabulary identifier, if there is one.
pub fn vocab_by_id(vocab_id: &str) -> (r: Option<&'static str>)
    ensures
        match r {
            Some(model) => published_model(vocab_id@) == Some(model@),
            None => published_model(vocab_id@) is None,
        },
        match r {
            Some(model) => {
                ||| vocab_id@ == "gpt2"@ && model@ == "openai-community/gpt2"@
                ||| vocab_id@ == "qwen"@ && model@ == "Qwen/Qwen2.5-0.5B"@
            },
            None => vocab_id@ != "gpt2"@ && vocab_id@ != "qwen"@,
        },
{
    if same_text(vocab_id, "gpt2") {
        Some("openai-community/gpt2")
    } else if same_text(vocab_id, "qwen") {
        Some("Qwen/Qwen2.5-0.5B")
    } else {
        None
    }
}

/// How often a crossover cell of `q` queries is sampled.
pub open spec fn crossover_count(q: int, samples: int) -> int {
    if q >= 4096 && samples > 5 {
        5
    } else {
        samples
    }
}

/// How often a crossover cell of `q` queries is sampled: the slow ones at most five times.
pub fn crossover_samples(q: usize, samples: usize) -> (n: usize)
    ensures
        n == crossover_count(q as int, samples as int),
        n == if q >= 4096 && samples > 5 {
            5
        } else {
            samples
        },
{
    if q >= 4096 && samples > 5 {
        5
    } else {
        samples
    }
}

/// The mode of the `i`-th concurrent bind of a probe.
pub open spec fn probed_mode(i: int) -> BindMode {
    if i % 2 == 0 {
        BindMode::TrieJointByteLazy
    } else {
        BindMode::TrieJointBytePacked
    }
}

/// The mode of the `i`-th concurrent bind of a probe: lazy and packed in turn.
pub fn probe_mode(i: usize) -> (mode: BindMode)
    ensures
        mode == probed_mode(i as int),
        mode == if i % 2 == 0 {
            BindMode::TrieJointByteLazy
        } else {
            BindMode::TrieJointBytePacked
        },
{
    if i % 2 == 0 {
        BindMode::TrieJointByteLazy
    } else {
        BindMode::TrieJointBytePacked
    }
}

/// How many ids the synthetic vocabulary of a probe has: a hundred under the mask-width cap.
pub const NEAR_CAP_IDS: u32 = 2_097_052;

/// A map of `n` tokens, in which the token of each id is its four little-endian bytes.
pub open spec fn numbered(n: u32) -> Map<Seq<u8>, Seq<u32>> {
    Map::new(
        |token: Seq<u8>| token.len() == 4 && le_value(token) < n,
        |token: Seq<u8>| seq![le_value(token) as u32],
    )
}

proof fn numbered_step(i: u32, token: Seq<u8>)
    requires
        i < u32::MAX,
        token == le_bytes(i as int, 4),
    ensures
        numbered(i).insert(token, seq![i]) == numbered((i + 1) as u32),
{
    le_limits();
    le_round_trip(i as int, 4);
    let more = numbered((i + 1) as u32);
    let grown = numbered(i).insert(token, seq![i]);
    assert forall|t: Seq<u8>| #[trigger] grown.contains_key(t) == more.contains_key(t) by {
        if t.len() == 4 && le_value(t) == i {
            le_value_round_trip(t);
        }
    }
    assert(grown =~= more);
}

/// A vocabulary of `n` numbered tokens, whose end-of-sequence id follows theirs.
pub fn synthetic_vocab(n: u32) -> (v: Vocabulary)
    ensures
        v.eos() == n,
        v.contents() == numbered(n),
{
    let mut tokens: TokenMap = token_map_new();
    let mut i: u32 = 0;
    proof {
        assert forall|t: Seq<u8>| !(#[trigger] numbered(0).contains_key(t)) by {
            le_value_round_trip(t);
        }
        assert(numbered(0) =~= Map::<Seq<u8>, Seq<u32>>::empty());
    }
    while i < n
        invariant
            i <= n,
            token_map_contents(tokens) == numbered(i),
        decreases n - i,
    {
        let mut token: Vec<u8> = Vec::new();
        push_le(&mut token, i as u64, 4);
        let ids: Vec<u32> = vec![i];
        proof {
            assert(token@ =~= le_bytes(i as int, 4));
            assert(ids@ =~= seq![i]);
            numbered_step(i, token@);
        }
        token_map_insert(&mut tokens, token, ids);
        i = i + 1;
    }
    let ghost contents = token_map_contents(tokens);
    proof {
        assert forall|t: Seq<u8>| #[trigger] contents.contains_key(t) implies !contents[t].contains(
            n,
        ) && first_occurrences(contents[t]) == contents[t] by {
            le_value_round_trip(t);
            first_occurrences_of_distinct(contents[t]);
        }
        assert(distinct_ids(contents) =~= contents);
    }
    match build_vocabulary(n, tokens) {
        Ok(v) => v,
        Err(_) => {
            assert(false);
            Vocabulary::new(n)
        },
    }
}

/// The vocabulary that a probe binds near the mask-width cap.
pub fn synthetic_near_cap_vocab() -> (v: Vocabulary)
    ensures
        v.eos() == NEAR_CAP_IDS,
        v.contents() == numbered(NEAR_CAP_IDS),
{
    synthetic_vocab(NEAR_CAP_IDS)
}

/// White space, as Unicode's property `White_Space` has it.
pub open spec fn is_space(c: char) -> bool {
    ||| 0x09 <= c as u32 <= 0x0d
    ||| c as u32 == 0x20
    ||| c as u32 == 0x85
    ||| c as u32 == 0xa0
    ||| c as u32 == 0x1680
    ||| 0x2000 <= c as u32 <= 0x200a
    ||| 0x2028 <= c as u32 <= 0x2029
    ||| c as u32 == 0x202f
    ||| c as u32 == 0x205f
    ||| c as u32 == 0x3000
}

fn space(c: char) -> (r: bool)
    ensures
        r == is_space(c),
{
    let n: u32 = c as u32;
    (0x09 <= n && n <= 0x0d) || n == 0x20 || n == 0x85 || n == 0xa0 || n == 0x1680 || (0x2000 <= n
        && n <= 0x200a) || n == 0x2028 || n == 0x2029 || n == 0x202f || n == 0x205f || n == 0x3000
}

/// A decimal digit.
pub open spec fn is_decimal_digit(c: char) -> bool {
    0x30 <= c as u32 <= 0x39
}

/// A text of digits only, and at least one.
pub open spec fn is_decimal(s: Seq<char>) -> bool {
    s.len() > 0 && forall|i: int| 0 <= i < s.len() ==> is_decimal_digit(#[trigger] s[i])
}

/// The number that a text of digits spells.
pub open spec fn decimal_value(s: Seq<char>) -> nat
    decreases s.len(),
{
    if s.len() == 0 {
        0
    } else {
        decimal_value(s.drop_last()) * 10 + (s.last() as u32 - 0x30) as nat
    }
}

/// A text without the plus sign that may stand in front of a number.
pub open spec fn unsigned_text(s: Seq<char>) -> Seq<char> {
    if s.len() > 1 && s[0] == '+' {
        s.skip(1)
    } else {
        s
    }
}

/// `n` is the number that a text spells in decimal, with or without a plus sign; nothing where it
/// spells none or one that does not fit.
pub open spec fn spells(s: Seq<char>, n: Option<u128>) -> bool {
    let digits = unsigned_text(s);
    match n {
        Some(n) => is_decimal(digits) && n == decimal_value(digits),
        None => !is_decimal(digits) || decimal_value(digits) > u128::MAX,
    }
}

/// The characters of a text.
fn characters(text: &str) -> (chars: Vec<char>)
    ensures
        chars@ == text@,
{
    let n: usize = text.unicode_len();
    let mut chars: Vec<char> = Vec::new();
    let mut i: usize = 0;
    while i < n
        invariant
            n == text@.len(),
            i <= n,
            chars@ =~= text@.take(i as int),
        decreases n - i,
    {
        chars.push(text.get_char(i));
        i = i + 1;
    }
    assert(text@.take(i as int) =~= text@);
    chars
}

/// The number that a text spells in decimal, if it does and fits.
pub fn parse_decimal(text: &str) -> (r: Option<u128>)
    ensures
        spells(text@, r),
{
    parse_number(characters(text).as_slice())
}

fn parse_number(s: &[char]) -> (r: Option<u128>)
    ensures
        spells(s@, r),
{
    if s.len() > 1 && s[0] == '+' {
        let digits: &[char] = slice_subrange(s, 1, s.len());
        assert(digits@ =~= s@.skip(1));
        parse_digits(digits)
    } else {
        parse_digits(s)
    }
}

fn parse_digits(s: &[char]) -> (r: Option<u128>)
    ensures
        match r {
            Some(n) => is_decimal(s@) && n == decimal_value(s@),
            None => !is_decimal(s@) || decimal_value(s@) > u128::MAX,
        },
{
    if s.len() == 0 {
        return None;
    }
    let mut n: u128 = 0;
    let mut i: usize = 0;
    let mut fits: bool = true;
    while i < s.len()
        invariant
            i <= s@.len(),
            forall|k: int| 0 <= k < i ==> is_decimal_digit(#[trigger] s@[k]),
            fits ==> n == decimal_value(s@.take(i as int)),
            !fits ==> decimal_value(s@.take(i as int)) > u128::MAX,
        decreases s@.len() - i,
    {
        let c: u32 = s[i] as u32;
        if c < 0x30 || c > 0x39 {
            assert(!is_decimal_digit(s@[i as int]));
            return None;
        }
        assert(s@.take(i + 1).drop_last() =~= s@.take(i as int));
        if fits {
            fits = match n.checked_mul(10) {
                Some(m) => match m.checked_add((c - 0x30) as u128) {
                    Some(sum) => {
                        n = sum;
                        true
                    },
                    None => false,
                },
                None => false,
            };
        }
        i = i + 1;
    }
    assert(s@.take(i as int) =~= s@);
    if fits {
        Some(n)
    } else {
        None
    }
}

/// Where the next word of a text starts, from `from` on.
pub open spec fn word_start(s: Seq<char>, from: int) -> int
    decreases s.len() - from,
{
    if 0 <= from < s.len() && is_space(s[from]) {
        word_start(s, from + 1)
    } else {
        from
    }
}

/// Where the word that goes on at `from` ends.
pub open spec fn word_end(s: Seq<char>, from: int) -> int
    decreases s.len() - from,
{
    if 0 <= from < s.len() && !is_space(s[from]) {
        word_end(s, from + 1)
    } else {
        from
    }
}

/// `word` starts with `name`.
pub open spec fn has_prefix(word: Seq<char>, name: Seq<char>) -> bool {
    name.len() <= word.len() && word.take(name.len() as int) == name
}

proof fn word_bounds(s: Seq<char>, from: int)
    requires
        0 <= from <= s.len(),
    ensures
        from <= word_start(s, from) <= s.len(),
        from <= word_end(s, from) <= s.len(),
        word_start(s, from) == from ==> from == s.len() || word_end(s, from) > from,
    decreases s.len() - from,
{
    if from < s.len() {
        word_bounds(s, from + 1);
    }
}

/// What stands behind `name` in the last word from `from` on that starts with it.
pub open spec fn field_text_from(
    s: Seq<char>,
    from: int,
    name: Seq<char>,
    found: Option<Seq<char>>,
) -> Option<Seq<char>>
    decreases s.len() - from,
{
    let start = word_start(s, from);
    let end = word_end(s, start);
    if 0 <= from <= start < end <= s.len() {
        let word = s.subrange(start, end);
        field_text_from(
            s,
            end,
            name,
            if has_prefix(word, name) {
                Some(word.skip(name.len() as int))
            } else {
                found
            },
        )
    } else {
        found
    }
}

/// The number that stands behind `name` in the last word of a report that starts with it; zero
/// where no word does, and `None` where it is no number.
pub fn report_field(report: &str, name: &str) -> (r: Option<u128>)
    ensures
        match field_text_from(report@, 0, name@, None) {
            None => r == Some(0u128),
            Some(text) => spells(text, r),
        },
{
    field_number(characters(report).as_slice(), characters(name).as_slice())
}

fn field_number(report: &[char], name: &[char]) -> (r: Option<u128>)
    ensures
        match field_text_from(report@, 0, name@, None) {
            None => r == Some(0u128),
            Some(text) => spells(text, r),
        },
{
    let n: usize = report.len();
    let mut at: usize = 0;
    let mut found: Option<(usize, usize)> = None;
    let ghost s = report@;
    while at < n
        invariant
            n == s.len(),
            s == report@,
            at <= n,
            match found {
                Some(range) => range.0 <= range.1 <= n,
                None => true,
            },
            field_text_from(s, 0, name@, None) == field_text_from(
                s,
                at as int,
                name@,
                match found {
                    Some(range) => Some(s.subrange(range.0 as int, range.1 as int)),
                    None => None,
                },
            ),
        decreases n - at,
    {
        let start: usize = skip_spaces(report, at);
        proof {
            word_bounds(s, at as int);
            word_bounds(s, start as int);
        }
        if start == n {
            at = n;
            proof {
                assert(word_end(s, n as int) == n);
                assert(word_start(s, n as int) == n);
            }
        } else {
            let end: usize = skip_word(report, start);
            proof {
                starts_on_word(s, at as int);
            }
            let word: &[char] = slice_subrange(report, start, end);
            if starts_with(word, name) {
                assert(s.subrange(start as int, end as int).skip(name@.len() as int)
                    =~= s.subrange(start + name@.len(), end as int));
                found = Some((start + name.len(), end));
            }
            at = end;
        }
    }
    proof {
        assert(word_start(s, n as int) == n);
        assert(word_end(s, n as int) == n);
    }
    match found {
        None => Some(0),
        Some((from, to)) => parse_number(slice_subrange(report, from, to)),
    }
}

/// A word starts at a character that is no white space.
proof fn starts_on_word(s: Seq<char>, from: int)
    requires
        0 <= from <= s.len(),
        word_start(s, from) < s.len(),
    ensures
        !is_space(s[word_start(s, from)]),
        word_end(s, word_start(s, from)) > word_start(s, from),
    decreases s.len() - from,
{
    if from < s.len() && is_space(s[from]) {
        starts_on_word(s, from + 1);
    } else {
        word_bounds(s, from + 1);
    }
}

fn skip_spaces(s: &[char], from: usize) -> (at: usize)
    requires
        from <= s@.len(),
    ensures
        at == word_start(s@, from as int),
{
    let mut at: usize = from;
    while at < s.len() && space(s[at])
        invariant
            at <= s@.len(),
            word_start(s@, from as int) == word_start(s@, at as int),
        decreases s@.len() - at,
    {
        at = at + 1;
    }
    at
}

fn skip_word(s: &[char], from: usize) -> (at: usize)
    requires
        from <= s@.len(),
    ensures
        at == word_end(s@, from as int),
{
    let mut at: usize = from;
    while at < s.len() && !space(s[at])
        invariant
            at <= s@.len(),
            word_end(s@, from as int) == word_end(s@, at as int),
        decreases s@.len() - at,
    {
        at = at + 1;
    }
    at
}

fn starts_with(word: &[char], name: &[char]) -> (r: bool)
    ensures
        r == has_prefix(word@, name@),
{
    if name.len() > word.len() {
        return false;
    }
    let mut i: usize = 0;
    while i < name.len()
        invariant
            i <= name@.len() <= word@.len(),
            word@.take(i as int) =~= name@.take(i as int),
        decreases name@.len() - i,
    {
        if word[i] != name[i] {
            assert(word@.take(name@.len() as int)[i as int] != name@[i as int]);
            return false;
        }
        assert(word@.take(i + 1) =~= word@.take(i as int).push(word@[i as int]));
        assert(name@.take(i + 1) =~= name@.take(i as int).push(name@[i as int]));
        i = i + 1;
    }
    assert(name@.take(i as int) =~= name@);
    true
}

} // verus!
