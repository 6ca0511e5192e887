//! Which bytes open a value, and which byte strings are read as one, said of the bytes themselves.

use vstd::prelude::*;

use crate::scalar_grammar::{
    accepted_scalars_are_json, completion, done_exactly_where_complete,
    every_phase_can_be_completed, exp_splits_at, is_int_part, is_json_number, is_mantissa,
    magnitude, scalar_run, splits_at, unsigned,
};
use crate::validator::{
    NumberPhase, ScalarPhase, ScalarStep, false_word, is_digit, is_sign, literal_step, null_word,
    phase_complete, scalar_step, true_word,
};

verus! {

/// At the start of a value the byte 0x22 opens a string, 0x5b an array and 0x7b an object, and no
/// other byte and no later byte opens one.
pub proof fn opening_bytes(phase: ScalarPhase, b: u8)
    ensures
        scalar_step(phase, b) is StartString <==> phase is BeforeValue && b == 0x22,
        scalar_step(phase, b) is StartArray <==> phase is BeforeValue && b == 0x5b,
        scalar_step(phase, b) is StartObject <==> phase is BeforeValue && b == 0x7b,
{
}

/// At the start of a value the byte either opens a string or a container, or is the first byte of
/// a literal or of a number, or is refused; the value never ends there.
pub proof fn first_bytes(b: u8)
    ensures
        scalar_step(ScalarPhase::BeforeValue, b) is Continue <==> (b == 0x74 || b == 0x66 || b
            == 0x6e || b == 0x2d || 0x30 <= b <= 0x39),
        !(scalar_step(ScalarPhase::BeforeValue, b) is Done),
{
}

/// `s` holds digits from `i` to `j` only, and at least one.
pub open spec fn digits_between(s: Seq<u8>, i: int, j: int) -> bool {
    0 <= i < j <= s.len() && forall|k: int| i <= k < j ==> 0x30 <= #[trigger] s[k] <= 0x39
}

/// `s` is a number in JSON's sense whose digits before the point lie from `a` to `i`, whose
/// fraction lies from there to `j` and whose exponent lies from there to the end.
pub open spec fn number_cut_at(s: Seq<u8>, a: int, i: int, j: int) -> bool {
    &&& a == if s.len() > 0 && s[0] == 0x2d {
        1int
    } else {
        0int
    }
    &&& digits_between(s, a, i)
    &&& s[a] == 0x30 ==> i == a + 1
    &&& i == j || (i < j <= s.len() && s[i] == 0x2e && digits_between(s, i + 1, j))
    &&& j == s.len() || {
        &&& j < s.len()
        &&& s[j] == 0x65 || s[j] == 0x45
        &&& {
            ||| digits_between(s, j + 1, s.len() as int)
            ||| j + 1 < s.len() && (s[j + 1] == 0x2b || s[j + 1] == 0x2d) && digits_between(
                s,
                j + 2,
                s.len() as int,
            )
        }
    }
}

/// `s` is a number in JSON's sense, or `true`, `false` or `null`, byte for byte.
pub open spec fn is_scalar_text(s: Seq<u8>) -> bool {
    ||| s == seq![0x74u8, 0x72u8, 0x75u8, 0x65u8]
    ||| s == seq![0x66u8, 0x61u8, 0x6cu8, 0x73u8, 0x65u8]
    ||| s == seq![0x6eu8, 0x75u8, 0x6cu8, 0x6cu8]
    ||| exists|a: int, i: int, j: int| #[trigger] number_cut_at(s, a, i, j)
}

proof fn cut_is_number(s: Seq<u8>, a: int, i: int, j: int)
    requires
        number_cut_at(s, a, i, j),
    ensures
        is_json_number(s),
{
    let whole = s.take(i);
    let m = magnitude(whole);
    assert(m =~= s.subrange(a, i));
    assert forall|k: int| 0 <= k < m.len() implies is_digit(#[trigger] m[k]) by {
        assert(m[k] == s[a + k]);
    }
    assert(is_int_part(whole));
    let front = s.take(j);
    assert(front.take(i) =~= whole);
    let frac = front.skip(i);
    if i < j {
        assert(frac[0] == s[i]);
        assert forall|k: int| 0 <= k < frac.skip(1).len() implies is_digit(
            #[trigger] frac.skip(1)[k],
        ) by {
            assert(frac.skip(1)[k] == s[i + 1 + k]);
        }
    }
    assert(splits_at(front, i));
    assert(is_mantissa(front));
    let exp = s.skip(j);
    if j < s.len() {
        assert(exp[0] == s[j]);
        let rest = exp.skip(1);
        assert(rest =~= s.skip(j + 1));
        if digits_between(s, j + 1, s.len() as int) {
            assert(rest[0] == s[j + 1]);
            assert forall|k: int| 0 <= k < unsigned(rest).len() implies is_digit(
                #[trigger] unsigned(rest)[k],
            ) by {
                assert(unsigned(rest) == rest);
                assert(rest[k] == s[j + 1 + k]);
            }
        } else {
            assert(rest[0] == s[j + 1]);
            assert(unsigned(rest) =~= s.skip(j + 2));
            assert forall|k: int| 0 <= k < unsigned(rest).len() implies is_digit(
                #[trigger] unsigned(rest)[k],
            ) by {
                assert(unsigned(rest)[k] == s[j + 2 + k]);
            }
        }
    }
    assert(exp_splits_at(s, j));
}

proof fn number_has_cut(s: Seq<u8>)
    requires
        is_json_number(s),
    ensures
        exists|a: int, i: int, j: int| #[trigger] number_cut_at(s, a, i, j),
{
    let j = choose|j: int| exp_splits_at(s, j);
    let front = s.take(j);
    let i = choose|i: int| splits_at(front, i);
    let whole = front.take(i);
    assert(whole =~= s.take(i));
    let m = magnitude(whole);
    let a = if s.len() > 0 && s[0] == 0x2d {
        1int
    } else {
        0int
    };
    assert(whole.len() > 0 && m.len() > 0);
    assert(whole[0] == s[0]);
    assert(m =~= s.subrange(a, i));
    assert forall|k: int| a <= k < i implies 0x30 <= #[trigger] s[k] <= 0x39 by {
        assert(m[k - a] == s[k]);
        assert(is_digit(m[k - a]));
    }
    assert(m[0] == s[a]);
    let frac = front.skip(i);
    if i < j {
        assert(frac[0] == s[i]);
        assert forall|k: int| i + 1 <= k < j implies 0x30 <= #[trigger] s[k] <= 0x39 by {
            assert(frac.skip(1)[k - i - 1] == s[k]);
            assert(is_digit(frac.skip(1)[k - i - 1]));
        }
    }
    let exp = s.skip(j);
    if j < s.len() {
        assert(exp[0] == s[j]);
        let rest = exp.skip(1);
        let digits = unsigned(rest);
        assert(rest =~= s.skip(j + 1));
        assert(rest.len() > 0);
        assert(rest[0] == s[j + 1]);
        if is_sign(rest[0]) {
            assert(digits =~= s.skip(j + 2));
            assert forall|k: int| j + 2 <= k < s.len() implies 0x30 <= #[trigger] s[k] <= 0x39 by {
                assert(digits[k - j - 2] == s[k]);
                assert(is_digit(digits[k - j - 2]));
            }
        } else {
            assert forall|k: int| j + 1 <= k < s.len() implies 0x30 <= #[trigger] s[k] <= 0x39 by {
                assert(digits[k - j - 1] == s[k]);
                assert(is_digit(digits[k - j - 1]));
            }
        }
    }
    assert(number_cut_at(s, a, i, j));
}

/// Reading byte by byte ends where a value may end exactly for the texts of JSON's numbers and
/// literals.
pub proof fn complete_scalars_are_the_texts(s: Seq<u8>)
    ensures
        (scalar_run(s) is Some && phase_complete(scalar_run(s)->Some_0)) <==> is_scalar_text(s),
{
    accepted_scalars_are_json(s);
    if is_json_number(s) {
        number_has_cut(s);
    }
    if exists|a: int, i: int, j: int| #[trigger] number_cut_at(s, a, i, j) {
        let (a, i, j) = choose|a: int, i: int, j: int| #[trigger] number_cut_at(s, a, i, j);
        cut_is_number(s, a, i, j);
    }
    assert(true_word() =~= seq![0x74u8, 0x72u8, 0x75u8, 0x65u8]);
    assert(false_word() =~= seq![0x66u8, 0x61u8, 0x6cu8, 0x73u8, 0x65u8]);
    assert(null_word() =~= seq![0x6eu8, 0x75u8, 0x6cu8, 0x6cu8]);
}

proof fn runs_of_prefixes(s: Seq<u8>, n: int)
    requires
        0 <= n <= s.len(),
        scalar_run(s) is Some,
    ensures
        scalar_run(s.take(n)) is Some,
    decreases s.len() - n,
{
    if n < s.len() {
        runs_of_prefixes(s, n + 1);
        assert(s.take(n + 1).drop_last() =~= s.take(n));
    } else {
        assert(s.take(n) =~= s);
    }
}

/// Reading goes on exactly as long as what was read is the beginning of some text of a number or
/// a literal, so no byte is refused too early and none is let through too long.
pub proof fn readable_is_a_beginning(s: Seq<u8>)
    ensures
        scalar_run(s) is Some <==> exists|t: Seq<u8>|
            #[trigger] is_scalar_text(t) && s.len() <= t.len() && t.take(s.len() as int) == s,
{
    if scalar_run(s) is Some {
        every_phase_can_be_completed(s);
        let t = s + completion(scalar_run(s)->Some_0);
        accepted_scalars_are_json(t);
        complete_scalars_are_the_texts(t);
        assert(t.take(s.len() as int) =~= s);
    }
    if exists|t: Seq<u8>|
        #[trigger] is_scalar_text(t) && s.len() <= t.len() && t.take(s.len() as int) == s {
        let t = choose|t: Seq<u8>|
            #[trigger] is_scalar_text(t) && s.len() <= t.len() && t.take(s.len() as int) == s;
        complete_scalars_are_the_texts(t);
        runs_of_prefixes(t, s.len() as int);
    }
}

/// What the next byte does after `s` was read: it continues exactly where the longer string can
/// still be read. Where it does not, the byte belongs to the parent if `s` is the text of a number
/// or a literal; else it opens a string or a container, at the very start, or is refused.
pub proof fn next_bytes_are_decided_by_the_texts(s: Seq<u8>, b: u8)
    requires
        scalar_run(s) is Some,
    ensures
        ({
            let step = scalar_step(scalar_run(s)->Some_0, b);
            let goes_on = exists|t: Seq<u8>| #[trigger]
                is_scalar_text(t) && s.len() < t.len() && t.take(s.len() as int + 1) == s.push(b);
            &&& step is Continue <==> goes_on
            &&& step is Done <==> !goes_on && is_scalar_text(s)
            &&& step is Invalid <==> {
                &&& !goes_on
                &&& !is_scalar_text(s)
                &&& !(s.len() == 0 && (b == 0x22 || b == 0x5b || b == 0x7b))
            }
        }),
{
    let phase = scalar_run(s)->Some_0;
    let more = s.push(b);
    assert(more.drop_last() =~= s);
    assert(more.last() == b);
    readable_is_a_beginning(more);
    complete_scalars_are_the_texts(s);
    done_exactly_where_complete(phase, b);
    opening_bytes(phase, b);
    only_the_empty_run_is_before_a_value(s);
    if exists|t: Seq<u8>| #[trigger]
        is_scalar_text(t) && s.len() < t.len() && t.take(s.len() as int + 1) == s.push(b) {
        let t = choose|t: Seq<u8>| #[trigger]
            is_scalar_text(t) && s.len() < t.len() && t.take(s.len() as int + 1) == s.push(b);
        assert(is_scalar_text(t) && more.len() <= t.len() && t.take(more.len() as int) == more);
    }
    if scalar_run(more) is Some {
        let t = choose|t: Seq<u8>|
            #[trigger] is_scalar_text(t) && more.len() <= t.len() && t.take(more.len() as int)
                == more;
        assert(is_scalar_text(t) && s.len() < t.len() && t.take(s.len() as int + 1) == s.push(b));
    }
}

proof fn only_the_empty_run_is_before_a_value(s: Seq<u8>)
    ensures
        scalar_run(s) == Some(ScalarPhase::BeforeValue) <==> s.len() == 0,
{
    if s.len() > 0 {
        if scalar_run(s.drop_last()) is Some {
            let phase = scalar_run(s.drop_last())->Some_0;
            match scalar_step(phase, s.last()) {
                ScalarStep::Continue(next) => {
                    assert(!(next is BeforeValue));
                },
                _ => {},
            }
        }
    }
}

/// A literal goes on by exactly its next byte: behind the last one it is whole, and before that one
/// more byte has been read. No other byte, and no byte behind its end, is let through.
pub proof fn literals_go_on_byte_by_byte(word: Seq<u8>, matched: u8, b: u8)
    requires
        word.len() <= 255,
    ensures
        literal_step(word, matched, b) is Continue <==> matched < word.len() && word[matched as int]
            == b,
        !(literal_step(word, matched, b) is Continue) ==> literal_step(word, matched, b) is Invalid,
        literal_step(word, matched, b) == ScalarStep::Continue(ScalarPhase::LiteralDone)
            <==> matched + 1 == word.len() && word[matched as int] == b,
        matched + 1 < word.len() && word[matched as int] == b && word[0] == 0x74 ==> literal_step(
            word,
            matched,
            b,
        ) == ScalarStep::Continue(ScalarPhase::True((matched + 1) as u8)),
        matched + 1 < word.len() && word[matched as int] == b && word[0] == 0x66 ==> literal_step(
            word,
            matched,
            b,
        ) == ScalarStep::Continue(ScalarPhase::False((matched + 1) as u8)),
        matched + 1 < word.len() && word[matched as int] == b && word[0] != 0x74 && word[0] != 0x66
            ==> literal_step(word, matched, b) == ScalarStep::Continue(
            ScalarPhase::Null((matched + 1) as u8),
        ),
{
}

/// The phases of the three literals go on by the bytes of `true`, `false` and `null`, whatever
/// number of them is said to have been read; and behind a whole literal every byte is the parent's.
pub proof fn literal_phases_spell_their_words(n: u8, b: u8)
    ensures
        scalar_step(ScalarPhase::True(n), b) == literal_step(
            seq![0x74u8, 0x72u8, 0x75u8, 0x65u8],
            n,
            b,
        ),
        scalar_step(ScalarPhase::False(n), b) == literal_step(
            seq![0x66u8, 0x61u8, 0x6cu8, 0x73u8, 0x65u8],
            n,
            b,
        ),
        scalar_step(ScalarPhase::Null(n), b) == literal_step(
            seq![0x6eu8, 0x75u8, 0x6cu8, 0x6cu8],
            n,
            b,
        ),
        scalar_step(ScalarPhase::LiteralDone, b) is Done,
{
    assert(true_word() =~= seq![0x74u8, 0x72u8, 0x75u8, 0x65u8]);
    assert(false_word() =~= seq![0x66u8, 0x61u8, 0x6cu8, 0x73u8, 0x65u8]);
    assert(null_word() =~= seq![0x6eu8, 0x75u8, 0x6cu8, 0x6cu8]);
}

/// A value may end behind a whole literal and behind the digits of any part of a number, and
/// nowhere else.
pub proof fn where_values_may_end(phase: ScalarPhase)
    ensures
        phase_complete(phase) <==> match phase {
            ScalarPhase::LiteralDone => true,
            ScalarPhase::Number(NumberPhase::IntRest { .. }) => true,
            ScalarPhase::Number(NumberPhase::FracRest) => true,
            ScalarPhase::Number(NumberPhase::ExpRest) => true,
            _ => false,
        },
{
}

} // verus!
