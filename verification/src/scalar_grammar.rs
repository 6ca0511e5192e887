//! The JSON grammar of numbers and literals, and the proof that the byte-wise
//! steps of [`crate::validator`] recognise exactly it.

use vstd::prelude::*;

use crate::validator::{
    NumberPhase, ScalarPhase, ScalarStep, false_word, first_step, is_digit, is_exp_mark, is_point,
    is_sign, literal_phase, null_word, number_complete, number_next, phase_complete, scalar_step,
    true_word,
};

verus! {

pub open spec fn all_digits(s: Seq<u8>) -> bool {
    forall|i: int| 0 <= i < s.len() ==> is_digit(#[trigger] s[i])
}

pub open spec fn is_minus(b: u8) -> bool {
    b == 0x2d  // -
}

/// `s` without a leading minus.
pub open spec fn magnitude(s: Seq<u8>) -> Seq<u8> {
    if s.len() > 0 && is_minus(s[0]) {
        s.skip(1)
    } else {
        s
    }
}

/// An optional minus, then a zero alone or digits that start with no zero.
pub open spec fn is_int_part(s: Seq<u8>) -> bool {
    let m = magnitude(s);
    m.len() > 0 && all_digits(m) && (m[0] == 0x30 ==> m.len() == 1)  // 0
}

/// Nothing, or a point and at least one digit.
pub open spec fn is_frac_part(s: Seq<u8>) -> bool {
    s.len() == 0 || (is_point(s[0]) && s.len() >= 2 && all_digits(s.skip(1)))
}

/// `s` without a leading sign.
pub open spec fn unsigned(s: Seq<u8>) -> Seq<u8> {
    if s.len() > 0 && is_sign(s[0]) {
        s.skip(1)
    } else {
        s
    }
}

/// Nothing, or an exponent mark, an optional sign and at least one digit.
pub open spec fn is_exp_part(s: Seq<u8>) -> bool {
    s.len() == 0 || (is_exp_mark(s[0]) && unsigned(s.skip(1)).len() > 0 && all_digits(
        unsigned(s.skip(1)),
    ))
}

/// `s` is an integer part up to `i` and a fraction part from there.
pub open spec fn splits_at(s: Seq<u8>, i: int) -> bool {
    0 <= i <= s.len() && is_int_part(s.take(i)) && is_frac_part(s.skip(i))
}

/// An integer part and a fraction part.
pub open spec fn is_mantissa(s: Seq<u8>) -> bool {
    exists|i: int| splits_at(s, i)
}

/// `s` is a mantissa up to `j` and an exponent part from there.
pub open spec fn exp_splits_at(s: Seq<u8>, j: int) -> bool {
    0 <= j <= s.len() && is_mantissa(s.take(j)) && is_exp_part(s.skip(j))
}

/// A JSON number: an integer part, a fraction part and an exponent part.
pub open spec fn is_json_number(s: Seq<u8>) -> bool {
    exists|j: int| exp_splits_at(s, j)
}

/// A JSON value that is neither a string nor a container.
pub open spec fn is_json_scalar(s: Seq<u8>) -> bool {
    s == true_word() || s == false_word() || s == null_word() || is_json_number(s)
}

/// The phase after reading `s` from the start of a value, or `None` where some
/// byte did not continue a scalar.
pub open spec fn scalar_run(s: Seq<u8>) -> Option<ScalarPhase>
    decreases s.len(),
{
    if s.len() == 0 {
        Some(ScalarPhase::BeforeValue)
    } else {
        match scalar_run(s.drop_last()) {
            Some(phase) => match scalar_step(phase, s.last()) {
                ScalarStep::Continue(next) => Some(next),
                _ => None,
            },
            None => None,
        }
    }
}

/// The byte strings that lead to each phase of a number.
spec fn number_prefix(phase: NumberPhase, s: Seq<u8>) -> bool {
    match phase {
        NumberPhase::IntFirst => s.len() == 1 && is_minus(s[0]),
        NumberPhase::IntRest { leading_zero } => is_int_part(s) && leading_zero == (magnitude(s)[0]
            == 0x30),  // 0
        NumberPhase::FracFirst => s.len() > 0 && is_int_part(s.drop_last()) && is_point(s.last()),
        NumberPhase::FracRest => exists|i: int| splits_at(s, i) && i < s.len(),
        NumberPhase::ExpSign => s.len() > 0 && is_mantissa(s.drop_last()) && is_exp_mark(s.last()),
        NumberPhase::ExpFirst => s.len() > 1 && is_sign(s.last()) && is_exp_mark(s[s.len() - 2])
            && is_mantissa(s.drop_last().drop_last()),
        NumberPhase::ExpRest => exists|j: int| exp_splits_at(s, j) && j < s.len(),
    }
}

/// The byte strings that lead to each phase of a scalar.
spec fn scalar_prefix(phase: ScalarPhase, s: Seq<u8>) -> bool {
    match phase {
        ScalarPhase::BeforeValue => s.len() == 0,
        ScalarPhase::True(n) => 0 < n < 4 && s == true_word().take(n as int),
        ScalarPhase::False(n) => 0 < n < 5 && s == false_word().take(n as int),
        ScalarPhase::Null(n) => 0 < n < 4 && s == null_word().take(n as int),
        ScalarPhase::Number(n) => number_prefix(n, s),
        ScalarPhase::LiteralDone => s == true_word() || s == false_word() || s == null_word(),
    }
}

proof fn int_part_grows(s: Seq<u8>)
    requires
        s.len() > 0,
        is_digit(s.last()),
    ensures
        is_int_part(s) <==> {
            ||| s.len() == 1
            ||| s.len() == 2 && is_minus(s[0])
            ||| is_int_part(s.drop_last()) && magnitude(s.drop_last())[0] != 0x30
        },
        is_int_part(s) && is_int_part(s.drop_last()) ==> magnitude(s)[0] == magnitude(
            s.drop_last(),
        )[0],
{
    let t = s.drop_last();
    let m = magnitude(s);
    if s.len() >= 2 {
        assert(s[0] == t[0]);
        assert(magnitude(t) =~= m.drop_last());
        if is_int_part(s) && m.len() >= 2 {
            assert(m.drop_last()[0] == m[0]);
            assert forall|i: int| 0 <= i < m.drop_last().len() implies is_digit(
                #[trigger] m.drop_last()[i],
            ) by {
                assert(is_digit(m[i]));
            }
        }
        if is_int_part(t) && magnitude(t)[0] != 0x30 {
            assert forall|i: int| 0 <= i < m.len() implies is_digit(#[trigger] m[i]) by {
                if i < m.len() - 1 {
                    assert(is_digit(magnitude(t)[i]));
                } else {
                    assert(m[i] == s.last());
                }
            }
            assert(m[0] == magnitude(t)[0]);
        }
    } else {
        assert(m =~= s);
    }
}

/// An integer part ends in a digit.
proof fn int_part_last(s: Seq<u8>)
    requires
        is_int_part(s),
    ensures
        s.len() > 0,
        is_digit(s.last()),
{
    let m = magnitude(s);
    assert(is_digit(m[m.len() - 1]));
    assert(m.last() == s.last());
}

proof fn frac_grows(s: Seq<u8>, i: int)
    requires
        0 <= i < s.len(),
    ensures
        splits_at(s, i) <==> {
            &&& is_digit(s.last())
            &&& i < s.len() - 1
            &&& is_int_part(s.take(i))
            &&& is_point(s[i])
            &&& i + 1 == s.len() - 1 || splits_at(s.drop_last(), i)
        },
{
    let f = s.skip(i);
    let t = s.drop_last();
    assert(f[0] == s[i]);
    if i < s.len() - 1 {
        let g = t.skip(i);
        assert(t.take(i) =~= s.take(i));
        assert(g[0] == f[0]);
        assert(f.skip(1).drop_last() =~= g.skip(1));
        assert(f.skip(1).last() == s.last());
        if splits_at(s, i) {
            assert(is_digit(f.skip(1)[f.skip(1).len() - 1]));
            assert forall|k: int| 0 <= k < g.skip(1).len() implies is_digit(
                #[trigger] g.skip(1)[k],
            ) by {
                assert(f.skip(1)[k] == g.skip(1)[k]);
            }
        }
        if is_digit(s.last()) && splits_at(t, i) && is_point(s[i]) {
            assert forall|k: int| 0 <= k < f.skip(1).len() implies is_digit(
                #[trigger] f.skip(1)[k],
            ) by {
                if k < f.skip(1).len() - 1 {
                    assert(f.skip(1)[k] == g.skip(1)[k]);
                }
            }
        }
        if is_digit(s.last()) && i + 1 == s.len() - 1 {
            assert(f.skip(1).len() == 1);
        }
    }
}

proof fn exp_grows(s: Seq<u8>, j: int)
    requires
        0 <= j < s.len(),
    ensures
        exp_splits_at(s, j) <==> {
            &&& is_digit(s.last())
            &&& is_mantissa(s.take(j))
            &&& j < s.len() - 1
            &&& is_exp_mark(s[j])
            &&& {
                ||| j + 2 == s.len()
                ||| j + 3 == s.len() && is_sign(s[j + 1])
                ||| exp_splits_at(s.drop_last(), j)
            }
        },
{
    let e = s.skip(j);
    let t = s.drop_last();
    assert(e[0] == s[j]);
    if j < s.len() - 1 {
        let g = t.skip(j);
        assert(t.take(j) =~= s.take(j));
        assert(g[0] == e[0]);
        assert(e.skip(1)[0] == s[j + 1]);
        let u = unsigned(e.skip(1));
        if u.len() > 0 {
            assert(u.last() == s.last());
        }
        if j + 2 < s.len() {
            assert(g.skip(1)[0] == s[j + 1]);
            assert(unsigned(g.skip(1)) =~= u.drop_last());
            if exp_splits_at(s, j) {
                assert(is_digit(u[u.len() - 1]));
                assert forall|k: int| 0 <= k < u.drop_last().len() implies is_digit(
                    #[trigger] u.drop_last()[k],
                ) by {
                    assert(is_digit(u[k]));
                }
            }
            if is_digit(s.last()) && exp_splits_at(t, j) && is_exp_mark(s[j]) {
                assert forall|k: int| 0 <= k < u.len() implies is_digit(#[trigger] u[k]) by {
                    if k < u.len() - 1 {
                        assert(u.drop_last()[k] == u[k]);
                    }
                }
            }
            if is_digit(s.last()) && j + 3 == s.len() && is_sign(s[j + 1]) {
                assert(u.len() == 1);
                assert(u[0] == s.last());
            }
        } else {
            assert(e.skip(1).len() == 1);
            if exp_splits_at(s, j) {
                assert(is_digit(u[0]));
            }
            if is_digit(s.last()) {
                assert(u =~= e.skip(1));
                assert(u[0] == s.last());
            }
        }
    } else {
        assert(e.skip(1).len() == 0);
    }
}

/// A mantissa leads to a phase from which an exponent may start, and to no other
/// kind of phase.
proof fn mantissa_phases(s: Seq<u8>)
    ensures
        is_mantissa(s) <==> (exists|z: bool|
            #[trigger] number_prefix(NumberPhase::IntRest { leading_zero: z }, s))
            || number_prefix(NumberPhase::FracRest, s),
{
    if is_mantissa(s) {
        let i = choose|i: int| splits_at(s, i);
        if i == s.len() {
            assert(s.take(i) =~= s);
            let z = magnitude(s)[0] == 0x30;
            assert(number_prefix(NumberPhase::IntRest { leading_zero: z }, s));
        }
    }
    if exists|z: bool| #[trigger] number_prefix(NumberPhase::IntRest { leading_zero: z }, s) {
        assert(s.take(s.len() as int) =~= s);
        assert(splits_at(s, s.len() as int));
    }
}

/// The last byte of `s` leads to `next`, from the start of a value or from a
/// phase that the bytes before it lead to.
spec fn number_steps_to(s: Seq<u8>, next: NumberPhase) -> bool {
    ||| s.len() == 1 && first_step(s[0]) == ScalarStep::Continue(ScalarPhase::Number(next))
    ||| exists|p: NumberPhase| #[trigger]
        number_prefix(p, s.drop_last()) && number_next(p, s.last()) == Some(next)
}

/// The phase at which a number stands is read off its prefix, step by step.
#[verifier::rlimit(40)]
proof fn number_prefix_step(s: Seq<u8>, next: NumberPhase)
    requires
        s.len() > 0,
    ensures
        number_prefix(next, s) <==> number_steps_to(s, next),
{
    let t = s.drop_last();
    let b = s.last();
    if s.len() == 1 {
        assert(s[0] == b);
        assert(t.len() == 0);
        assert(magnitude(t).len() == 0);
        assert forall|p: NumberPhase| !#[trigger] number_prefix(p, t) by {
            if number_prefix(NumberPhase::FracRest, t) {
            }
            if number_prefix(NumberPhase::ExpRest, t) {
            }
        }
    }
    match next {
        NumberPhase::IntFirst => {
            assert forall|p: NumberPhase| number_next(p, b) != Some(next) by {}
            if number_prefix(next, s) {
                assert(s.len() == 1 && b == 0x2d);
                assert(first_step(s[0]) == ScalarStep::Continue(ScalarPhase::Number(next)));
            }
            assert(number_prefix(next, s) ==> number_steps_to(s, next));
            assert(number_steps_to(s, next) ==> number_prefix(next, s));
        },
        NumberPhase::IntRest { leading_zero } => {
            if number_prefix(next, s) {
                int_part_last(s);
            }
            if is_digit(b) {
                int_part_grows(s);
                assert(s.len() == 1 ==> magnitude(s) =~= s);
                assert(s.len() == 2 && is_minus(s[0]) ==> magnitude(s)[0] == b);
                if number_prefix(next, s) && s.len() > 1 {
                    if s.len() == 2 && is_minus(s[0]) {
                        assert(number_prefix(NumberPhase::IntFirst, t));
                    } else {
                        assert(number_prefix(NumberPhase::IntRest { leading_zero: false }, t));
                    }
                }
                if number_prefix(NumberPhase::IntFirst, t) {
                    assert(s[0] == t[0]);
                }
            }
            assert(number_prefix(next, s) ==> number_steps_to(s, next));
            assert(number_steps_to(s, next) ==> number_prefix(next, s));
        },
        NumberPhase::FracFirst => {
            if number_prefix(next, s) {
                let z = magnitude(t)[0] == 0x30;
                assert(number_prefix(NumberPhase::IntRest { leading_zero: z }, t));
            }
            assert(number_prefix(next, s) ==> number_steps_to(s, next));
            assert(number_steps_to(s, next) ==> number_prefix(next, s));
        },
        NumberPhase::FracRest => {
            if number_prefix(next, s) {
                let i = choose|i: int| splits_at(s, i) && i < s.len();
                frac_grows(s, i);
                if i + 1 == s.len() - 1 {
                    assert(t.drop_last() =~= s.take(i));
                    assert(t.last() == s[i]);
                    assert(number_prefix(NumberPhase::FracFirst, t));
                } else {
                    assert(number_prefix(NumberPhase::FracRest, t));
                }
            }
            if is_digit(b) && number_prefix(NumberPhase::FracFirst, t) {
                let i = s.len() - 2;
                frac_grows(s, i);
                assert(t.drop_last() =~= s.take(i));
                assert(t.last() == s[i]);
            }
            if is_digit(b) && number_prefix(NumberPhase::FracRest, t) {
                let i = choose|i: int| splits_at(t, i) && i < t.len();
                frac_grows(s, i);
                assert(t.take(i) =~= s.take(i));
                assert(t.skip(i)[0] == s[i]);
            }
            assert(number_prefix(next, s) ==> number_steps_to(s, next));
            assert(number_steps_to(s, next) ==> number_prefix(next, s));
        },
        NumberPhase::ExpSign => {
            mantissa_phases(t);
            assert(number_prefix(next, s) ==> number_steps_to(s, next));
            assert(number_steps_to(s, next) ==> number_prefix(next, s));
        },
        NumberPhase::ExpFirst => {
            if s.len() > 1 {
                assert(s[s.len() - 2] == t.last());
            }
            if number_prefix(next, s) {
                assert(number_prefix(NumberPhase::ExpSign, t));
            }
            assert(number_prefix(next, s) ==> number_steps_to(s, next));
            assert(number_steps_to(s, next) ==> number_prefix(next, s));
        },
        NumberPhase::ExpRest => {
            if number_prefix(next, s) {
                let j = choose|j: int| exp_splits_at(s, j) && j < s.len();
                exp_grows(s, j);
                if j + 2 == s.len() {
                    assert(t.drop_last() =~= s.take(j));
                    assert(number_prefix(NumberPhase::ExpSign, t));
                } else if j + 3 == s.len() && is_sign(s[j + 1]) {
                    assert(t.drop_last().drop_last() =~= s.take(j));
                    assert(number_prefix(NumberPhase::ExpFirst, t));
                } else {
                    assert(number_prefix(NumberPhase::ExpRest, t));
                }
            }
            if is_digit(b) && number_prefix(NumberPhase::ExpSign, t) {
                let j = s.len() - 2;
                exp_grows(s, j);
                assert(t.drop_last() =~= s.take(j));
            }
            if is_digit(b) && number_prefix(NumberPhase::ExpFirst, t) {
                let j = s.len() - 3;
                exp_grows(s, j);
                assert(t.drop_last().drop_last() =~= s.take(j));
            }
            if is_digit(b) && number_prefix(NumberPhase::ExpRest, t) {
                let j = choose|j: int| exp_splits_at(t, j) && j < t.len();
                exp_grows(s, j);
                assert(t.take(j) =~= s.take(j));
                assert(t.skip(j)[0] == s[j]);
            }
        },
    }
}

/// Reading `s` leads to `phase` exactly where `s` is one of the phase's byte
/// strings.
proof fn run_is_prefix(s: Seq<u8>, phase: ScalarPhase)
    ensures
        scalar_run(s) == Some(phase) <==> scalar_prefix(phase, s),
    decreases s.len(),
{
    if s.len() == 0 {
        assert(magnitude(s).len() == 0);
        if scalar_prefix(phase, s) {
        }
    } else {
        let t = s.drop_last();
        let b = s.last();
        assert forall|p: ScalarPhase|
            scalar_run(t) == Some(p) <==> #[trigger] scalar_prefix(p, t) by {
            run_is_prefix(t, p);
        }
        match phase {
            ScalarPhase::BeforeValue => {
                if scalar_run(s) == Some(phase) {
                    let p = scalar_run(t)->Some_0;
                    assert(scalar_step(p, b) == ScalarStep::Continue(phase));
                }
            },
            ScalarPhase::Number(next) => {
                number_prefix_step(s, next);
                if scalar_prefix(phase, s) {
                    if s.len() == 1 && first_step(s[0]) == ScalarStep::Continue(phase) {
                        assert(scalar_prefix(ScalarPhase::BeforeValue, t));
                    } else {
                        let p = choose|p: NumberPhase| #[trigger]
                            number_prefix(p, t) && number_next(p, b) == Some(next);
                        assert(scalar_prefix(ScalarPhase::Number(p), t));
                    }
                }
                if scalar_run(s) == Some(phase) {
                    let p = scalar_run(t)->Some_0;
                    assert(scalar_prefix(p, t));
                    match p {
                        ScalarPhase::BeforeValue => {
                            assert(s.len() == 1);
                        },
                        ScalarPhase::Number(q) => {
                            assert(number_prefix(q, t));
                        },
                        _ => {},
                    }
                }
            },
            _ => {
                literal_run(s, phase);
            },
        }
    }
}

/// The literal half of [`run_is_prefix`].
proof fn literal_run(s: Seq<u8>, phase: ScalarPhase)
    requires
        s.len() > 0,
        !(phase is Number),
        !(phase is BeforeValue),
        forall|p: ScalarPhase|
            scalar_run(s.drop_last()) == Some(p) <==> #[trigger] scalar_prefix(p, s.drop_last()),
    ensures
        scalar_run(s) == Some(phase) <==> scalar_prefix(phase, s),
{
    let t = s.drop_last();
    let b = s.last();
    assert(s =~= t.push(b));
    if scalar_prefix(phase, s) {
        let (word, n) = match phase {
            ScalarPhase::True(n) => (true_word(), n as int),
            ScalarPhase::False(n) => (false_word(), n as int),
            ScalarPhase::Null(n) => (null_word(), n as int),
            _ => (s, s.len() as int),
        };
        assert(s =~= word.take(n));
        assert(t =~= word.take(n - 1));
        assert(b == word[n - 1]);
        let m = (n - 1) as u8;
        if n == 1 {
            assert(scalar_prefix(ScalarPhase::BeforeValue, t));
        } else {
            assert(scalar_prefix(literal_phase(word[0], m), t));
        }
    }
    if scalar_run(s) == Some(phase) {
        let p = scalar_run(t)->Some_0;
        assert(scalar_prefix(p, t));
        let (word, n) = match p {
            ScalarPhase::True(n) => (true_word(), n as int),
            ScalarPhase::False(n) => (false_word(), n as int),
            ScalarPhase::Null(n) => (null_word(), n as int),
            _ => (s, 0),
        };
        match p {
            ScalarPhase::BeforeValue => {
                assert(t.len() == 0);
                assert(true_word().take(1) =~= seq![0x74u8]);
                assert(false_word().take(1) =~= seq![0x66u8]);
                assert(null_word().take(1) =~= seq![0x6eu8]);
                assert(s =~= seq![b]);
            },
            ScalarPhase::True(_) | ScalarPhase::False(_) | ScalarPhase::Null(_) => {
                assert(s =~= word.take(n + 1));
                if n + 1 == word.len() {
                    assert(word.take(n + 1) =~= word);
                }
            },
            _ => {},
        }
    }
}

/// The phases at which a number may end are those of the JSON numbers.
proof fn complete_numbers(s: Seq<u8>)
    ensures
        is_json_number(s) <==> exists|n: NumberPhase| #[trigger]
            number_prefix(n, s) && number_complete(n),
{
    mantissa_phases(s);
    if is_json_number(s) {
        let j = choose|j: int| exp_splits_at(s, j);
        if j < s.len() {
            assert(number_prefix(NumberPhase::ExpRest, s));
        } else {
            assert(s.take(j) =~= s);
        }
    }
    if exists|n: NumberPhase| #[trigger] number_prefix(n, s) && number_complete(n) {
        let n = choose|n: NumberPhase| #[trigger] number_prefix(n, s) && number_complete(n);
        if n is ExpRest {
            let j = choose|j: int| exp_splits_at(s, j) && j < s.len();
            assert(exp_splits_at(s, j));
        } else {
            assert(s.take(s.len() as int) =~= s);
            assert(s.skip(s.len() as int).len() == 0);
            match n {
                NumberPhase::IntRest { leading_zero } => {
                    assert(number_prefix(NumberPhase::IntRest { leading_zero }, s));
                },
                _ => {},
            }
            assert(is_mantissa(s));
            assert(exp_splits_at(s, s.len() as int));
        }
    }
}

/// Reading a byte string ends in a complete phase exactly where the string is a
/// JSON number or literal.
pub proof fn accepted_scalars_are_json(s: Seq<u8>)
    ensures
        (scalar_run(s) is Some && phase_complete(scalar_run(s)->Some_0)) <==> is_json_scalar(s),
{
    complete_numbers(s);
    if scalar_run(s) is Some {
        let phase = scalar_run(s)->Some_0;
        run_is_prefix(s, phase);
        match phase {
            ScalarPhase::Number(n) => {
                assert(number_prefix(n, s));
            },
            _ => {},
        }
    }
    if is_json_number(s) {
        let n = choose|n: NumberPhase| #[trigger] number_prefix(n, s) && number_complete(n);
        run_is_prefix(s, ScalarPhase::Number(n));
    } else if is_json_scalar(s) {
        run_is_prefix(s, ScalarPhase::LiteralDone);
    }
}

/// A byte that does not continue a complete value belongs to the parent, and a
/// value that is not complete never ends.
pub proof fn done_exactly_where_complete(phase: ScalarPhase, b: u8)
    ensures
        scalar_step(phase, b) is Done ==> phase_complete(phase),
        phase_complete(phase) ==> !(scalar_step(phase, b) is Invalid),
{
}

/// The bytes that complete a scalar at `phase`.
pub open spec fn completion(phase: ScalarPhase) -> Seq<u8> {
    match phase {
        ScalarPhase::BeforeValue => seq![0x30],  // 0
        ScalarPhase::True(n) => true_word().skip(n as int),
        ScalarPhase::False(n) => false_word().skip(n as int),
        ScalarPhase::Null(n) => null_word().skip(n as int),
        ScalarPhase::Number(n) => if number_complete(n) {
            seq![]
        } else {
            seq![0x30]  // 0
        },
        ScalarPhase::LiteralDone => seq![],
    }
}

proof fn run_append(s: Seq<u8>, b: u8)
    ensures
        scalar_run(s.push(b)) == match scalar_run(s) {
            Some(phase) => match scalar_step(phase, b) {
                ScalarStep::Continue(next) => Some(next),
                _ => None,
            },
            None => None,
        },
{
    assert(s.push(b).drop_last() =~= s);
}

proof fn literal_completes(s: Seq<u8>, word: Seq<u8>, n: int)
    requires
        word == true_word() || word == false_word() || word == null_word(),
        0 < n < word.len(),
        s == word.take(n),
    ensures
        s + word.skip(n) == word,
{
    assert(s + word.skip(n) =~= word);
}

/// No byte string that the steps have accepted so far is a dead end: some
/// continuation makes it a JSON scalar.
pub proof fn every_phase_can_be_completed(s: Seq<u8>)
    requires
        scalar_run(s) is Some,
    ensures
        is_json_scalar(s + completion(scalar_run(s)->Some_0)),
{
    let phase = scalar_run(s)->Some_0;
    run_is_prefix(s, phase);
    assert(s + Seq::<u8>::empty() =~= s);
    match phase {
        ScalarPhase::True(n) => literal_completes(s, true_word(), n as int),
        ScalarPhase::False(n) => literal_completes(s, false_word(), n as int),
        ScalarPhase::Null(n) => literal_completes(s, null_word(), n as int),
        ScalarPhase::LiteralDone => {},
        _ => {
            if !phase_complete(phase) {
                assert(s + seq![0x30u8] =~= s.push(0x30));
                run_append(s, 0x30);
                accepted_scalars_are_json(s.push(0x30));
            } else {
                accepted_scalars_are_json(s);
            }
        },
    }
}

/// Each phase says what was read: nothing; so many bytes of a literal; a whole literal; a minus
/// sign; the digits of an integer part, and whether they are a single zero; or a number up to its
/// point, its exponent mark, the sign behind that, or the digits behind either.
pub proof fn phases_say_what_was_read(s: Seq<u8>)
    requires
        scalar_run(s) is Some,
    ensures
        ({
            let n = s.len() as int;
            match scalar_run(s)->Some_0 {
                ScalarPhase::BeforeValue => n == 0,
                ScalarPhase::True(k) => n == k && 0 < k < 4 && s == seq![
                    0x74u8,
                    0x72u8,
                    0x75u8,
                    0x65u8,
                ].take(n),
                ScalarPhase::False(k) => n == k && 0 < k < 5 && s == seq![
                    0x66u8,
                    0x61u8,
                    0x6cu8,
                    0x73u8,
                    0x65u8,
                ].take(n),
                ScalarPhase::Null(k) => n == k && 0 < k < 4 && s == seq![
                    0x6eu8,
                    0x75u8,
                    0x6cu8,
                    0x6cu8,
                ].take(n),
                ScalarPhase::LiteralDone => s == seq![0x74u8, 0x72u8, 0x75u8, 0x65u8] || s == seq![
                    0x66u8,
                    0x61u8,
                    0x6cu8,
                    0x73u8,
                    0x65u8,
                ] || s == seq![0x6eu8, 0x75u8, 0x6cu8, 0x6cu8],
                ScalarPhase::Number(NumberPhase::IntFirst) => s == seq![0x2du8],
                ScalarPhase::Number(NumberPhase::IntRest { leading_zero }) => {
                    let a: int = if s[0] == 0x2d {
                        1
                    } else {
                        0
                    };
                    &&& a < n
                    &&& forall|i: int| a <= i < n ==> 0x30 <= #[trigger] s[i] <= 0x39
                    &&& leading_zero <==> s[a] == 0x30
                    &&& leading_zero ==> n == a + 1
                },
                ScalarPhase::Number(NumberPhase::FracFirst) => n > 0 && s[n - 1] == 0x2e,
                ScalarPhase::Number(NumberPhase::ExpSign) => n > 0 && (s[n - 1] == 0x65 || s[n - 1]
                    == 0x45),
                ScalarPhase::Number(NumberPhase::ExpFirst) => n > 0 && (s[n - 1] == 0x2b || s[n - 1]
                    == 0x2d),
                ScalarPhase::Number(NumberPhase::FracRest) => n > 0 && 0x30 <= s[n - 1] <= 0x39
                    && (exists|i: int| 0 <= i < n && #[trigger] s[i] == 0x2e) && (forall|i: int|
                    0 <= i < n ==> #[trigger] s[i] != 0x65 && s[i] != 0x45),
                ScalarPhase::Number(NumberPhase::ExpRest) => n > 0 && 0x30 <= s[n - 1] <= 0x39 && (
                exists|i: int| 0 <= i < n && (#[trigger] s[i] == 0x65 || s[i] == 0x45)),
            }
        }),
{
    let phase = scalar_run(s)->Some_0;
    run_is_prefix(s, phase);
    assert(true_word() =~= seq![0x74u8, 0x72u8, 0x75u8, 0x65u8]);
    assert(false_word() =~= seq![0x66u8, 0x61u8, 0x6cu8, 0x73u8, 0x65u8]);
    assert(null_word() =~= seq![0x6eu8, 0x75u8, 0x6cu8, 0x6cu8]);
    match phase {
        ScalarPhase::Number(NumberPhase::IntFirst) => {
            assert(s =~= seq![0x2du8]);
        },
        ScalarPhase::Number(NumberPhase::IntRest { leading_zero }) => {
            let a: int = if s[0] == 0x2d {
                1
            } else {
                0
            };
            let m = magnitude(s);
            assert(m =~= s.skip(a));
            assert forall|i: int| a <= i < s.len() implies 0x30 <= #[trigger] s[i] <= 0x39 by {
                assert(m[i - a] == s[i]);
                assert(is_digit(m[i - a]));
            }
            assert(m[0] == s[a]);
        },
        ScalarPhase::Number(NumberPhase::FracRest) => {
            let i = choose|i: int| splits_at(s, i) && i < s.len();
            let frac = s.skip(i);
            let whole = s.take(i);
            let m = magnitude(whole);
            assert(frac[0] == s[i]);
            assert(s[i] == 0x2e);
            assert forall|k: int| 0 <= k < s.len() implies #[trigger] s[k] != 0x65 && s[k]
                != 0x45 by {
                if k > i {
                    assert(frac.skip(1)[k - i - 1] == s[k]);
                    assert(is_digit(frac.skip(1)[k - i - 1]));
                } else if k < i {
                    assert(whole[k] == s[k]);
                    if !is_minus(whole[0]) {
                        assert(is_digit(m[k]));
                    } else if k > 0 {
                        assert(m[k - 1] == s[k]);
                        assert(is_digit(m[k - 1]));
                    }
                }
            }
            frac_grows(s, i);
        },
        ScalarPhase::Number(NumberPhase::ExpRest) => {
            let j = choose|j: int| exp_splits_at(s, j) && j < s.len();
            exp_grows(s, j);
            assert(s[j] == 0x65 || s[j] == 0x45);
        },
        _ => {},
    }
}

} // verus!
