//! JSON scalar syntax, one byte at a time.

use vstd::prelude::*;

verus! {

/// JSON number syntax, tracked without buffering the digits: only the shape needed to know
/// which bytes may follow and whether the number is complete right now.
#[derive(Clone, Copy, PartialEq, Eq, Debug, Structural)]
pub enum NumberPhase {
    IntFirst,
    IntRest { leading_zero: bool },
    FracFirst,
    FracRest,
    ExpSign,
    ExpFirst,
    ExpRest,
}

/// How much of a scalar has been read.
#[derive(Clone, Copy, PartialEq, Eq, Debug, Structural)]
pub enum ScalarPhase {
    BeforeValue,
    True(u8),
    False(u8),
    Null(u8),
    Number(NumberPhase),
    /// The last byte of a literal has been read; the next byte is not part of it.
    LiteralDone,
}

/// One step of a scalar (non-container) transition.
#[derive(Clone, Copy, PartialEq, Eq, Debug, Structural)]
pub enum ScalarStep {
    Continue(ScalarPhase),
    /// The scalar is a string: the caller switches to string-body decoding.
    StartString,
    /// The scalar is a container: the caller pushes an array/object frame.
    StartArray,
    StartObject,
    /// The scalar is already complete; the byte belongs to the parent, not this value.
    Done,
    Invalid,
}

/// An ASCII digit.
pub open spec fn is_digit(b: u8) -> bool {
    0x30 <= b <= 0x39  // 0 9
}

/// The letter that opens an exponent.
pub open spec fn is_exp_mark(b: u8) -> bool {
    b == 0x65 || b == 0x45  // e E
}

/// The decimal point.
pub open spec fn is_point(b: u8) -> bool {
    b == 0x2e  // .
}

/// A sign, as it may stand in an exponent.
pub open spec fn is_sign(b: u8) -> bool {
    b == 0x2b || b == 0x2d  // + -
}

/// The phase after the first digit `b` of an integer part.
pub open spec fn after_first_digit(b: u8) -> ScalarPhase {
    ScalarPhase::Number(NumberPhase::IntRest { leading_zero: b == 0x30 })  // 0
}

pub open spec fn continue_number(phase: NumberPhase) -> ScalarStep {
    ScalarStep::Continue(ScalarPhase::Number(phase))
}

/// Whether a number may end at `phase`.
pub open spec fn number_complete(phase: NumberPhase) -> bool {
    phase is IntRest || phase is FracRest || phase is ExpRest
}

/// The phase in which the byte `b` continues a number at `phase`, if it does.
pub open spec fn number_next(phase: NumberPhase, b: u8) -> Option<NumberPhase> {
    if is_digit(b) {
        match phase {
            NumberPhase::IntFirst => Some(NumberPhase::IntRest { leading_zero: b == 0x30 }),  // 0
            NumberPhase::IntRest { leading_zero } => if leading_zero {
                None
            } else {
                Some(phase)
            },
            NumberPhase::FracFirst | NumberPhase::FracRest => Some(NumberPhase::FracRest),
            NumberPhase::ExpSign | NumberPhase::ExpFirst | NumberPhase::ExpRest => Some(
                NumberPhase::ExpRest,
            ),
        }
    } else if is_point(b) && phase is IntRest {
        Some(NumberPhase::FracFirst)
    } else if is_exp_mark(b) && (phase is IntRest || phase is FracRest) {
        Some(NumberPhase::ExpSign)
    } else if is_sign(b) && phase is ExpSign {
        Some(NumberPhase::ExpFirst)
    } else {
        None
    }
}

/// What the byte `b` does to a number at `phase`: it continues the number, or it
/// ends one that may end there, or it is an error.
pub open spec fn number_step(phase: NumberPhase, b: u8) -> ScalarStep {
    match number_next(phase, b) {
        Some(next) => continue_number(next),
        None => if number_complete(phase) {
            ScalarStep::Done
        } else {
            ScalarStep::Invalid
        },
    }
}

/// The phase of a literal of which `matched` bytes have been read, named by its
/// first byte.
pub open spec fn literal_phase(first: u8, matched: u8) -> ScalarPhase {
    if first == 0x74 {  // t
        ScalarPhase::True(matched)
    } else if first == 0x66 {  // f
        ScalarPhase::False(matched)
    } else {
        ScalarPhase::Null(matched)
    }
}

/// What the byte `b` does to the literal `word` of which `matched` bytes have
/// been read.
pub open spec fn literal_step(word: Seq<u8>, matched: u8, b: u8) -> ScalarStep {
    if matched >= word.len() || b != word[matched as int] {
        ScalarStep::Invalid
    } else if matched + 1 == word.len() {
        ScalarStep::Continue(ScalarPhase::LiteralDone)
    } else {
        ScalarStep::Continue(literal_phase(word[0], (matched + 1) as u8))
    }
}

pub open spec fn true_word() -> Seq<u8> {
    seq![0x74, 0x72, 0x75, 0x65]  // t r u e
}

pub open spec fn false_word() -> Seq<u8> {
    seq![0x66, 0x61, 0x6c, 0x73, 0x65]  // f a l s e
}

pub open spec fn null_word() -> Seq<u8> {
    seq![0x6e, 0x75, 0x6c, 0x6c]  // n u l l
}

/// What the first byte of a value starts.
pub open spec fn first_step(b: u8) -> ScalarStep {
    if b == 0x22 {  // "
        ScalarStep::StartString
    } else if b == 0x5b {  // [
        ScalarStep::StartArray
    } else if b == 0x7b {  // {
        ScalarStep::StartObject
    } else if b == 0x74 || b == 0x66 || b == 0x6e {  // t f n
        ScalarStep::Continue(literal_phase(b, 1))
    } else if b == 0x2d {  // -
        continue_number(NumberPhase::IntFirst)
    } else if is_digit(b) {
        ScalarStep::Continue(after_first_digit(b))
    } else {
        ScalarStep::Invalid
    }
}

/// What the byte `b` does to a scalar at `phase`.
pub open spec fn scalar_step(phase: ScalarPhase, b: u8) -> ScalarStep {
    match phase {
        ScalarPhase::BeforeValue => first_step(b),
        ScalarPhase::True(n) => literal_step(true_word(), n, b),
        ScalarPhase::False(n) => literal_step(false_word(), n, b),
        ScalarPhase::Null(n) => literal_step(null_word(), n, b),
        ScalarPhase::Number(n) => number_step(n, b),
        ScalarPhase::LiteralDone => ScalarStep::Done,
    }
}

/// Whether a scalar may end at `phase`.
pub open spec fn phase_complete(phase: ScalarPhase) -> bool {
    match phase {
        ScalarPhase::LiteralDone => true,
        ScalarPhase::Number(n) => number_complete(n),
        _ => false,
    }
}

/// Advances `phase` by one byte of a scalar (or dispatches into a string/array/object start).
pub fn step_scalar(phase: ScalarPhase, byte: u8) -> (step: ScalarStep)
    ensures
        step == scalar_step(phase, byte),
{
    match phase {
        ScalarPhase::BeforeValue => match byte {
            0x22 => ScalarStep::StartString,  // "
            0x5b => ScalarStep::StartArray,  // [
            0x7b => ScalarStep::StartObject,  // {
            0x74 => ScalarStep::Continue(ScalarPhase::True(1)),  // t
            0x66 => ScalarStep::Continue(ScalarPhase::False(1)),  // f
            0x6e => ScalarStep::Continue(ScalarPhase::Null(1)),  // n
            0x2d => ScalarStep::Continue(ScalarPhase::Number(NumberPhase::IntFirst)),  // -
            0x30 => ScalarStep::Continue(  // 0
                ScalarPhase::Number(NumberPhase::IntRest { leading_zero: true }),
            ),
            0x31..=0x39 => ScalarStep::Continue(  // 1 9
                ScalarPhase::Number(NumberPhase::IntRest { leading_zero: false }),
            ),
            _ => ScalarStep::Invalid,
        },
        ScalarPhase::True(n) => {
            let word: [u8; 4] = [0x74, 0x72, 0x75, 0x65];  // t r u e
            assert(word@ =~= true_word());
            step_literal(&word, n, byte)
        },
        ScalarPhase::False(n) => {
            let word: [u8; 5] = [0x66, 0x61, 0x6c, 0x73, 0x65];  // f a l s e
            assert(word@ =~= false_word());
            step_literal(&word, n, byte)
        },
        ScalarPhase::Null(n) => {
            let word: [u8; 4] = [0x6e, 0x75, 0x6c, 0x6c];  // n u l l
            assert(word@ =~= null_word());
            step_literal(&word, n, byte)
        },
        ScalarPhase::Number(n) => step_number(n, byte),
        ScalarPhase::LiteralDone => ScalarStep::Done,
    }
}

/// Advances a literal of which `matched` bytes have been read.
pub fn step_literal(word: &[u8], matched: u8, byte: u8) -> (step: ScalarStep)
    requires
        word@.len() <= 255,
    ensures
        step == literal_step(word@, matched, byte),
{
    if (matched as usize) >= word.len() || byte != word[matched as usize] {
        return ScalarStep::Invalid;
    }
    let matched: u8 = matched + 1;
    if matched as usize == word.len() {
        ScalarStep::Continue(ScalarPhase::LiteralDone)
    } else {
        ScalarStep::Continue(
            match word[0] {
                0x74 => ScalarPhase::True(matched),  // t
                0x66 => ScalarPhase::False(matched),  // f
                _ => ScalarPhase::Null(matched),
            },
        )
    }
}

/// Advances a number by one byte.
pub fn step_number(phase: NumberPhase, byte: u8) -> (step: ScalarStep)
    ensures
        step == number_step(phase, byte),
{
    match phase {
        NumberPhase::IntFirst => match byte {
            0x30 => ScalarStep::Continue(  // 0
                ScalarPhase::Number(NumberPhase::IntRest { leading_zero: true }),
            ),
            0x31..=0x39 => ScalarStep::Continue(  // 1 9
                ScalarPhase::Number(NumberPhase::IntRest { leading_zero: false }),
            ),
            _ => ScalarStep::Invalid,
        },
        NumberPhase::IntRest { leading_zero } => match byte {
            0x30..=0x39 if !leading_zero => ScalarStep::Continue(  // 0 9
                ScalarPhase::Number(NumberPhase::IntRest { leading_zero }),
            ),
            0x2e => ScalarStep::Continue(ScalarPhase::Number(NumberPhase::FracFirst)),  // .
            0x65 | 0x45 => ScalarStep::Continue(ScalarPhase::Number(NumberPhase::ExpSign)),  // e E
            _ => ScalarStep::Done,
        },
        NumberPhase::FracFirst => match byte {
            0x30..=0x39 => ScalarStep::Continue(ScalarPhase::Number(NumberPhase::FracRest)),  // 0 9
            _ => ScalarStep::Invalid,
        },
        NumberPhase::FracRest => match byte {
            0x30..=0x39 => ScalarStep::Continue(ScalarPhase::Number(NumberPhase::FracRest)),  // 0 9
            0x65 | 0x45 => ScalarStep::Continue(ScalarPhase::Number(NumberPhase::ExpSign)),  // e E
            _ => ScalarStep::Done,
        },
        NumberPhase::ExpSign => match byte {
            0x2b | 0x2d => ScalarStep::Continue(ScalarPhase::Number(NumberPhase::ExpFirst)),  // + -
            0x30..=0x39 => ScalarStep::Continue(ScalarPhase::Number(NumberPhase::ExpRest)),  // 0 9
            _ => ScalarStep::Invalid,
        },
        NumberPhase::ExpFirst => match byte {
            0x30..=0x39 => ScalarStep::Continue(ScalarPhase::Number(NumberPhase::ExpRest)),  // 0 9
            _ => ScalarStep::Invalid,
        },
        NumberPhase::ExpRest => match byte {
            0x30..=0x39 => ScalarStep::Continue(ScalarPhase::Number(NumberPhase::ExpRest)),  // 0 9
            _ => ScalarStep::Done,
        },
    }
}

/// Whether `phase` is already a syntactically complete value (so an unrecognized byte belongs
/// to the parent, not a rejection).
pub fn scalar_is_complete(phase: ScalarPhase) -> (complete: bool)
    ensures
        complete == phase_complete(phase),
{
    matches!(
        phase,
        ScalarPhase::LiteralDone
            | ScalarPhase::Number(
                NumberPhase::IntRest { .. } | NumberPhase::FracRest | NumberPhase::ExpRest
            )
    )
}

} // verus!
