//! Scalar steps, byte by byte.

use maskforge::validator::{scalar_is_complete, step_scalar, NumberPhase, ScalarPhase, ScalarStep};

fn run(bytes: &[u8]) -> Option<ScalarPhase> {
    let mut phase = ScalarPhase::BeforeValue;
    for &b in bytes {
        match step_scalar(phase, b) {
            ScalarStep::Continue(next) => phase = next,
            ScalarStep::Done | ScalarStep::Invalid => return None,
            ScalarStep::StartString | ScalarStep::StartArray | ScalarStep::StartObject => {
                return None
            }
        }
    }
    Some(phase)
}

#[test]
fn true_false_null_match_exactly() {
    assert!(matches!(run(b"tru"), Some(ScalarPhase::True(3))));
    assert!(matches!(
        step_scalar(ScalarPhase::True(3), b'e'),
        ScalarStep::Continue(ScalarPhase::LiteralDone)
    ));
    assert!(matches!(
        step_scalar(ScalarPhase::LiteralDone, b','),
        ScalarStep::Done
    ));
    assert!(matches!(run(b"fals"), Some(ScalarPhase::False(4))));
    assert!(matches!(run(b"nul"), Some(ScalarPhase::Null(3))));
}

#[test]
fn a_leading_zero_forbids_more_int_digits() {
    let phase = run(b"0").unwrap();
    assert!(matches!(step_scalar(phase, b'1'), ScalarStep::Done));
}

#[test]
fn negative_and_fractional_and_exponent_numbers_are_syntactically_valid() {
    for text in ["-12", "0.5", "1e10", "1E-10", "-0.25e+3"] {
        let phase = run(text.as_bytes());
        assert!(phase.is_some(), "{text}");
        assert!(scalar_is_complete(phase.unwrap()), "{text}");
    }
}

#[test]
fn a_bare_leading_dot_or_trailing_dot_is_invalid() {
    assert!(matches!(
        step_scalar(ScalarPhase::BeforeValue, b'.'),
        ScalarStep::Invalid
    ));
    let after_int = run(b"1").unwrap();
    assert!(matches!(
        step_scalar(after_int, b'.'),
        ScalarStep::Continue(ScalarPhase::Number(NumberPhase::FracFirst))
    ));
    assert!(matches!(
        step_scalar(ScalarPhase::Number(NumberPhase::FracFirst), b'e'),
        ScalarStep::Invalid
    ));
}

