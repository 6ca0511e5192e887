//! Errors as flat records.

use maskforge::error::{CompileError, CrossedLimit, ErrorCode, LimitKind, Stage, VocabError};
use maskforge::report::{
    compile_err, core_err, core_error_to_compile_error, corpus_case, describe_limit, gate_config_err,
    matcher_err, session_err, structured_matcher_err, vocab_err, CoreError, ErrorRecord,
    GateConfigError, MatcherError, SessionError, StructuredMatcherError,
};

fn record(
    code: &str,
    stage: &str,
    observed: Option<&str>,
    message: &str,
    limit: Option<&str>,
) -> ErrorRecord {
    ErrorRecord {
        code: code.to_string(),
        stage: stage.to_string(),
        pointer: None,
        keyword: None,
        observed: observed.map(str::to_string),
        message: message.to_string(),
        limit: limit.map(str::to_string),
    }
}

#[test]
fn a_compile_error_keeps_every_field() {
    let mut e = CompileError::new(ErrorCode::Unsupported, Stage::L1, "no such keyword");
    e.json_pointer_path = Some("/a/0".to_string());
    e.keyword = Some("minimum".to_string());
    e.observed = Some("12".to_string());
    e.limit = Some(CrossedLimit {
        kind: LimitKind::RecursionDepth,
        observed: 12,
        cap: 8,
    });
    assert_eq!(
        compile_err(&e),
        ErrorRecord {
            code: "Unsupported".to_string(),
            stage: "L1".to_string(),
            pointer: Some("/a/0".to_string()),
            keyword: Some("minimum".to_string()),
            observed: Some("12".to_string()),
            message: "no such keyword".to_string(),
            limit: Some("RecursionDepth:12/8".to_string()),
        }
    );
}

#[test]
fn session_errors_have_their_own_records() {
    let cases = [
        (
            SessionError::IllegalToken { token: 5 },
            record("IllegalToken", "ArtifactValidate", Some("5"), "token 5", None),
        ),
        (
            SessionError::UnknownToken { token: 40 },
            record(
                "UnknownToken",
                "ArtifactValidate",
                Some("40"),
                "token 40 is absent from the bound vocabulary",
                None,
            ),
        ),
        (
            SessionError::SessionStopped,
            record(
                "SessionStopped",
                "ArtifactValidate",
                None,
                "session already committed EOS; call reset() first",
                None,
            ),
        ),
        (
            SessionError::MaskBufferLength {
                expected: 3,
                actual: 4,
            },
            record(
                "MaskBufferLength",
                "ArtifactValidate",
                Some("4"),
                "mask buffer must contain exactly 3 words, got 4",
                Some("3"),
            ),
        ),
        (
            SessionError::MaskByteBufferLength {
                expected: 12,
                actual: 0,
            },
            record(
                "MaskBufferLength",
                "ArtifactValidate",
                Some("0"),
                "mask buffer must contain exactly 12 bytes, got 0",
                Some("12"),
            ),
        ),
        (
            SessionError::Matcher(MatcherError::ArtifactMismatch),
            record(
                "ArtifactMismatch",
                "ArtifactValidate",
                None,
                "artifact mismatch",
                None,
            ),
        ),
        (
            SessionError::Other("something else".to_string()),
            record("Unsupported", "ArtifactValidate", None, "something else", None),
        ),
    ];
    for (error, expected) in cases {
        assert_eq!(session_err(&error), expected);
    }
}

#[test]
fn matcher_errors_have_their_own_records() {
    assert_eq!(
        matcher_err(&MatcherError::IllegalToken { token: 9 }),
        record("IllegalToken", "ArtifactValidate", Some("9"), "token 9", None)
    );
    assert_eq!(
        matcher_err(&MatcherError::Other("odd".to_string())),
        record("Unsupported", "ArtifactValidate", None, "odd", None)
    );
    let limit = CrossedLimit {
        kind: LimitKind::MaskWork,
        observed: 64,
        cap: 63,
    };
    assert_eq!(describe_limit(&limit), "MaskWork:64/63");
    let structured = StructuredMatcherError::ResourceLimit(limit);
    let expected = record(
        "InternalLimitExceeded",
        "L4Bind",
        Some("64"),
        "structured matcher resource limit exceeded",
        Some("MaskWork:64/63"),
    );
    assert_eq!(structured_matcher_err(&structured), expected);
    assert_eq!(session_err(&SessionError::Structured(structured)), expected);
}

#[test]
fn bind_errors_are_reported_and_narrowed() {
    let vocab = VocabError::malformed_tokenizer_for(3, "EOS token id present in the token map");
    assert_eq!(
        vocab_err(&vocab),
        record(
            "MalformedTokenizer",
            "VocabBuild",
            Some("3"),
            "EOS token id present in the token map",
            None,
        )
    );
    assert_eq!(
        core_err(&CoreError::Unsupported("cannot".to_string())),
        record("Unsupported", "L4Bind", None, "cannot", None)
    );
    let narrowed = core_error_to_compile_error(CoreError::Vocab(vocab));
    assert_eq!(narrowed.code, ErrorCode::MalformedTokenizer);
    assert_eq!(narrowed.stage, Stage::VocabBuild);
    let narrowed = core_error_to_compile_error(CoreError::Unsupported("cannot".to_string()));
    assert_eq!(narrowed.message, "unsupported bind");
}

#[test]
fn gate_errors_have_codes_of_their_own() {
    let message = "already in use".to_string();
    assert_eq!(
        gate_config_err(&GateConfigError::AlreadyInitialized {
            message: message.clone()
        }),
        record("GateAlreadyInitialized", "L4Bind", None, "already in use", None)
    );
    assert_eq!(
        gate_config_err(&GateConfigError::InvalidValue { message }).code,
        "InvalidGateConfig"
    );
}

#[test]
fn corpus_cases_are_found_by_name() {
    let names = ["object", "array", "object"];
    assert_eq!(corpus_case(&names, "object"), Ok(0));
    assert_eq!(corpus_case(&names, "array"), Ok(1));
    assert_eq!(
        corpus_case(&names, "enum"),
        Err(record(
            "Malformed",
            "L1",
            None,
            "no corpus case named enum",
            None
        ))
    );
}
