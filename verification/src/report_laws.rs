//! What a report says of each error, field by field.

use vstd::prelude::*;

use crate::artifact::Matcher;
use crate::bind::{debug_text, unknown_mode_record};
use crate::error::{CrossedLimit, ErrorCode, ErrorView, LimitKind, Stage, VocabErrorView};
use crate::report::{
    CoreError, GateConfigError, MatcherError, RecordView, SessionError, StructuredMatcherError,
    code_text, compile_record, core_record, gate_config_record, illegal_token_record, kind_text,
    limit_text, matcher_record, narrowed, session_record, stage_text, structured_matcher_record,
    vocab_record,
};
use crate::text::decimal_text;

verus! {

/// Every code, stage and kind of limit is written as its own name.
pub proof fn names_are_written_out()
    ensures
        code_text(ErrorCode::InternalLimitExceeded) == "InternalLimitExceeded"@,
        code_text(ErrorCode::EmptyToken) == "EmptyToken"@,
        code_text(ErrorCode::MalformedTokenizer) == "MalformedTokenizer"@,
        code_text(ErrorCode::Unsupported) == "Unsupported"@,
        code_text(ErrorCode::Malformed) == "Malformed"@,
        code_text(ErrorCode::ArtifactMismatch) == "ArtifactMismatch"@,
        code_text(ErrorCode::ArtifactOutOfBounds) == "ArtifactOutOfBounds"@,
        stage_text(Stage::L1) == "L1"@,
        stage_text(Stage::L2) == "L2"@,
        stage_text(Stage::L3) == "L3"@,
        stage_text(Stage::L4Bind) == "L4Bind"@,
        stage_text(Stage::VocabBuild) == "VocabBuild"@,
        stage_text(Stage::ArtifactValidate) == "ArtifactValidate"@,
        kind_text(LimitKind::NumberBytes) == "NumberBytes"@,
        kind_text(LimitKind::DynamicScopeDepth) == "DynamicScopeDepth"@,
        kind_text(LimitKind::UndoEntries) == "UndoEntries"@,
        kind_text(LimitKind::SessionBytes) == "SessionBytes"@,
        kind_text(LimitKind::ActiveValidators) == "ActiveValidators"@,
        kind_text(LimitKind::RecursionDepth) == "RecursionDepth"@,
        kind_text(LimitKind::PropertyCount) == "PropertyCount"@,
        kind_text(LimitKind::ArrayLength) == "ArrayLength"@,
        kind_text(LimitKind::MaskWork) == "MaskWork"@,
{
}

/// A limit is written as its kind, what was observed and the cap, in this order.
pub proof fn limits_are_written_as_observed_over_cap(limit: CrossedLimit)
    ensures
        limit_text(limit) == kind_text(limit.kind) + ":"@ + decimal_text(limit.observed as nat)
            + "/"@ + decimal_text(limit.cap as nat),
{
}

/// The report of a compile error has its code, stage, pointer, keyword, observation, message and
/// limit, each in its own field.
pub proof fn compile_reports_keep_every_field(e: ErrorView)
    ensures
        compile_record(e).code == code_text(e.code),
        compile_record(e).stage == stage_text(e.stage),
        compile_record(e).pointer == e.json_pointer_path,
        compile_record(e).keyword == e.keyword,
        compile_record(e).observed == e.observed,
        compile_record(e).message == e.message,
        e.limit is None ==> compile_record(e).limit is None,
        e.limit matches Some(limit) ==> compile_record(e).limit == Some(limit_text(limit)),
{
}

/// The report says this much and no more.
pub open spec fn says(
    r: RecordView,
    code: Seq<char>,
    stage: Seq<char>,
    observed: Option<Seq<char>>,
    message: Seq<char>,
    limit: Option<Seq<char>>,
) -> bool {
    &&& r.code == code
    &&& r.stage == stage
    &&& r.pointer is None
    &&& r.keyword is None
    &&& r.observed == observed
    &&& r.message == message
    &&& r.limit == limit
}

/// The report of a vocabulary error names the token, where the error does, as what was observed.
pub proof fn vocabulary_reports_name_the_token(e: VocabErrorView)
    ensures
        e.token is None ==> says(
            vocab_record(e),
            code_text(e.code),
            "VocabBuild"@,
            None,
            e.detail,
            None,
        ),
        e.token matches Some(token) ==> says(
            vocab_record(e),
            code_text(e.code),
            "VocabBuild"@,
            Some(decimal_text(token as nat)),
            e.detail,
            None,
        ),
{
}

/// The report of an illegal token names it, as what was observed and in the message.
pub proof fn illegal_tokens_are_named(token: u32)
    ensures
        says(
            illegal_token_record(token),
            "IllegalToken"@,
            "ArtifactValidate"@,
            Some(decimal_text(token as nat)),
            "token "@ + decimal_text(token as nat),
            None,
        ),
{
}

/// What the report of a matcher error says.
pub proof fn matcher_reports(e: MatcherError)
    ensures
        match e {
            MatcherError::IllegalToken { token } => matcher_record(e) == illegal_token_record(
                token,
            ),
            MatcherError::ArtifactMismatch => says(
                matcher_record(e),
                "ArtifactMismatch"@,
                "ArtifactValidate"@,
                None,
                "artifact mismatch"@,
                None,
            ),
            MatcherError::Other(words) => says(
                matcher_record(e),
                "Unsupported"@,
                "ArtifactValidate"@,
                None,
                words@,
                None,
            ),
        },
{
}

/// What the report of a structured matcher's error says: the compile error, or the limit with what
/// was observed of it.
pub proof fn structured_matcher_reports(e: StructuredMatcherError)
    ensures
        match e {
            StructuredMatcherError::Compile(error) => structured_matcher_record(e)
                == compile_record(error@),
            StructuredMatcherError::ResourceLimit(limit) => says(
                structured_matcher_record(e),
                "InternalLimitExceeded"@,
                "L4Bind"@,
                Some(decimal_text(limit.observed as nat)),
                "structured matcher resource limit exceeded"@,
                Some(limit_text(limit)),
            ),
        },
{
}

/// What the report of a session error says. An error that a session hands on is reported as it
/// would be without the session; a buffer of the wrong length is reported with both lengths.
pub proof fn session_reports(e: SessionError)
    ensures
        match e {
            SessionError::Compile(error) => session_record(e) == compile_record(error@),
            SessionError::Matcher(error) => session_record(e) == matcher_record(error),
            SessionError::Structured(error) => session_record(e) == structured_matcher_record(
                error,
            ),
            SessionError::IllegalToken { token } => session_record(e) == illegal_token_record(
                token,
            ),
            SessionError::UnknownToken { token } => says(
                session_record(e),
                "UnknownToken"@,
                "ArtifactValidate"@,
                Some(decimal_text(token as nat)),
                "token "@ + decimal_text(token as nat) + " is absent from the bound vocabulary"@,
                None,
            ),
            SessionError::SessionStopped => says(
                session_record(e),
                "SessionStopped"@,
                "ArtifactValidate"@,
                None,
                "session already committed EOS; call reset() first"@,
                None,
            ),
            SessionError::MaskBufferLength { expected, actual } => says(
                session_record(e),
                "MaskBufferLength"@,
                "ArtifactValidate"@,
                Some(decimal_text(actual as nat)),
                "mask buffer must contain exactly "@ + decimal_text(expected as nat)
                    + " words, got "@ + decimal_text(actual as nat),
                Some(decimal_text(expected as nat)),
            ),
            SessionError::MaskByteBufferLength { expected, actual } => says(
                session_record(e),
                "MaskBufferLength"@,
                "ArtifactValidate"@,
                Some(decimal_text(actual as nat)),
                "mask buffer must contain exactly "@ + decimal_text(expected as nat)
                    + " bytes, got "@ + decimal_text(actual as nat),
                Some(decimal_text(expected as nat)),
            ),
            SessionError::Other(words) => says(
                session_record(e),
                "Unsupported"@,
                "ArtifactValidate"@,
                None,
                words@,
                None,
            ),
        },
{
}

/// What the report of a bind error says, and what compile error it narrows to: a compile error is
/// kept, a vocabulary error keeps its code and detail, and other words are dropped.
pub proof fn bind_reports(e: CoreError)
    ensures
        match e {
            CoreError::Compile(error) => core_record(e) == compile_record(error@) && narrowed(e)
                == error@,
            CoreError::Vocab(error) => core_record(e) == vocab_record(error@) && narrowed(e).code
                == error.code && narrowed(e).stage == Stage::VocabBuild && narrowed(e).message
                == error.detail@,
            CoreError::Unsupported(words) => says(
                core_record(e),
                "Unsupported"@,
                "L4Bind"@,
                None,
                words@,
                None,
            ) && narrowed(e).code == ErrorCode::Unsupported && narrowed(e).stage == Stage::L4Bind
                && narrowed(e).message == "unsupported bind"@,
        },
        !(e is Compile) ==> narrowed(e).json_pointer_path is None && narrowed(e).keyword is None
            && narrowed(e).observed is None && narrowed(e).limit is None,
{
}

/// A budget that is set wrongly and one that is set too late are told apart by their codes.
pub proof fn budget_reports(e: GateConfigError)
    ensures
        match e {
            GateConfigError::InvalidValue { message } => says(
                gate_config_record(e),
                "InvalidGateConfig"@,
                "L4Bind"@,
                None,
                message@,
                None,
            ),
            GateConfigError::AlreadyInitialized { message } => says(
                gate_config_record(e),
                "GateAlreadyInitialized"@,
                "L4Bind"@,
                None,
                message@,
                None,
            ),
        },
{
}

/// The report of an unknown mode names it, and the two modes that there are.
pub proof fn unknown_modes_are_reported(name: Seq<char>)
    ensures
        says(
            unknown_mode_record(name),
            "Unsupported"@,
            "L4Bind"@,
            Some(name),
            "unknown bind mode "@ + debug_text(name)
                + "; expected \"byte_trie\" or \"byte_trie_lazy\""@,
            None,
        ),
{
}

} // verus!
