//! Errors as the flat records that callers outside the library read.

use vstd::prelude::*;
use vstd::string::StringExecFns;

use crate::artifact::Matcher;
use crate::error::{
    CompileError, CrossedLimit, ErrorCode, ErrorView, LimitKind, Stage, VocabError, VocabErrorView,
    plain_error, text_view,
};
use crate::text::{decimal, decimal_text, join3, same_text};

verus! {

/// The stable `(code, stage, pointer, keyword, observed, message, limit)` record of an error. Every
/// field but `code`, `stage` and `message` may be absent. `code` is the stable machine contract;
/// `message` is advisory text.
#[derive(Clone, Debug, PartialEq, Eq)]
pub struct ErrorRecord {
    pub code: String,
    pub stage: String,
    pub pointer: Option<String>,
    pub keyword: Option<String>,
    pub observed: Option<String>,
    pub message: String,
    pub limit: Option<String>,
}

/// What an [`ErrorRecord`] says.
pub struct RecordView {
    pub code: Seq<char>,
    pub stage: Seq<char>,
    pub pointer: Option<Seq<char>>,
    pub keyword: Option<Seq<char>>,
    pub observed: Option<Seq<char>>,
    pub message: Seq<char>,
    pub limit: Option<Seq<char>>,
}

impl View for ErrorRecord {
    type V = RecordView;

    open spec fn view(&self) -> RecordView {
        RecordView {
            code: self.code@,
            stage: self.stage@,
            pointer: text_view(self.pointer),
            keyword: text_view(self.keyword),
            observed: text_view(self.observed),
            message: self.message@,
            limit: text_view(self.limit),
        }
    }
}

/// The name of an error code.
pub open spec fn code_text(code: ErrorCode) -> Seq<char> {
    match code {
        ErrorCode::InternalLimitExceeded => "InternalLimitExceeded"@,
        ErrorCode::EmptyToken => "EmptyToken"@,
        ErrorCode::MalformedTokenizer => "MalformedTokenizer"@,
        ErrorCode::Unsupported => "Unsupported"@,
        ErrorCode::Malformed => "Malformed"@,
        ErrorCode::ArtifactMismatch => "ArtifactMismatch"@,
        ErrorCode::ArtifactOutOfBounds => "ArtifactOutOfBounds"@,
    }
}

pub fn code_name(code: ErrorCode) -> (name: &'static str)
    ensures
        name@ == code_text(code),
{
    match code {
        ErrorCode::InternalLimitExceeded => "InternalLimitExceeded",
        ErrorCode::EmptyToken => "EmptyToken",
        ErrorCode::MalformedTokenizer => "MalformedTokenizer",
        ErrorCode::Unsupported => "Unsupported",
        ErrorCode::Malformed => "Malformed",
        ErrorCode::ArtifactMismatch => "ArtifactMismatch",
        ErrorCode::ArtifactOutOfBounds => "ArtifactOutOfBounds",
    }
}

/// The name of a stage.
pub open spec fn stage_text(stage: Stage) -> Seq<char> {
    match stage {
        Stage::L1 => "L1"@,
        Stage::L2 => "L2"@,
        Stage::L3 => "L3"@,
        Stage::L4Bind => "L4Bind"@,
        Stage::VocabBuild => "VocabBuild"@,
        Stage::ArtifactValidate => "ArtifactValidate"@,
    }
}

pub fn stage_name(stage: Stage) -> (name: &'static str)
    ensures
        name@ == stage_text(stage),
{
    match stage {
        Stage::L1 => "L1",
        Stage::L2 => "L2",
        Stage::L3 => "L3",
        Stage::L4Bind => "L4Bind",
        Stage::VocabBuild => "VocabBuild",
        Stage::ArtifactValidate => "ArtifactValidate",
    }
}

/// The name of what a limit counts.
pub open spec fn kind_text(kind: LimitKind) -> Seq<char> {
    match kind {
        LimitKind::NumberBytes => "NumberBytes"@,
        LimitKind::DynamicScopeDepth => "DynamicScopeDepth"@,
        LimitKind::UndoEntries => "UndoEntries"@,
        LimitKind::SessionBytes => "SessionBytes"@,
        LimitKind::ActiveValidators => "ActiveValidators"@,
        LimitKind::RecursionDepth => "RecursionDepth"@,
        LimitKind::PropertyCount => "PropertyCount"@,
        LimitKind::ArrayLength => "ArrayLength"@,
        LimitKind::MaskWork => "MaskWork"@,
    }
}

pub fn kind_name(kind: LimitKind) -> (name: &'static str)
    ensures
        name@ == kind_text(kind),
{
    match kind {
        LimitKind::NumberBytes => "NumberBytes",
        LimitKind::DynamicScopeDepth => "DynamicScopeDepth",
        LimitKind::UndoEntries => "UndoEntries",
        LimitKind::SessionBytes => "SessionBytes",
        LimitKind::ActiveValidators => "ActiveValidators",
        LimitKind::RecursionDepth => "RecursionDepth",
        LimitKind::PropertyCount => "PropertyCount",
        LimitKind::ArrayLength => "ArrayLength",
        LimitKind::MaskWork => "MaskWork",
    }
}

/// A crossed limit as text: what it counts, a colon, the value observed, a slash and the cap.
pub open spec fn limit_text(limit: CrossedLimit) -> Seq<char> {
    kind_text(limit.kind) + ":"@ + decimal_text(limit.observed as nat) + "/"@ + decimal_text(
        limit.cap as nat,
    )
}

/// A crossed limit as text.
pub fn describe_limit(limit: &CrossedLimit) -> (s: String)
    ensures
        s@ == limit_text(*limit),
{
    let observed: String = decimal(limit.observed as u64);
    let cap: String = decimal(limit.cap as u64);
    kind_name(limit.kind).to_owned().concat(":").concat(observed.as_str()).concat("/").concat(
        cap.as_str(),
    )
}

fn copy_text(text: &Option<String>) -> (copy: Option<String>)
    ensures
        text_view(copy) == text_view(*text),
{
    match text {
        Some(s) => Some(s.as_str().to_owned()),
        None => None,
    }
}

/// A record with a code, a stage, an observed value and a message.
pub open spec fn short_record(
    code: Seq<char>,
    stage: Seq<char>,
    observed: Option<Seq<char>>,
    message: Seq<char>,
) -> RecordView {
    RecordView { code, stage, pointer: None, keyword: None, observed, message, limit: None }
}

/// Puts a record together.
pub fn structured_err(
    code: String,
    stage: String,
    pointer: Option<String>,
    keyword: Option<String>,
    observed: Option<String>,
    message: String,
    limit: Option<String>,
) -> (r: ErrorRecord)
    ensures
        r == (ErrorRecord { code, stage, pointer, keyword, observed, message, limit }),
{
    ErrorRecord { code, stage, pointer, keyword, observed, message, limit }
}

fn short_err(code: &str, stage: Stage, observed: Option<String>, message: String) -> (r: ErrorRecord)
    ensures
        r@ == short_record(code@, stage_text(stage), text_view(observed), message@),
{
    structured_err(
        code.to_owned(),
        stage_name(stage).to_owned(),
        None,
        None,
        observed,
        message,
        None,
    )
}

/// The record of a compile error.
pub open spec fn compile_record(e: ErrorView) -> RecordView {
    RecordView {
        code: code_text(e.code),
        stage: stage_text(e.stage),
        pointer: e.json_pointer_path,
        keyword: e.keyword,
        observed: e.observed,
        message: e.message,
        limit: match e.limit {
            Some(limit) => Some(limit_text(limit)),
            None => None,
        },
    }
}

pub fn compile_err(e: &CompileError) -> (r: ErrorRecord)
    ensures
        r@ == compile_record(e@),
{
    let limit: Option<String> = match &e.limit {
        Some(limit) => Some(describe_limit(limit)),
        None => None,
    };
    structured_err(
        code_name(e.code).to_owned(),
        stage_name(e.stage).to_owned(),
        copy_text(&e.json_pointer_path),
        copy_text(&e.keyword),
        copy_text(&e.observed),
        e.message.to_owned(),
        limit,
    )
}

/// The record of a vocabulary error.
pub open spec fn vocab_record(e: VocabErrorView) -> RecordView {
    short_record(
        code_text(e.code),
        "VocabBuild"@,
        match e.token {
            Some(token) => Some(decimal_text(token as nat)),
            None => None,
        },
        e.detail,
    )
}

pub fn vocab_err(e: &VocabError) -> (r: ErrorRecord)
    ensures
        r@ == vocab_record(e@),
{
    let observed: Option<String> = match e.token {
        Some(token) => Some(decimal(token as u64)),
        None => None,
    };
    short_err(code_name(e.code), Stage::VocabBuild, observed, e.detail.to_owned())
}

/// The record of a token that no byte path allows.
pub open spec fn illegal_token_record(token: u32) -> RecordView {
    short_record(
        "IllegalToken"@,
        "ArtifactValidate"@,
        Some(decimal_text(token as nat)),
        "token "@ + decimal_text(token as nat),
    )
}

pub fn illegal_token(token: u32) -> (r: ErrorRecord)
    ensures
        r@ == illegal_token_record(token),
{
    let text: String = decimal(token as u64);
    let message: String = "token ".to_owned().concat(text.as_str());
    short_err("IllegalToken", Stage::ArtifactValidate, Some(text), message)
}

/// An error of the structured matcher.
#[derive(Clone, Debug, PartialEq, Eq)]
pub enum StructuredMatcherError {
    Compile(CompileError),
    ResourceLimit(CrossedLimit),
}

/// The record of a structured matcher error.
pub open spec fn structured_matcher_record(e: StructuredMatcherError) -> RecordView {
    match e {
        StructuredMatcherError::Compile(error) => compile_record(error@),
        StructuredMatcherError::ResourceLimit(limit) => RecordView {
            limit: Some(limit_text(limit)),
            ..short_record(
                "InternalLimitExceeded"@,
                "L4Bind"@,
                Some(decimal_text(limit.observed as nat)),
                "structured matcher resource limit exceeded"@,
            )
        },
    }
}

pub fn structured_matcher_err(e: &StructuredMatcherError) -> (r: ErrorRecord)
    ensures
        r@ == structured_matcher_record(*e),
{
    match e {
        StructuredMatcherError::Compile(error) => compile_err(error),
        StructuredMatcherError::ResourceLimit(limit) => structured_err(
            "InternalLimitExceeded".to_owned(),
            "L4Bind".to_owned(),
            None,
            None,
            Some(decimal(limit.observed as u64)),
            "structured matcher resource limit exceeded".to_owned(),
            Some(describe_limit(limit)),
        ),
    }
}

/// An error of the state-table matcher.
#[derive(Clone, Debug, PartialEq, Eq)]
pub enum MatcherError {
    IllegalToken { token: u32 },
    ArtifactMismatch,
    /// Any other error, in its own words.
    Other(String),
}

/// The record of a matcher error.
pub open spec fn matcher_record(e: MatcherError) -> RecordView {
    match e {
        MatcherError::IllegalToken { token } => illegal_token_record(token),
        MatcherError::ArtifactMismatch => short_record(
            "ArtifactMismatch"@,
            "ArtifactValidate"@,
            None,
            "artifact mismatch"@,
        ),
        MatcherError::Other(words) => short_record(
            "Unsupported"@,
            "ArtifactValidate"@,
            None,
            words@,
        ),
    }
}

pub fn matcher_err(e: &MatcherError) -> (r: ErrorRecord)
    ensures
        r@ == matcher_record(*e),
{
    match e {
        MatcherError::IllegalToken { token } => illegal_token(*token),
        MatcherError::ArtifactMismatch => short_err(
            "ArtifactMismatch",
            Stage::ArtifactValidate,
            None,
            "artifact mismatch".to_owned(),
        ),
        MatcherError::Other(words) => short_err(
            "Unsupported",
            Stage::ArtifactValidate,
            None,
            words.as_str().to_owned(),
        ),
    }
}

/// An error of a decoding session.
#[derive(Clone, Debug, PartialEq, Eq)]
pub enum SessionError {
    Compile(CompileError),
    Matcher(MatcherError),
    Structured(StructuredMatcherError),
    IllegalToken { token: u32 },
    UnknownToken { token: u32 },
    SessionStopped,
    MaskBufferLength { expected: usize, actual: usize },
    MaskByteBufferLength { expected: usize, actual: usize },
    /// Any other error, in its own words.
    Other(String),
}

/// The record of a mask buffer of the wrong length, counted in `unit`.
pub open spec fn mask_length_record(expected: usize, actual: usize, unit: Seq<char>) -> RecordView {
    RecordView {
        limit: Some(decimal_text(expected as nat)),
        ..short_record(
            "MaskBufferLength"@,
            "ArtifactValidate"@,
            Some(decimal_text(actual as nat)),
            "mask buffer must contain exactly "@ + decimal_text(expected as nat) + unit
                + decimal_text(actual as nat),
        )
    }
}

fn mask_length_err(expected: usize, actual: usize, unit: &str) -> (r: ErrorRecord)
    ensures
        r@ == mask_length_record(expected, actual, unit@),
{
    let wanted: String = decimal(expected as u64);
    let got: String = decimal(actual as u64);
    let message: String = "mask buffer must contain exactly ".to_owned().concat(
        wanted.as_str(),
    ).concat(unit).concat(got.as_str());
    structured_err(
        "MaskBufferLength".to_owned(),
        "ArtifactValidate".to_owned(),
        None,
        None,
        Some(got),
        message,
        Some(wanted),
    )
}

/// The record of a session error.
pub open spec fn session_record(e: SessionError) -> RecordView {
    match e {
        SessionError::Compile(error) => compile_record(error@),
        SessionError::Matcher(error) => matcher_record(error),
        SessionError::Structured(error) => structured_matcher_record(error),
        SessionError::IllegalToken { token } => illegal_token_record(token),
        SessionError::UnknownToken { token } => short_record(
            "UnknownToken"@,
            "ArtifactValidate"@,
            Some(decimal_text(token as nat)),
            "token "@ + decimal_text(token as nat) + " is absent from the bound vocabulary"@,
        ),
        SessionError::SessionStopped => short_record(
            "SessionStopped"@,
            "ArtifactValidate"@,
            None,
            "session already committed EOS; call reset() first"@,
        ),
        SessionError::MaskBufferLength { expected, actual } => mask_length_record(
            expected,
            actual,
            " words, got "@,
        ),
        SessionError::MaskByteBufferLength { expected, actual } => mask_length_record(
            expected,
            actual,
            " bytes, got "@,
        ),
        SessionError::Other(words) => short_record(
            "Unsupported"@,
            "ArtifactValidate"@,
            None,
            words@,
        ),
    }
}

pub fn session_err(e: &SessionError) -> (r: ErrorRecord)
    ensures
        r@ == session_record(*e),
{
    match e {
        SessionError::Compile(error) => compile_err(error),
        SessionError::Matcher(error) => matcher_err(error),
        SessionError::Structured(error) => structured_matcher_err(error),
        SessionError::IllegalToken { token } => illegal_token(*token),
        SessionError::UnknownToken { token } => {
            let text: String = decimal(*token as u64);
            let message: String = join3(
                "token ",
                text.as_str(),
                " is absent from the bound vocabulary",
            );
            short_err("UnknownToken", Stage::ArtifactValidate, Some(text), message)
        },
        SessionError::SessionStopped => short_err(
            "SessionStopped",
            Stage::ArtifactValidate,
            None,
            "session already committed EOS; call reset() first".to_owned(),
        ),
        SessionError::MaskBufferLength { expected, actual } => mask_length_err(
            *expected,
            *actual,
            " words, got ",
        ),
        SessionError::MaskByteBufferLength { expected, actual } => mask_length_err(
            *expected,
            *actual,
            " bytes, got ",
        ),
        SessionError::Other(words) => short_err(
            "Unsupported",
            Stage::ArtifactValidate,
            None,
            words.as_str().to_owned(),
        ),
    }
}

/// Where the first case of a name stands in a corpus, or the record of a name that no case has.
pub fn corpus_case(names: &[&str], name: &str) -> (r: Result<usize, ErrorRecord>)
    ensures
        match r {
            Ok(i) => {
                &&& i < names@.len()
                &&& names@[i as int]@ == name@
                &&& forall|k: int| 0 <= k < i ==> (#[trigger] names@[k])@ != name@
            },
            Err(e) => {
                &&& forall|k: int| 0 <= k < names@.len() ==> (#[trigger] names@[k])@ != name@
                &&& e@ == short_record(
                    "Malformed"@,
                    "L1"@,
                    None,
                    "no corpus case named "@ + name@,
                )
            },
        },
{
    let mut i: usize = 0;
    while i < names.len()
        invariant
            i <= names@.len(),
            forall|k: int| 0 <= k < i ==> (#[trigger] names@[k])@ != name@,
        decreases names@.len() - i,
    {
        if same_text(names[i], name) {
            return Ok(i);
        }
        i = i + 1;
    }
    let message: String = "no corpus case named ".to_owned().concat(name);
    Err(short_err("Malformed", Stage::L1, None, message))
}

/// An error of binding a schema to a vocabulary.
#[derive(Clone, Debug, PartialEq, Eq)]
pub enum CoreError {
    Compile(CompileError),
    Vocab(VocabError),
    Unsupported(String),
}

/// The record of a bind error.
pub open spec fn core_record(e: CoreError) -> RecordView {
    match e {
        CoreError::Compile(error) => compile_record(error@),
        CoreError::Vocab(error) => vocab_record(error@),
        CoreError::Unsupported(words) => short_record("Unsupported"@, "L4Bind"@, None, words@),
    }
}

pub fn core_err(e: &CoreError) -> (r: ErrorRecord)
    ensures
        r@ == core_record(*e),
{
    match e {
        CoreError::Compile(error) => compile_err(error),
        CoreError::Vocab(error) => vocab_err(error),
        CoreError::Unsupported(words) => short_err(
            "Unsupported",
            Stage::L4Bind,
            None,
            words.as_str().to_owned(),
        ),
    }
}

/// A bind error narrowed to a compile error.
pub open spec fn narrowed(e: CoreError) -> ErrorView {
    match e {
        CoreError::Compile(error) => error@,
        CoreError::Vocab(error) => plain_error(error.code, Stage::VocabBuild, error.detail@),
        CoreError::Unsupported(_) => plain_error(
            ErrorCode::Unsupported,
            Stage::L4Bind,
            "unsupported bind"@,
        ),
    }
}

/// Narrows bind errors to compile errors.
pub fn core_error_to_compile_error(e: CoreError) -> (c: CompileError)
    ensures
        c@ == narrowed(e),
{
    match e {
        CoreError::Compile(error) => error,
        CoreError::Vocab(error) => CompileError::new(error.code, Stage::VocabBuild, error.detail),
        CoreError::Unsupported(_) => CompileError::new(
            ErrorCode::Unsupported,
            Stage::L4Bind,
            "unsupported bind",
        ),
    }
}

/// Why a build budget could not be configured.
#[derive(Clone, Debug, PartialEq, Eq)]
pub enum GateConfigError {
    InvalidValue { message: String },
    AlreadyInitialized { message: String },
}

/// The record of a budget that could not be configured, under a code of its own.
pub open spec fn gate_config_record(e: GateConfigError) -> RecordView {
    match e {
        GateConfigError::InvalidValue { message } => short_record(
            "InvalidGateConfig"@,
            "L4Bind"@,
            None,
            message@,
        ),
        GateConfigError::AlreadyInitialized { message } => short_record(
            "GateAlreadyInitialized"@,
            "L4Bind"@,
            None,
            message@,
        ),
    }
}

pub fn gate_config_err(e: &GateConfigError) -> (r: ErrorRecord)
    ensures
        r@ == gate_config_record(*e),
{
    match e {
        GateConfigError::InvalidValue { message } => short_err(
            "InvalidGateConfig",
            Stage::L4Bind,
            None,
            message.as_str().to_owned(),
        ),
        GateConfigError::AlreadyInitialized { message } => short_err(
            "GateAlreadyInitialized",
            Stage::L4Bind,
            None,
            message.as_str().to_owned(),
        ),
    }
}

} // verus!
