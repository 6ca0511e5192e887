//! Typed errors shared by every stage of the library.

use vstd::prelude::*;

use crate::admission::empty_token;

verus! {

/// The stable machine-readable cause of an error.
#[derive(Clone, Copy, Debug, PartialEq, Eq, Structural)]
pub enum ErrorCode {
    InternalLimitExceeded,
    EmptyToken,
    MalformedTokenizer,
    Unsupported,
    Malformed,
    ArtifactMismatch,
    ArtifactOutOfBounds,
}

/// The pipeline stage at which an error arose.
#[derive(Clone, Copy, Debug, PartialEq, Eq, Structural)]
pub enum Stage {
    L1,
    L2,
    L3,
    L4Bind,
    VocabBuild,
    ArtifactValidate,
}

/// The resource that a session limit counts.
#[derive(Clone, Copy, Debug, PartialEq, Eq, Structural)]
pub enum LimitKind {
    NumberBytes,
    DynamicScopeDepth,
    UndoEntries,
    SessionBytes,
    ActiveValidators,
    RecursionDepth,
    PropertyCount,
    ArrayLength,
    MaskWork,
}

/// A limit that was crossed: what it counts, the value observed, and the cap.
#[derive(Clone, Copy, Debug, PartialEq, Eq, Structural)]
pub struct CrossedLimit {
    pub kind: LimitKind,
    pub observed: usize,
    pub cap: usize,
}

/// An error of compilation, binding or decoding.
#[derive(Clone, Debug, PartialEq, Eq)]
pub struct CompileError {
    pub code: ErrorCode,
    pub stage: Stage,
    pub message: &'static str,
    pub json_pointer_path: Option<String>,
    pub keyword: Option<String>,
    pub observed: Option<String>,
    pub limit: Option<CrossedLimit>,
}

/// What a [`CompileError`] says, with its texts as character sequences.
pub struct ErrorView {
    pub code: ErrorCode,
    pub stage: Stage,
    pub message: Seq<char>,
    pub json_pointer_path: Option<Seq<char>>,
    pub keyword: Option<Seq<char>>,
    pub observed: Option<Seq<char>>,
    pub limit: Option<CrossedLimit>,
}

/// The characters of an optional text.
pub open spec fn text_view(text: Option<String>) -> Option<Seq<char>> {
    match text {
        Some(s) => Some(s@),
        None => None,
    }
}

/// An error with nothing but a code, a stage and a message.
pub open spec fn plain_error(code: ErrorCode, stage: Stage, message: Seq<char>) -> ErrorView {
    ErrorView {
        code,
        stage,
        message,
        json_pointer_path: None,
        keyword: None,
        observed: None,
        limit: None,
    }
}

impl View for CompileError {
    type V = ErrorView;

    open spec fn view(&self) -> ErrorView {
        ErrorView {
            code: self.code,
            stage: self.stage,
            message: self.message@,
            json_pointer_path: text_view(self.json_pointer_path),
            keyword: text_view(self.keyword),
            observed: text_view(self.observed),
            limit: self.limit,
        }
    }
}

impl CompileError {
    /// An error that carries a code, a stage and a message.
    pub fn new(code: ErrorCode, stage: Stage, message: &'static str) -> (e: CompileError)
        ensures
            e@ == plain_error(code, stage, message@),
            e.message == message,
    {
        CompileError {
            code,
            stage,
            message,
            json_pointer_path: None,
            keyword: None,
            observed: None,
            limit: None,
        }
    }
}

/// An error of vocabulary construction.
#[derive(Clone, Copy, Debug, PartialEq, Eq)]
pub struct VocabError {
    pub code: ErrorCode,
    pub token: Option<u32>,
    pub detail: &'static str,
}

/// What a [`VocabError`] says.
pub struct VocabErrorView {
    pub code: ErrorCode,
    pub token: Option<u32>,
    pub detail: Seq<char>,
}

impl View for VocabError {
    type V = VocabErrorView;

    open spec fn view(&self) -> VocabErrorView {
        VocabErrorView { code: self.code, token: self.token, detail: self.detail@ }
    }
}

impl VocabError {
    /// A token of zero bytes.
    pub fn empty_token() -> (e: VocabError)
        ensures
            e@ == (VocabErrorView {
                code: ErrorCode::EmptyToken,
                token: None,
                detail: "vocabulary token has zero bytes"@,
            }),
    {
        VocabError {
            code: ErrorCode::EmptyToken,
            token: None,
            detail: "vocabulary token has zero bytes",
        }
    }

    /// Tokenizer data that describes no vocabulary.
    pub fn malformed_tokenizer(detail: &'static str) -> (e: VocabError)
        ensures
            e@ == (VocabErrorView {
                code: ErrorCode::MalformedTokenizer,
                token: None,
                detail: detail@,
            }),
    {
        VocabError { code: ErrorCode::MalformedTokenizer, token: None, detail }
    }

    /// Tokenizer data that is at odds with one token id.
    pub fn malformed_tokenizer_for(token: u32, detail: &'static str) -> (e: VocabError)
        ensures
            e@ == (VocabErrorView {
                code: ErrorCode::MalformedTokenizer,
                token: Some(token),
                detail: detail@,
            }),
    {
        VocabError { code: ErrorCode::MalformedTokenizer, token: Some(token), detail }
    }

    /// Tokenizer data larger than the library accepts.
    pub fn limit_exceeded(detail: &'static str) -> (e: VocabError)
        ensures
            e@ == (VocabErrorView {
                code: ErrorCode::InternalLimitExceeded,
                token: None,
                detail: detail@,
            }),
    {
        VocabError { code: ErrorCode::InternalLimitExceeded, token: None, detail }
    }
}

} // verus!
