//! Vocabularies from what a tokenizer says of its tokens.

use vstd::prelude::*;
use vstd::slice::slice_to_vec;

use crate::vocabulary::{Error, MAX_TOKENIZER_JSON_BYTES, Vocabulary, with_id};

verus! {

/// Checks the length of tokenizer JSON before it is parsed.
pub fn check_json_size(len: usize) -> (r: Result<(), Error>)
    ensures
        r == if len > MAX_TOKENIZER_JSON_BYTES {
            Err::<(), Error>(
                Error::TokenizerJsonTooLarge { actual: len, limit: MAX_TOKENIZER_JSON_BYTES },
            )
        } else {
            Ok(())
        },
{
    if len > MAX_TOKENIZER_JSON_BYTES {
        return Err(
            Error::TokenizerJsonTooLarge { actual: len, limit: MAX_TOKENIZER_JSON_BYTES },
        );
    }
    Ok(())
}

/// The normalizer of a tokenizer, as far as it matters here.
#[derive(Clone, Debug, PartialEq, Eq)]
pub enum NormalizerShape {
    Absent,
    Prepend,
    /// A sequence; for each part, whether it is a `Prepend`.
    Sequence(Vec<bool>),
    Other,
}

/// What is done to a tokenizer's normalizer.
#[derive(Clone, Debug, PartialEq, Eq)]
pub enum NormalizerEdit {
    Keep,
    Clear,
    /// Keep these parts of the sequence, in this order.
    Retain(Vec<usize>),
}

/// `kept` lists, in ascending order, the parts that are not a `Prepend`.
pub open spec fn keeps_others(parts: Seq<bool>, kept: Seq<usize>) -> bool {
    &&& forall|i: int, j: int| 0 <= i < j < kept.len() ==> kept[i] < kept[j]
    &&& forall|i: int| 0 <= i < kept.len() ==> (#[trigger] kept[i]) < parts.len()
    &&& forall|p: int|
        0 <= p < parts.len() ==> kept.contains(p as usize) == !(#[trigger] parts[p])
}

/// Filters out `Prepend` kind of tokenizer's normalizers.
pub fn filter_prepend_normalizers(shape: &NormalizerShape) -> (edit: NormalizerEdit)
    ensures
        match *shape {
            NormalizerShape::Prepend => edit is Clear,
            NormalizerShape::Sequence(parts) => edit matches NormalizerEdit::Retain(kept)
                && keeps_others(parts@, kept@),
            _ => edit is Keep,
        },
{
    match shape {
        NormalizerShape::Prepend => NormalizerEdit::Clear,
        NormalizerShape::Sequence(parts) => {
            let mut kept: Vec<usize> = Vec::new();
            let mut p: usize = 0;
            while p < parts.len()
                invariant
                    p <= parts@.len(),
                    forall|i: int, j: int| 0 <= i < j < kept@.len() ==> kept@[i] < kept@[j],
                    forall|i: int| 0 <= i < kept@.len() ==> (#[trigger] kept@[i]) < p,
                    forall|q: int|
                        0 <= q < p ==> kept@.contains(q as usize) == !(#[trigger] parts@[q]),
                decreases parts@.len() - p,
            {
                let ghost before = kept@;
                if !parts[p] {
                    kept.push(p);
                }
                proof {
                    assert forall|q: int| 0 <= q < p + 1 implies kept@.contains(q as usize) == !(
                    #[trigger] parts@[q]) by {
                        if q < p {
                            if before.contains(q as usize) {
                                let k = before.index_of(q as usize);
                                assert(kept@[k] == q);
                            }
                            if kept@.contains(q as usize) {
                                let k = kept@.index_of(q as usize);
                                assert(before[k] == q);
                            }
                        } else if !parts@[q] {
                            assert(kept@[before.len() as int] == q);
                        } else if kept@.contains(q as usize) {
                            let k = kept@.index_of(q as usize);
                            assert(kept@[k] < p);
                        }
                    }
                }
                p = p + 1;
            }
            NormalizerEdit::Retain(kept)
        },
        _ => NormalizerEdit::Keep,
    }
}

/// A token added to a tokenizer beside its vocabulary.
#[derive(Clone, Debug, PartialEq, Eq)]
pub struct AddedToken {
    pub id: u32,
    pub content: Vec<u8>,
    pub special: bool,
}

/// A token of a tokenizer's vocabulary: the bytes that it was processed to, or why it was not.
#[derive(Debug, PartialEq, Eq)]
pub struct ProcessedToken {
    pub id: u32,
    pub bytes: Result<Vec<u8>, Error>,
}

/// A vocabulary in the making: what it holds so far, or why it failed.
pub enum Progress {
    Holds(Map<Seq<u8>, Seq<u32>>),
    Failed(Error),
}

/// One more token.
pub open spec fn with_token(progress: Progress, token: Seq<u8>, id: u32) -> Progress {
    match progress {
        Progress::Holds(contents) => if token.len() == 0 {
            Progress::Failed(Error::EmptyToken)
        } else {
            Progress::Holds(with_id(contents, token, id))
        },
        Progress::Failed(e) => Progress::Failed(e),
    }
}

/// What the added tokens make: each that is neither special nor the end-of-sequence token.
pub open spec fn after_added(eos: u32, added: Seq<AddedToken>) -> Progress
    decreases added.len(),
{
    if added.len() == 0 {
        Progress::Holds(Map::empty())
    } else {
        let before = after_added(eos, added.drop_last());
        let last = added.last();
        if last.special || last.id == eos {
            before
        } else {
            with_token(before, last.content@, last.id)
        }
    }
}

/// What the vocabulary's tokens make of it: each but the end-of-sequence token.
pub open spec fn after_tokens(eos: u32, start: Progress, tokens: Seq<ProcessedToken>) -> Progress
    decreases tokens.len(),
{
    if tokens.len() == 0 {
        start
    } else {
        let before = after_tokens(eos, start, tokens.drop_last());
        let last = tokens.last();
        if last.id == eos || before is Failed {
            before
        } else {
            match last.bytes {
                Ok(bytes) => with_token(before, bytes@, last.id),
                Err(e) => Progress::Failed(e),
            }
        }
    }
}

proof fn added_failure_stays(eos: u32, added: Seq<AddedToken>, n: int)
    requires
        0 <= n <= added.len(),
        after_added(eos, added.take(n)) is Failed,
    ensures
        after_added(eos, added) == after_added(eos, added.take(n)),
    decreases added.len() - n,
{
    if n < added.len() {
        assert(added.take(n + 1).drop_last() =~= added.take(n));
        added_failure_stays(eos, added, n + 1);
    } else {
        assert(added.take(n) =~= added);
    }
}

proof fn token_failure_stays(eos: u32, start: Progress, tokens: Seq<ProcessedToken>, n: int)
    requires
        0 <= n <= tokens.len(),
        after_tokens(eos, start, tokens.take(n)) is Failed,
    ensures
        after_tokens(eos, start, tokens) == after_tokens(eos, start, tokens.take(n)),
    decreases tokens.len() - n,
{
    if n < tokens.len() {
        assert(tokens.take(n + 1).drop_last() =~= tokens.take(n));
        token_failure_stays(eos, start, tokens, n + 1);
    } else {
        assert(tokens.take(n) =~= tokens);
    }
}

fn copy_error(e: &Error) -> (copy: Error)
    ensures
        same_error(copy, *e),
{
    match e {
        Error::EOSTokenDisallowed => Error::EOSTokenDisallowed,
        Error::EmptyToken => Error::EmptyToken,
        Error::EmptyTokenIds => Error::EmptyTokenIds,
        Error::TokenizersError(words) => Error::TokenizersError(words.as_str().to_owned()),
        Error::UnsupportedTokenizer { model, reason } => Error::UnsupportedTokenizer {
            model: model.as_str().to_owned(),
            reason: reason.as_str().to_owned(),
        },
        Error::UnsupportedByTokenProcessor => Error::UnsupportedByTokenProcessor,
        Error::DecoderUnpackingFailed => Error::DecoderUnpackingFailed,
        Error::ByteProcessorFailed => Error::ByteProcessorFailed,
        Error::ByteFallbackProcessorFailed => Error::ByteFallbackProcessorFailed,
        Error::TokenizerJsonTooLarge { actual, limit } => Error::TokenizerJsonTooLarge {
            actual: *actual,
            limit: *limit,
        },
    }
}

/// Two errors say the same.
pub open spec fn same_error(a: Error, b: Error) -> bool {
    match (a, b) {
        (Error::TokenizersError(x), Error::TokenizersError(y)) => x@ == y@,
        (
            Error::UnsupportedTokenizer { model: m, reason: r },
            Error::UnsupportedTokenizer { model: n, reason: s },
        ) => m@ == n@ && r@ == s@,
        _ => a == b,
    }
}

/// Adds the tokens that were added beside the vocabulary.
fn insert_added(eos_token_id: u32, added: &Vec<AddedToken>) -> (r: Result<Vocabulary, Error>)
    ensures
        match after_added(eos_token_id, added@) {
            Progress::Holds(contents) => r is Ok && r->Ok_0.eos() == eos_token_id
                && r->Ok_0.contents() == contents,
            Progress::Failed(e) => r is Err && r->Err_0 == e,
        },
{
    let mut vocabulary: Vocabulary = Vocabulary::new(eos_token_id);
    let mut i: usize = 0;
    while i < added.len()
        invariant
            i <= added@.len(),
            vocabulary.eos() == eos_token_id,
            after_added(eos_token_id, added@.take(i as int)) == Progress::Holds(
                vocabulary.contents(),
            ),
        decreases added@.len() - i,
    {
        proof {
            assert(added@.take(i + 1).drop_last() =~= added@.take(i as int));
        }
        let token: &AddedToken = &added[i];
        if !token.special && token.id != eos_token_id {
            match vocabulary.try_insert(slice_to_vec(token.content.as_slice()), token.id) {
                Ok(()) => {},
                Err(e) => {
                    proof {
                        added_failure_stays(eos_token_id, added@, i + 1);
                    }
                    return Err(e);
                },
            }
        }
        i = i + 1;
    }
    assert(added@.take(i as int) =~= added@);
    Ok(vocabulary)
}

/// What a tokenizer makes, or why it makes nothing.
pub open spec fn tokenizer_outcome(
    eos: u32,
    source: Seq<char>,
    added: Seq<AddedToken>,
    tokens: Option<Seq<ProcessedToken>>,
    r: Result<Vocabulary, Error>,
) -> bool {
    match after_added(eos, added) {
        Progress::Failed(e) => r is Err && same_error(r->Err_0, e),
        Progress::Holds(contents) => match tokens {
            None => r matches Err(Error::UnsupportedTokenizer { model, reason }) && model@
                == source && reason@ == "Token processor"@,
            Some(tokens) => match after_tokens(eos, Progress::Holds(contents), tokens) {
                Progress::Failed(e) => r is Err && same_error(r->Err_0, e),
                Progress::Holds(all) => r is Ok && r->Ok_0.eos() == eos && r->Ok_0.contents()
                    == all,
            },
        },
    }
}

/// What tokenizer data says: the tokens added beside the vocabulary, and the processed tokens of
/// the vocabulary, absent where no token processor supports the tokenizer.
#[derive(Debug, PartialEq, Eq)]
pub struct TokenizerTables {
    pub added: Vec<AddedToken>,
    pub tokens: Option<Vec<ProcessedToken>>,
}

/// What tokenizer JSON makes, or why it makes nothing. `tables` is what the tokenizer library read
/// in it, or its words of refusal.
pub open spec fn tokenizer_json_outcome(
    json_len: usize,
    eos: u32,
    tables: Result<TokenizerTables, String>,
    r: Result<Vocabulary, Error>,
) -> bool {
    if json_len > MAX_TOKENIZER_JSON_BYTES {
        r == Err::<Vocabulary, Error>(
            Error::TokenizerJsonTooLarge { actual: json_len, limit: MAX_TOKENIZER_JSON_BYTES },
        )
    } else {
        match tables {
            Err(words) => r == Err::<Vocabulary, Error>(Error::TokenizersError(words)),
            Ok(t) => tokenizer_outcome(
                eos,
                "<inline tokenizer JSON>"@,
                t.added@,
                match t.tokens {
                    Some(tokens) => Some(tokens@),
                    None => None,
                },
                r,
            ),
        }
    }
}

impl Vocabulary {
    /// Builds from fast-tokenizer JSON of `json_len` bytes, once it has been read, with a
    /// caller-resolved EOS id. Oversized input is rejected whatever was read in it.
    pub fn from_tokenizer_json(
        json_len: usize,
        eos_token_id: u32,
        tables: Result<TokenizerTables, String>,
    ) -> (r: Result<Vocabulary, Error>)
        ensures
            tokenizer_json_outcome(json_len, eos_token_id, tables, r),
    {
        match check_json_size(json_len) {
            Ok(()) => {},
            Err(e) => {
                return Err(e);
            },
        }
        match tables {
            Ok(t) => match &t.tokens {
                Some(tokens) => Self::from_tokenizer(
                    eos_token_id,
                    "<inline tokenizer JSON>",
                    &t.added,
                    Some(tokens),
                ),
                None => Self::from_tokenizer(
                    eos_token_id,
                    "<inline tokenizer JSON>",
                    &t.added,
                    None,
                ),
            },
            Err(words) => Err(Error::TokenizersError(words)),
        }
    }

    /// The one token-processing pipeline that all tokenizer constructors share. `tokens` is absent
    /// where no token processor supports the tokenizer.
    pub fn from_tokenizer(
        eos_token_id: u32,
        source: &str,
        added: &Vec<AddedToken>,
        tokens: Option<&Vec<ProcessedToken>>,
    ) -> (r: Result<Vocabulary, Error>)
        ensures
            tokenizer_outcome(
                eos_token_id,
                source@,
                added@,
                match tokens {
                    Some(t) => Some(t@),
                    None => None,
                },
                r,
            ),
    {
        let mut vocabulary: Vocabulary = match insert_added(eos_token_id, added) {
            Ok(v) => v,
            Err(e) => {
                return Err(e);
            },
        };
        let ghost start = Progress::Holds(vocabulary.contents());
        let list: &Vec<ProcessedToken> = match tokens {
            Some(list) => list,
            None => {
                return Err(
                    Error::UnsupportedTokenizer {
                        model: source.to_owned(),
                        reason: "Token processor".to_owned(),
                    },
                );
            },
        };
        let mut i: usize = 0;
        while i < list.len()
            invariant
                i <= list@.len(),
                tokens == Some(list),
                vocabulary.eos() == eos_token_id,
                after_added(eos_token_id, added@) == start,
                start is Holds,
                after_tokens(eos_token_id, start, list@.take(i as int)) == Progress::Holds(
                    vocabulary.contents(),
                ),
            decreases list@.len() - i,
        {
            proof {
                assert(list@.take(i + 1).drop_last() =~= list@.take(i as int));
                if after_tokens(eos_token_id, start, list@.take(i + 1)) is Failed {
                    token_failure_stays(eos_token_id, start, list@, i + 1);
                }
            }
            let token: &ProcessedToken = &list[i];
            if token.id != eos_token_id {
                match &token.bytes {
                    Ok(bytes) => {
                        match vocabulary.try_insert(slice_to_vec(bytes.as_slice()), token.id) {
                            Ok(()) => {},
                            Err(e) => {
                                return Err(e);
                            },
                        }
                    },
                    Err(e) => {
                        return Err(copy_error(e));
                    },
                }
            }
            i = i + 1;
        }
        assert(list@.take(i as int) =~= list@);
        Ok(vocabulary)
    }
}

} // verus!
