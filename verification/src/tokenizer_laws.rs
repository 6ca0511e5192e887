//! What a tokenizer's tokens make, said of the two lists of them.

use vstd::prelude::*;

use crate::tokenizer_source::{
    AddedToken, ProcessedToken, Progress, TokenizerTables, after_added, after_tokens, keeps_others,
    tokenizer_json_outcome, tokenizer_outcome,
};
use crate::vocabulary::{Error, Vocabulary, with_id};

verus! {

/// Some added token that is not special has the bytes `key` and the id `id`.
pub open spec fn adds(added: Seq<AddedToken>, key: Seq<u8>, id: u32) -> bool {
    exists|i: int|
        {
            &&& 0 <= i < added.len()
            &&& !(#[trigger] added[i]).special
            &&& added[i].content@ == key
            &&& added[i].id == id
        }
}

/// Some token of the vocabulary was processed to the bytes `key` and has the id `id`.
pub open spec fn processes(tokens: Seq<ProcessedToken>, key: Seq<u8>, id: u32) -> bool {
    exists|i: int|
        {
            &&& 0 <= i < tokens.len()
            &&& (#[trigger] tokens[i]).bytes is Ok
            &&& tokens[i].bytes->Ok_0@ == key
            &&& tokens[i].id == id
        }
}

/// An added token that enters the vocabulary has bytes.
pub open spec fn adds_well(t: AddedToken, eos: u32) -> bool {
    t.special || t.id == eos || t.content@.len() > 0
}

/// A token that enters the vocabulary was processed, to at least one byte.
pub open spec fn processed_well(t: ProcessedToken, eos: u32) -> bool {
    t.id == eos || (t.bytes is Ok && t.bytes->Ok_0@.len() > 0)
}

/// `id` is one of the ids of `key`.
pub open spec fn gives(contents: Map<Seq<u8>, Seq<u32>>, key: Seq<u8>, id: u32) -> bool {
    contents.contains_key(key) && exists|p: int|
        0 <= p < contents[key].len() && #[trigger] contents[key][p] == id
}

proof fn one_more(
    contents: Map<Seq<u8>, Seq<u32>>,
    token: Seq<u8>,
    new: u32,
    key: Seq<u8>,
    id: u32,
)
    ensures
        gives(with_id(contents, token, new), key, id) <==> gives(contents, key, id) || (key == token
            && id == new),
{
    let grown = with_id(contents, token, new);
    if key == token {
        if !contents.contains_key(token) {
            assert(grown[key] == seq![new]);
            assert(grown[key][0] == new);
        } else if contents[token].contains(new) {
            let p = contents[token].index_of(new);
            assert(contents[token][p] == new);
        } else {
            let old_ids = contents[token];
            assert(grown[key] == old_ids.push(new));
            assert(grown[key][old_ids.len() as int] == new);
            if gives(contents, key, id) {
                let p = choose|p: int| 0 <= p < old_ids.len() && #[trigger] old_ids[p] == id;
                assert(grown[key][p] == id);
            }
            if gives(grown, key, id) {
                let p = choose|p: int| 0 <= p < grown[key].len() && #[trigger] grown[key][p] == id;
                if p < old_ids.len() {
                    assert(old_ids[p] == id);
                }
            }
        }
    } else {
        assert(grown.contains_key(key) == contents.contains_key(key));
        if contents.contains_key(key) {
            assert(grown[key] == contents[key]);
        }
    }
}

proof fn added_give(eos: u32, added: Seq<AddedToken>, key: Seq<u8>, id: u32)
    requires
        forall|i: int| 0 <= i < added.len() ==> adds_well(#[trigger] added[i], eos),
    ensures
        after_added(eos, added) matches Progress::Holds(contents) && (gives(contents, key, id)
            <==> id != eos && adds(added, key, id)),
    decreases added.len(),
{
    if added.len() == 0 {
    } else {
        let front = added.drop_last();
        let last = added.last();
        assert forall|i: int| 0 <= i < front.len() implies adds_well(#[trigger] front[i], eos) by {
            assert(front[i] == added[i]);
        }
        added_give(eos, front, key, id);
        assert(added[added.len() - 1] == last);
        let before = after_added(eos, front)->Holds_0;
        one_more(before, last.content@, last.id, key, id);
        if adds(front, key, id) {
            let i = choose|i: int|
                {
                    &&& 0 <= i < front.len()
                    &&& !(#[trigger] front[i]).special
                    &&& front[i].content@ == key
                    &&& front[i].id == id
                };
            assert(added[i] == front[i]);
        }
        if adds(added, key, id) {
            let i = choose|i: int|
                {
                    &&& 0 <= i < added.len()
                    &&& !(#[trigger] added[i]).special
                    &&& added[i].content@ == key
                    &&& added[i].id == id
                };
            if i < front.len() {
                assert(front[i] == added[i]);
            }
        }
    }
}

proof fn tokens_give(
    eos: u32,
    start: Map<Seq<u8>, Seq<u32>>,
    tokens: Seq<ProcessedToken>,
    key: Seq<u8>,
    id: u32,
)
    requires
        forall|i: int| 0 <= i < tokens.len() ==> processed_well(#[trigger] tokens[i], eos),
    ensures
        after_tokens(eos, Progress::Holds(start), tokens) matches Progress::Holds(contents) && (
        gives(contents, key, id) <==> gives(start, key, id) || (id != eos && processes(
            tokens,
            key,
            id,
        ))),
    decreases tokens.len(),
{
    if tokens.len() == 0 {
    } else {
        let front = tokens.drop_last();
        let last = tokens.last();
        assert forall|i: int| 0 <= i < front.len() implies processed_well(
            #[trigger] front[i],
            eos,
        ) by {
            assert(front[i] == tokens[i]);
        }
        tokens_give(eos, start, front, key, id);
        assert(tokens[tokens.len() - 1] == last);
        let before = after_tokens(eos, Progress::Holds(start), front)->Holds_0;
        if last.id != eos {
            one_more(before, last.bytes->Ok_0@, last.id, key, id);
        }
        if processes(front, key, id) {
            let i = choose|i: int|
                {
                    &&& 0 <= i < front.len()
                    &&& (#[trigger] front[i]).bytes is Ok
                    &&& front[i].bytes->Ok_0@ == key
                    &&& front[i].id == id
                };
            assert(tokens[i] == front[i]);
        }
        if processes(tokens, key, id) {
            let i = choose|i: int|
                {
                    &&& 0 <= i < tokens.len()
                    &&& (#[trigger] tokens[i]).bytes is Ok
                    &&& tokens[i].bytes->Ok_0@ == key
                    &&& tokens[i].id == id
                };
            if i < front.len() {
                assert(front[i] == tokens[i]);
            }
        }
    }
}

/// Where every token that enters was processed and none is empty, a vocabulary is built, and it
/// gives the byte string `key` the id `id` exactly where an added token that is not special, or a
/// token of the vocabulary, has these bytes and that id, and the id is not the end-of-sequence id.
pub proof fn tokenizers_give_what_they_list(
    eos: u32,
    source: Seq<char>,
    added: Seq<AddedToken>,
    tokens: Seq<ProcessedToken>,
    r: Result<Vocabulary, Error>,
    key: Seq<u8>,
    id: u32,
)
    requires
        tokenizer_outcome(eos, source, added, Some(tokens), r),
        forall|i: int| 0 <= i < added.len() ==> adds_well(#[trigger] added[i], eos),
        forall|i: int| 0 <= i < tokens.len() ==> processed_well(#[trigger] tokens[i], eos),
    ensures
        r is Ok,
        r->Ok_0.eos() == eos,
        gives(r->Ok_0.contents(), key, id) <==> id != eos && (adds(added, key, id) || processes(
            tokens,
            key,
            id,
        )),
{
    added_give(eos, added, key, id);
    let start = after_added(eos, added)->Holds_0;
    tokens_give(eos, start, tokens, key, id);
}

proof fn first_bad_added(eos: u32, added: Seq<AddedToken>, n: int)
    requires
        0 <= n < added.len(),
        forall|i: int| 0 <= i < n ==> adds_well(#[trigger] added[i], eos),
        !adds_well(added[n], eos),
    ensures
        after_added(eos, added) == Progress::Failed(Error::EmptyToken),
    decreases added.len(),
{
    let front = added.drop_last();
    if n < front.len() {
        assert(front[n] == added[n]);
        assert forall|i: int| 0 <= i < n implies adds_well(#[trigger] front[i], eos) by {
            assert(front[i] == added[i]);
        }
        first_bad_added(eos, front, n);
    } else {
        assert forall|i: int| 0 <= i < front.len() implies adds_well(#[trigger] front[i], eos) by {
            assert(front[i] == added[i]);
        }
        added_give(eos, front, seq![], eos);
    }
}

proof fn first_bad_token(
    eos: u32,
    start: Map<Seq<u8>, Seq<u32>>,
    tokens: Seq<ProcessedToken>,
    n: int,
)
    requires
        0 <= n < tokens.len(),
        forall|i: int| 0 <= i < n ==> processed_well(#[trigger] tokens[i], eos),
        !processed_well(tokens[n], eos),
    ensures
        after_tokens(eos, Progress::Holds(start), tokens) == Progress::Failed(
            match tokens[n].bytes {
                Ok(_) => Error::EmptyToken,
                Err(e) => e,
            },
        ),
    decreases tokens.len(),
{
    let front = tokens.drop_last();
    if n < front.len() {
        assert(front[n] == tokens[n]);
        assert forall|i: int| 0 <= i < n implies processed_well(#[trigger] front[i], eos) by {
            assert(front[i] == tokens[i]);
        }
        first_bad_token(eos, start, front, n);
    } else {
        assert forall|i: int| 0 <= i < front.len() implies processed_well(
            #[trigger] front[i],
            eos,
        ) by {
            assert(front[i] == tokens[i]);
        }
        tokens_give(eos, start, front, seq![], eos);
    }
}

/// An added token without bytes fails the build, unless it is special or the end-of-sequence
/// token, whatever the vocabulary holds.
pub proof fn empty_added_tokens_fail(
    eos: u32,
    source: Seq<char>,
    added: Seq<AddedToken>,
    tokens: Option<Seq<ProcessedToken>>,
    r: Result<Vocabulary, Error>,
)
    requires
        tokenizer_outcome(eos, source, added, tokens, r),
        exists|i: int| 0 <= i < added.len() && !adds_well(#[trigger] added[i], eos),
    ensures
        r == Err::<Vocabulary, Error>(Error::EmptyToken),
{
    let i = choose|i: int| 0 <= i < added.len() && !adds_well(#[trigger] added[i], eos);
    let n = first_bad(added, eos, i);
    first_bad_added(eos, added, n);
}

proof fn first_bad(added: Seq<AddedToken>, eos: u32, i: int) -> (n: int)
    requires
        0 <= i < added.len(),
        !adds_well(added[i], eos),
    ensures
        0 <= n < added.len(),
        !adds_well(added[n], eos),
        forall|k: int| 0 <= k < n ==> adds_well(#[trigger] added[k], eos),
    decreases i,
{
    if exists|k: int| 0 <= k < i && !adds_well(#[trigger] added[k], eos) {
        let k = choose|k: int| 0 <= k < i && !adds_well(#[trigger] added[k], eos);
        first_bad(added, eos, k)
    } else {
        i
    }
}

/// Where no added token fails, a tokenizer without a token processor is unsupported, and else the
/// first token that was not processed, or was processed to nothing, fails the build with its own
/// error.
pub proof fn the_first_bad_token_fails(
    eos: u32,
    source: Seq<char>,
    added: Seq<AddedToken>,
    tokens: Option<Seq<ProcessedToken>>,
    r: Result<Vocabulary, Error>,
    n: int,
)
    requires
        tokenizer_outcome(eos, source, added, tokens, r),
        forall|i: int| 0 <= i < added.len() ==> adds_well(#[trigger] added[i], eos),
        tokens matches Some(list) ==> 0 <= n < list.len() && !processed_well(list[n], eos) && (
        forall|i: int| 0 <= i < n ==> processed_well(#[trigger] list[i], eos)),
    ensures
        match tokens {
            None => r matches Err(Error::UnsupportedTokenizer { model, reason }) && model@ == source
                && reason@ == "Token processor"@,
            Some(list) => match list[n].bytes {
                Ok(_) => r == Err::<Vocabulary, Error>(Error::EmptyToken),
                Err(e) => match e {
                    Error::TokenizersError(words) => r matches Err(Error::TokenizersError(w)) && w@
                        == words@,
                    Error::UnsupportedTokenizer { model, reason } => r matches Err(
                        Error::UnsupportedTokenizer { model: m, reason: x },
                    ) && m@ == model@ && x@ == reason@,
                    _ => r == Err::<Vocabulary, Error>(e),
                },
            },
        },
{
    added_give(eos, added, seq![], eos);
    if tokens is Some {
        first_bad_token(eos, after_added(eos, added)->Holds_0, tokens->Some_0, n);
    }
}

/// Tokenizer JSON of more than 64 MiB is refused unread, JSON that the library does not read is
/// refused with its words, and any other makes what its tables make.
pub proof fn tokenizer_json_is_bounded(
    json_len: usize,
    eos: u32,
    tables: Result<TokenizerTables, String>,
    r: Result<Vocabulary, Error>,
)
    requires
        tokenizer_json_outcome(json_len, eos, tables, r),
    ensures
        json_len > 64 * 1024 * 1024 ==> r == Err::<Vocabulary, Error>(
            Error::TokenizerJsonTooLarge { actual: json_len, limit: 67_108_864 },
        ),
        json_len <= 64 * 1024 * 1024 && tables is Err ==> r == Err::<Vocabulary, Error>(
            Error::TokenizersError(tables->Err_0),
        ),
        json_len <= 64 * 1024 * 1024 && tables is Ok ==> tokenizer_outcome(
            eos,
            "<inline tokenizer JSON>"@,
            tables->Ok_0.added@,
            match tables->Ok_0.tokens {
                Some(tokens) => Some(tokens@),
                None => None,
            },
            r,
        ),
{
}

/// The positions that are kept of a sequence of normalizers are those of the ones that are not
/// `Prepend`, in their order.
pub proof fn kept_normalizers_are_the_others(parts: Seq<bool>, kept: Seq<usize>)
    requires
        keeps_others(parts, kept),
        parts.len() <= usize::MAX,
    ensures
        forall|p: int|
            0 <= p < parts.len() && !(#[trigger] parts[p]) ==> exists|k: int|
                0 <= k < kept.len() && #[trigger] kept[k] == p,
        forall|k: int|
            0 <= k < kept.len() ==> 0 <= (#[trigger] kept[k]) < parts.len()
                && !parts[kept[k] as int],
        forall|j: int, k: int|
            0 <= j < k < kept.len() ==> (#[trigger] kept[j]) < (#[trigger] kept[k]),
{
    assert forall|p: int| 0 <= p < parts.len() && !(#[trigger] parts[p]) implies exists|k: int|
        0 <= k < kept.len() && #[trigger] kept[k] == p by {
        assert(kept.contains(p as usize));
        let k = kept.index_of(p as usize);
        assert(kept[k] == p);
    }
    assert forall|k: int| 0 <= k < kept.len() implies 0 <= (#[trigger] kept[k]) < parts.len()
        && !parts[kept[k] as int] by {
        assert(kept.contains(kept[k]));
        assert(kept[k] as int as usize == kept[k]);
        assert(kept.contains((kept[k] as int) as usize) == !parts[kept[k] as int]);
    }
}

} // verus!
