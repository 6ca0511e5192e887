//! What vocabularies hold after each operation, said of the tokens and ids that were given.

use vstd::prelude::*;
use vstd::utf8::encode_utf8;

use crate::bench::numbered;
use crate::error::ErrorCode;
use crate::records::{assigns, assigns_at, totals_push};
use crate::report::CoreError;
use crate::token_map::{
    first_occurrences, first_occurrences_of_distinct, first_occurrences_properties, listing_totals,
    lists, map_assigns, map_bytes_total, map_ids_total,
};
use crate::vocab_build::{core_outcome, merged, merging_keeps_assignments, public_error};
use crate::vocabulary::{
    Error, Vocabulary, distinct_ids, encoded_keys, encoding_is_injective, insertion_outcome,
    raw_map_fault, with_id,
};
use crate::wire_laws::{four_bytes, little_endian_numbers};

verus! {

/// `id` is one of the ids of `key`.
pub open spec fn gives_id(contents: Map<Seq<u8>, Seq<u32>>, key: Seq<u8>, id: u32) -> bool {
    contents.contains_key(key) && exists|p: int|
        0 <= p < contents[key].len() && #[trigger] contents[key][p] == id
}

/// An insertion gives the token the id and changes nothing else: every other token and id is as it
/// was, ids that were there stay at their places, and a new one comes last.
pub proof fn insertion_adds_one_id(
    contents: Map<Seq<u8>, Seq<u32>>,
    token: Seq<u8>,
    new: u32,
    key: Seq<u8>,
    id: u32,
)
    ensures
        gives_id(with_id(contents, token, new), key, id) <==> gives_id(contents, key, id) || (key
            == token && id == new),
        with_id(contents, token, new).contains_key(key) <==> contents.contains_key(key) || key
            == token,
        contents.contains_key(key) ==> contents[key].len() <= with_id(
            contents,
            token,
            new,
        )[key].len() && with_id(contents, token, new)[key].take(contents[key].len() as int)
            == contents[key],
        !gives_id(contents, token, new) ==> with_id(contents, token, new)[token].last() == new
            && with_id(contents, token, new)[token].len() == 1 + if contents.contains_key(token) {
            contents[token].len() as int
        } else {
            0
        },
        gives_id(contents, token, new) ==> with_id(contents, token, new) == contents,
{
    let grown = with_id(contents, token, new);
    if contents.contains_key(token) && contents[token].contains(new) {
        let p = contents[token].index_of(new);
        assert(contents[token][p] == new);
    }
    if contents.contains_key(key) {
        if key == token && !contents[token].contains(new) {
            assert(grown[key].take(contents[key].len() as int) =~= contents[key]);
        } else {
            assert(grown[key].take(contents[key].len() as int) =~= contents[key]);
        }
    }
    if key == token {
        if !contents.contains_key(token) {
            assert(grown[key] == seq![new]);
            assert(grown[key][0] == new);
        } else if !contents[token].contains(new) {
            let old_ids = contents[token];
            assert(grown[key] == old_ids.push(new));
            assert(grown[key][old_ids.len() as int] == new);
            if gives_id(contents, key, id) {
                let p = choose|p: int| 0 <= p < old_ids.len() && #[trigger] old_ids[p] == id;
                assert(grown[key][p] == id);
            }
            if gives_id(grown, key, id) {
                let p = choose|p: int| 0 <= p < grown[key].len() && #[trigger] grown[key][p] == id;
                if p < old_ids.len() {
                    assert(old_ids[p] == id);
                }
            }
        }
    }
    if gives_id(contents, token, new) {
        let p = choose|p: int| 0 <= p < contents[token].len() && #[trigger] contents[token][p]
            == new;
        assert(contents[token].contains(new));
    } else if contents.contains_key(token) {
        assert(!contents[token].contains(new));
    }
}

/// An insertion is refused exactly for the end-of-sequence id, which comes first, and for a token
/// without bytes.
pub proof fn insertions_are_refused_in_order(eos: u32, token: Seq<u8>, id: u32)
    ensures
        insertion_outcome(eos, token, id) is Ok <==> id != eos && token.len() > 0,
        id == eos ==> insertion_outcome(eos, token, id) == Err::<(), Error>(
            Error::EOSTokenDisallowed,
        ),
        id != eos && token.len() == 0 ==> insertion_outcome(eos, token, id) == Err::<(), Error>(
            Error::EmptyToken,
        ),
{
}

/// Insertions of different ids commute, as far as which ids a token has.
pub proof fn insertions_commute(
    contents: Map<Seq<u8>, Seq<u32>>,
    a: Seq<u8>,
    x: u32,
    b: Seq<u8>,
    y: u32,
    key: Seq<u8>,
    id: u32,
)
    ensures
        gives_id(with_id(with_id(contents, a, x), b, y), key, id) == gives_id(
            with_id(with_id(contents, b, y), a, x),
            key,
            id,
        ),
{
    insertion_adds_one_id(contents, a, x, key, id);
    insertion_adds_one_id(with_id(contents, a, x), b, y, key, id);
    insertion_adds_one_id(contents, b, y, key, id);
    insertion_adds_one_id(with_id(contents, b, y), a, x, key, id);
}

/// A token map is accepted exactly where no token is empty, every token has an id, and none has
/// the end-of-sequence id; else the first of these faults, in this order, is reported.
pub proof fn token_maps_are_refused_in_order(eos: u32, contents: Map<Seq<u8>, Seq<u32>>)
    ensures
        ({
            let fault = raw_map_fault(eos, contents);
            let a = forall|token: Seq<u8>| #[trigger]
                contents.contains_key(token) ==> token.len() > 0;
            let b = a && forall|token: Seq<u8>| #[trigger]
                contents.contains_key(token) ==> contents[token].len() > 0;
            let c = b && forall|token: Seq<u8>, p: int|
                contents.contains_key(token) && 0 <= p < contents[token].len()
                    ==> #[trigger] contents[token][p] != eos;
            &&& !a ==> fault == Some(Error::EmptyToken)
            &&& a && !b ==> fault == Some(Error::EmptyTokenIds)
            &&& b && !c ==> fault == Some(Error::EOSTokenDisallowed)
            &&& c ==> fault is None
        }),
{
    let d = forall|token: Seq<u8>, p: int|
        contents.contains_key(token) && 0 <= p < contents[token].len()
            ==> #[trigger] contents[token][p] != eos;
    if exists|token: Seq<u8>| #[trigger]
        contents.contains_key(token) && contents[token].contains(eos) {
        let token = choose|token: Seq<u8>| #[trigger]
            contents.contains_key(token) && contents[token].contains(eos);
        let p = contents[token].index_of(eos);
        assert(contents[token][p] == eos);
        assert(!d);
    } else {
        assert forall|token: Seq<u8>, p: int|
            contents.contains_key(token) && 0 <= p
                < contents[token].len() implies #[trigger] contents[token][p] != eos by {
            if contents[token][p] == eos {
                assert(contents[token].contains(eos));
            }
        }
        assert(d);
    }
}

/// Dropping repeated ids keeps the members, repeats none, and leaves them in the order in which
/// they first came: some occurrence of an id that is kept earlier precedes every occurrence of one
/// that is kept later.
pub proof fn repeated_ids_are_dropped(ids: Seq<u32>)
    ensures
        forall|id: u32|
            (exists|p: int|
                0 <= p < first_occurrences(ids).len() && #[trigger] first_occurrences(ids)[p] == id)
                <==> #[trigger] ids.contains(id),
        forall|p: int, q: int|
            0 <= p < q < first_occurrences(ids).len() ==> #[trigger] comes_first(
                ids,
                first_occurrences(ids)[p],
                first_occurrences(ids)[q],
            ),
    decreases ids.len(),
{
    first_occurrences_properties(ids);
    let kept = first_occurrences(ids);
    assert forall|id: u32|
        (exists|p: int| 0 <= p < kept.len() && #[trigger] kept[p] == id)
            <==> #[trigger] ids.contains(id) by {
        if ids.contains(id) {
            assert(kept.contains(id));
            let p = kept.index_of(id);
            assert(kept[p] == id);
        }
        if exists|p: int| 0 <= p < kept.len() && #[trigger] kept[p] == id {
            let p = choose|p: int| 0 <= p < kept.len() && #[trigger] kept[p] == id;
            assert(kept.contains(id));
        }
    }
    if ids.len() > 0 {
        let front = ids.drop_last();
        let rest = first_occurrences(front);
        let n = ids.len() - 1;
        repeated_ids_are_dropped(front);
        first_occurrences_properties(front);
        assert forall|p: int, q: int| 0 <= p < q < kept.len() implies #[trigger] comes_first(
            ids,
            kept[p],
            kept[q],
        ) by {
            assert(kept[p] == rest[p]);
            if q < rest.len() {
                assert(kept[q] == rest[q]);
                assert(comes_first(front, rest[p], rest[q]));
                let i = choose|i: int| #[trigger] precedes_all(front, i, rest[p], rest[q]);
                assert forall|j: int| 0 <= j < ids.len() && #[trigger] ids[j]
                    == kept[q] implies i < j by {
                    if j < n {
                        assert(front[j] == ids[j]);
                    }
                }
                assert(ids[i] == front[i]);
                assert(precedes_all(ids, i, kept[p], kept[q]));
            } else {
                assert(kept[q] == ids.last());
                assert(!rest.contains(ids.last()));
                assert(rest.contains(rest[p]));
                assert(front.contains(rest[p]));
                let i = front.index_of(rest[p]);
                assert forall|j: int| 0 <= j < ids.len() && #[trigger] ids[j]
                    == kept[q] implies i < j by {
                    if j < n {
                        assert(front[j] == ids[j]);
                        assert(front.contains(ids.last()));
                    }
                }
                assert(ids[i] == front[i]);
                assert(precedes_all(ids, i, kept[p], kept[q]));
            }
        }
    }
}

/// The place `i` holds `a` and comes before every place of `b`.
pub open spec fn precedes_all(ids: Seq<u32>, i: int, a: u32, b: u32) -> bool {
    &&& 0 <= i < ids.len()
    &&& ids[i] == a
    &&& forall|j: int| 0 <= j < ids.len() && #[trigger] ids[j] == b ==> i < j
}

/// `a` occurs before `b` does.
pub open spec fn comes_first(ids: Seq<u32>, a: u32, b: u32) -> bool {
    exists|i: int| #[trigger] precedes_all(ids, i, a, b)
}

/// What a map is taken as has the map's tokens, and for each the map's ids without repeats.
pub proof fn taken_maps_keep_tokens_and_ids(
    contents: Map<Seq<u8>, Seq<u32>>,
    key: Seq<u8>,
    id: u32,
)
    ensures
        distinct_ids(contents).contains_key(key) <==> contents.contains_key(key),
        gives_id(distinct_ids(contents), key, id) <==> gives_id(contents, key, id),
        contents.contains_key(key) ==> distinct_ids(contents)[key].no_duplicates(),
        contents.contains_key(key) && contents[key].no_duplicates() ==> distinct_ids(contents)[key]
            == contents[key],
{
    if contents.contains_key(key) {
        let ids = contents[key];
        first_occurrences_properties(ids);
        let kept = first_occurrences(ids);
        if ids.no_duplicates() {
            first_occurrences_of_distinct(ids);
        }
        if gives_id(contents, key, id) {
            let p = choose|p: int| 0 <= p < ids.len() && #[trigger] ids[p] == id;
            assert(ids.contains(id));
            assert(kept.contains(id));
            let q = kept.index_of(id);
            assert(distinct_ids(contents)[key][q] == id);
        }
        if gives_id(distinct_ids(contents), key, id) {
            let q = choose|q: int| 0 <= q < kept.len() && #[trigger] kept[q] == id;
            assert(kept.contains(id));
            assert(ids.contains(id));
            let p = ids.index_of(id);
            assert(contents[key][p] == id);
        }
    }
}

/// A map keyed by texts is taken as the one keyed by their UTF-8 bytes, with the same ids.
pub proof fn texts_are_taken_as_their_bytes(
    contents: Map<Seq<char>, Seq<u32>>,
    text: Seq<char>,
    key: Seq<u8>,
)
    ensures
        contents.contains_key(text) ==> encoded_keys(contents).contains_key(encode_utf8(text))
            && encoded_keys(contents)[encode_utf8(text)] == contents[text],
        encoded_keys(contents).contains_key(key) ==> exists|t: Seq<char>| #[trigger]
            contents.contains_key(t) && encode_utf8(t) == key,
{
    if contents.contains_key(text) {
        let token = encode_utf8(text);
        let t = choose|t: Seq<char>| #[trigger]
            contents.contains_key(t) && encode_utf8(t) == token;
        encoding_is_injective(t, text);
    }
}

/// The length of a vocabulary counts every id of every token: none for an empty one, and as many
/// more as a new token has ids.
pub proof fn lengths_count_every_id(
    entries: Seq<(Seq<u8>, Seq<u32>)>,
    contents: Map<Seq<u8>, Seq<u32>>,
    token: Seq<u8>,
    ids: Seq<u32>,
)
    requires
        lists(entries, contents),
        !contents.contains_key(token),
    ensures
        map_ids_total(Map::<Seq<u8>, Seq<u32>>::empty()) == 0,
        map_ids_total(contents.insert(token, ids)) == map_ids_total(contents) + ids.len(),
        map_bytes_total(Map::<Seq<u8>, Seq<u32>>::empty()) == 0,
        map_bytes_total(contents.insert(token, ids)) == map_bytes_total(contents) + token.len(),
{
    let none = Seq::<(Seq<u8>, Seq<u32>)>::empty();
    assert(lists(none, Map::<Seq<u8>, Seq<u32>>::empty()));
    listing_totals(none, Map::<Seq<u8>, Seq<u32>>::empty());
    listing_totals(entries, contents);
    let more = entries.push((token, ids));
    let grown = contents.insert(token, ids);
    assert(lists(more, grown)) by {
        assert forall|i: int| 0 <= i < more.len() implies grown.contains_key(
            (#[trigger] more[i]).0,
        ) && grown[more[i].0] == more[i].1 by {
            if i < entries.len() {
                assert(more[i] == entries[i]);
                assert(contents.contains_key(entries[i].0));
            }
        }
        assert forall|i: int, j: int| 0 <= i < j < more.len() implies (#[trigger] more[i]).0 != (
        #[trigger] more[j]).0 by {
            assert(more[i] == entries[i]);
            assert(contents.contains_key(entries[i].0));
            if j < entries.len() {
                assert(more[j] == entries[j]);
            }
        }
        assert forall|key: Seq<u8>| #[trigger] grown.contains_key(key) implies exists|i: int|
            0 <= i < more.len() && (#[trigger] more[i]).0 == key by {
            if key == token {
                assert(more[entries.len() as int].0 == key);
            } else {
                let i = choose|i: int| 0 <= i < entries.len() && (#[trigger] entries[i]).0 == key;
                assert(more[i].0 == key);
            }
        }
    }
    listing_totals(more, grown);
    totals_push(entries, (token, ids));
}

/// A listing of a map has each of its tokens once, with the map's ids, and no other.
pub proof fn listings_hold_the_map(
    entries: Seq<(Seq<u8>, Seq<u32>)>,
    contents: Map<Seq<u8>, Seq<u32>>,
    key: Seq<u8>,
)
    requires
        lists(entries, contents),
    ensures
        contents.contains_key(key) <==> exists|i: int|
            0 <= i < entries.len() && (#[trigger] entries[i]).0 == key,
        forall|i: int|
            0 <= i < entries.len() && (#[trigger] entries[i]).0 == key ==> entries[i].1
                == contents[key],
        forall|i: int, j: int|
            0 <= i < entries.len() && 0 <= j < entries.len() && (#[trigger] entries[i]).0 == (
            #[trigger] entries[j]).0 ==> i == j,
{
    assert forall|i: int, j: int|
        0 <= i < entries.len() && 0 <= j < entries.len() && (#[trigger] entries[i]).0 == (
        #[trigger] entries[j]).0 implies i == j by {
        if i < j {
            assert(entries[i].0 != entries[j].0);
        } else if j < i {
            assert(entries[j].0 != entries[i].0);
        }
    }
}

/// A list of tokens merges to a map in which a token has the ids of all its entries, those of an
/// earlier entry before those of a later one.
pub proof fn merging_appends_ids(
    tokens: Seq<(Seq<u8>, Seq<u32>)>,
    key: Seq<u8>,
    ids: Seq<u32>,
    other: Seq<u8>,
)
    ensures
        merged(Seq::<(Seq<u8>, Seq<u32>)>::empty()) == Map::<Seq<u8>, Seq<u32>>::empty(),
        merged(tokens.push((key, ids))).contains_key(key),
        merged(tokens.push((key, ids)))[key] == if merged(tokens).contains_key(key) {
            merged(tokens)[key] + ids
        } else {
            ids
        },
        other != key ==> merged(tokens.push((key, ids))).contains_key(other) == merged(
            tokens,
        ).contains_key(other),
        other != key && merged(tokens).contains_key(other) ==> merged(
            tokens.push((key, ids)),
        )[other] == merged(tokens)[other],
{
    assert(tokens.push((key, ids)).drop_last() =~= tokens);
}

/// The public form of a vocabulary error: an empty token and an oversized tokenizer have codes of
/// their own, every other error is one of the tokenizer's; and only an end-of-sequence id among
/// the tokens names a token.
pub proof fn public_errors_have_codes(e: Error, eos: u32)
    ensures
        public_error(e, eos).code == match e {
            Error::EmptyToken => ErrorCode::EmptyToken,
            Error::TokenizerJsonTooLarge { .. } => ErrorCode::InternalLimitExceeded,
            _ => ErrorCode::MalformedTokenizer,
        },
        public_error(e, eos).token == if e is EOSTokenDisallowed {
            Some(eos)
        } else {
            None::<u32>
        },
        public_error(e, eos).detail == match e {
            Error::EmptyToken => "vocabulary token has zero bytes"@,
            Error::EmptyTokenIds => "token has an empty id list"@,
            Error::EOSTokenDisallowed => "EOS token id present in the token map"@,
            Error::TokenizerJsonTooLarge { .. } => "tokenizer JSON exceeds the accepted byte limit"@,
            Error::TokenizersError(_) => "the tokenizer library rejected the tokenizer data"@,
            Error::UnsupportedTokenizer { .. } => "tokenizer model or decoder is unsupported"@,
            Error::UnsupportedByTokenProcessor
                => "tokenizer is unsupported by the token processor"@,
            Error::DecoderUnpackingFailed => "tokenizer decoder could not be unpacked"@,
            Error::ByteProcessorFailed => "byte-level token processing failed"@,
            Error::ByteFallbackProcessorFailed => "byte-fallback token processing failed"@,
        },
{
}

/// Some entry of a token list has the bytes `key` and lists `id`.
pub open spec fn entry_gives(tokens: Seq<(Seq<u8>, Seq<u32>)>, key: Seq<u8>, id: u32) -> bool {
    exists|n: int, p: int|
        {
            &&& 0 <= n < tokens.len()
            &&& 0 <= p < tokens[n].1.len()
            &&& tokens[n].0 == key
            &&& #[trigger] tokens[n].1[p] == id
        }
}

/// A vocabulary that is built of a token list gives a byte string an id exactly where some entry
/// does, and has the end-of-sequence id that was given.
pub proof fn token_lists_give_what_they_list(
    eos: u32,
    tokens: Seq<(Seq<u8>, Seq<u32>)>,
    v: Vocabulary,
    key: Seq<u8>,
    id: u32,
)
    requires
        core_outcome(eos, tokens, Ok(v)),
    ensures
        v.eos() == eos,
        gives_id(v.contents(), key, id) <==> entry_gives(tokens, key, id),
{
    let all = merged(tokens);
    taken_maps_keep_tokens_and_ids(all, key, id);
    merging_keeps_assignments(tokens, key, id);
    assert(gives_id(all, key, id) <==> map_assigns(all, key, id)) by {
        if map_assigns(all, key, id) {
            let p = all[key].index_of(id);
            assert(all[key][p] == id);
        }
    }
    if entry_gives(tokens, key, id) {
        let (n, p) = choose|n: int, p: int|
            {
                &&& 0 <= n < tokens.len()
                &&& 0 <= p < tokens[n].1.len()
                &&& tokens[n].0 == key
                &&& #[trigger] tokens[n].1[p] == id
            };
        assert(tokens[n].1.contains(id));
        assert(assigns_at(tokens, n, key, id));
    }
    if assigns(tokens, key, id) {
        let n = choose|n: int| assigns_at(tokens, n, key, id);
        let p = tokens[n].1.index_of(id);
        assert(tokens[n].1[p] == id);
    }
}

/// What a token list is refused for, in order: an entry without bytes, bytes that no entry gives
/// an id, and the end-of-sequence id among the ids. A list with none of these makes a vocabulary.
pub proof fn token_lists_are_refused_in_order(
    eos: u32,
    tokens: Seq<(Seq<u8>, Seq<u32>)>,
    r: Result<Vocabulary, CoreError>,
)
    requires
        core_outcome(eos, tokens, r),
    ensures
        ({
            let a = forall|n: int| 0 <= n < tokens.len() ==> (#[trigger] tokens[n]).0.len() > 0;
            let b = a && forall|n: int|
                0 <= n < tokens.len() ==> given_an_id(tokens, (#[trigger] tokens[n]).0);
            let c = b && forall|n: int, p: int|
                0 <= n < tokens.len() && 0 <= p < tokens[n].1.len() ==> #[trigger] tokens[n].1[p]
                    != eos;
            &&& !a ==> (r matches Err(CoreError::Vocab(e)) && e.code == ErrorCode::EmptyToken)
            &&& a && !b ==> (r matches Err(CoreError::Vocab(e)) && e.code
                == ErrorCode::MalformedTokenizer && e.token is None && e.detail@
                == "token has an empty id list"@)
            &&& b && !c ==> (r matches Err(CoreError::Vocab(e)) && e.code
                == ErrorCode::MalformedTokenizer && e.token == Some(eos))
            &&& c ==> r is Ok
        }),
{
    let all = merged(tokens);
    token_maps_are_refused_in_order(eos, all);
    assert forall|n: int| 0 <= n < tokens.len() implies all.contains_key(
        (#[trigger] tokens[n]).0,
    ) by {
        merging_keeps_assignments(tokens, tokens[n].0, eos);
    }
    assert forall|key: Seq<u8>| #[trigger] all.contains_key(key) implies (exists|n: int|
        0 <= n < tokens.len() && (#[trigger] tokens[n]).0 == key) && (all[key].len() > 0
        <==> given_an_id(tokens, key)) by {
        merging_keeps_assignments(tokens, key, eos);
        if all[key].len() > 0 {
            let id = all[key][0];
            assert(all[key].contains(id));
            merging_keeps_assignments(tokens, key, id);
            assert(map_assigns(all, key, id));
            let n = choose|n: int| assigns_at(tokens, n, key, id);
            let p = tokens[n].1.index_of(id);
            assert(tokens[n].1[p] == id);
            assert(entry_gives(tokens, key, id));
        }
        if given_an_id(tokens, key) {
            let id = choose|id: u32| #[trigger] entry_gives(tokens, key, id);
            listed_is_assigned(tokens, key, id);
            merging_keeps_assignments(tokens, key, id);
            assert(all[key].contains(id));
        }
    }
    if exists|key: Seq<u8>| #[trigger] all.contains_key(key) && all[key].contains(eos) {
        let key = choose|key: Seq<u8>| #[trigger] all.contains_key(key) && all[key].contains(eos);
        merging_keeps_assignments(tokens, key, eos);
        assert(map_assigns(all, key, eos));
        let n = choose|n: int| assigns_at(tokens, n, key, eos);
        let p = tokens[n].1.index_of(eos);
        assert(tokens[n].1[p] == eos);
    } else {
        assert forall|n: int, p: int|
            0 <= n < tokens.len() && 0 <= p < tokens[n].1.len() implies #[trigger] tokens[n].1[p]
            != eos by {
            if tokens[n].1[p] == eos {
                let key = tokens[n].0;
                assert(tokens[n].1.contains(eos));
                assert(assigns_at(tokens, n, key, eos));
                assert(assigns(tokens, key, eos));
                merging_keeps_assignments(tokens, key, eos);
                assert(all.contains_key(key) && all[key].contains(eos));
            }
        }
    }
}

/// Some entry that has the bytes `key` has an id.
pub open spec fn given_an_id(tokens: Seq<(Seq<u8>, Seq<u32>)>, key: Seq<u8>) -> bool {
    exists|id: u32| #[trigger] entry_gives(tokens, key, id)
}

proof fn listed_is_assigned(tokens: Seq<(Seq<u8>, Seq<u32>)>, key: Seq<u8>, id: u32)
    requires
        entry_gives(tokens, key, id),
    ensures
        assigns(tokens, key, id),
{
    let (n, p) = choose|n: int, p: int|
        {
            &&& 0 <= n < tokens.len()
            &&& 0 <= p < tokens[n].1.len()
            &&& tokens[n].0 == key
            &&& #[trigger] tokens[n].1[p] == id
        };
    assert(tokens[n].1.contains(id));
    assert(assigns_at(tokens, n, key, id));
}

/// The synthetic vocabulary has one token for each number below its size: its four bytes, the low
/// one first, with the number as the id.
pub proof fn synthetic_tokens_spell_their_ids(n: u32, token: Seq<u8>)
    ensures
        numbered(n).contains_key(token) <==> token.len() == 4 && four_bytes(token, 0) < n,
        numbered(n).contains_key(token) ==> numbered(n)[token].len() == 1 && numbered(n)[token][0]
            == four_bytes(token, 0),
{
    if token.len() == 4 {
        little_endian_numbers(token, 0);
        assert(token.subrange(0, 4) =~= token);
    }
}

} // verus!
