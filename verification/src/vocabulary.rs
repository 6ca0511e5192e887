//! The vocabulary of a language model: token byte strings, their ids, and the
//! end-of-sequence id.

use rustc_hash::FxHashSet;
use vstd::prelude::*;
use vstd::slice::slice_to_vec;
use vstd::utf8::{encode_utf8, encode_utf8_decode_utf8};

use crate::admission::contains_id;
use crate::hash_tables::{
    StringTokenMap, TokenMap, id_set_insert, id_set_new, string_map_contents,
    string_map_into_entries, token_map_clone, token_map_contents, token_map_entries, token_map_get,
    token_map_insert, token_map_into_entries, token_map_is_empty, token_map_new, token_map_remove,
};
use crate::records::{ids_total, totals_push};
use crate::token_map::{
    first_occurrences, first_occurrences_of_distinct, first_occurrences_properties, listing_totals,
    lists, map_ids_total, pairs_view,
};

verus! {

/// The bytes that a token stands for.
pub type Token = Vec<u8>;

/// The number of a token.
pub type TokenId = u32;

/// Largest tokenizer JSON accepted before parsing: 64 MiB.
pub const MAX_TOKENIZER_JSON_BYTES: usize = 67_108_864;

/// Why a vocabulary could not be built or extended.
#[derive(Clone, Debug, PartialEq, Eq)]
pub enum Error {
    /// The end-of-sequence id may not stand for an ordinary token.
    EOSTokenDisallowed,
    /// No construction path admits a token of zero bytes.
    EmptyToken,
    /// A token with no ids represents nothing decodable.
    EmptyTokenIds,
    /// The tokenizer library refused the tokenizer data, in these words.
    TokenizersError(String),
    UnsupportedTokenizer { model: String, reason: String },
    UnsupportedByTokenProcessor,
    DecoderUnpackingFailed,
    ByteProcessorFailed,
    ByteFallbackProcessorFailed,
    TokenizerJsonTooLarge { actual: usize, limit: usize },
}

/// The ids that a valid vocabulary may hold for one byte string.
pub open spec fn valid_entry(eos: u32, token: Seq<u8>, ids: Seq<u32>) -> bool {
    token.len() > 0 && ids.len() > 0 && ids.no_duplicates() && !ids.contains(eos)
}

/// No empty token, no token without ids, no id twice under one token, and no token under the
/// end-of-sequence id.
pub open spec fn valid_contents(eos: u32, contents: Map<Seq<u8>, Seq<u32>>) -> bool {
    forall|token: Seq<u8>| #[trigger]
        contents.contains_key(token) ==> valid_entry(eos, token, contents[token])
}

/// The fault of a raw token map, if it has one: first any empty token, then any token without
/// ids, then any token under the end-of-sequence id.
pub open spec fn raw_map_fault(eos: u32, contents: Map<Seq<u8>, Seq<u32>>) -> Option<Error> {
    if exists|token: Seq<u8>| #[trigger] contents.contains_key(token) && token.len() == 0 {
        Some(Error::EmptyToken)
    } else if exists|token: Seq<u8>| #[trigger]
        contents.contains_key(token) && contents[token].len() == 0 {
        Some(Error::EmptyTokenIds)
    } else if exists|token: Seq<u8>| #[trigger]
        contents.contains_key(token) && contents[token].contains(eos) {
        Some(Error::EOSTokenDisallowed)
    } else {
        None
    }
}

/// The map with each id kept once, where it first occurs.
pub open spec fn distinct_ids(contents: Map<Seq<u8>, Seq<u32>>) -> Map<Seq<u8>, Seq<u32>> {
    Map::new(
        |token: Seq<u8>| contents.contains_key(token),
        |token: Seq<u8>| first_occurrences(contents[token]),
    )
}

/// A string token map, keyed by the bytes of its texts.
pub open spec fn encoded_keys(contents: Map<Seq<char>, Seq<u32>>) -> Map<Seq<u8>, Seq<u32>> {
    Map::new(
        |token: Seq<u8>|
            exists|text: Seq<char>| #[trigger]
                contents.contains_key(text) && encode_utf8(text) == token,
        |token: Seq<u8>|
            contents[choose|text: Seq<char>| #[trigger]
                contents.contains_key(text) && encode_utf8(text) == token],
    )
}

/// Two texts with the same bytes are the same text.
pub proof fn encoding_is_injective(a: Seq<char>, b: Seq<char>)
    requires
        encode_utf8(a) == encode_utf8(b),
    ensures
        a == b,
{
    encode_utf8_decode_utf8(a);
    encode_utf8_decode_utf8(b);
}

/// Removes duplicate ids in place, keeping first-occurrence order. Small lists (the norm) dedup
/// without a heap allocation; only large lists build a hash set.
pub fn dedup_ids(ids: &mut Vec<TokenId>)
    ensures
        final(ids)@ == first_occurrences(old(ids)@),
{
    let ghost all = ids@;
    if ids.len() <= 1 {
        proof {
            first_occurrences_of_distinct(all);
        }
        return ;
    }
    if ids.len() <= 8 {
        dedup_in_place(ids);
        return ;
    }
    dedup_with_set(ids);
}

fn prefix_contains(ids: &Vec<u32>, n: usize, id: u32) -> (r: bool)
    requires
        n <= ids@.len(),
    ensures
        r == ids@.take(n as int).contains(id),
{
    let mut i: usize = 0;
    while i < n
        invariant
            i <= n <= ids@.len(),
            forall|k: int| 0 <= k < i ==> ids@[k] != id,
        decreases n - i,
    {
        if ids[i] == id {
            assert(ids@.take(n as int)[i as int] == id);
            return true;
        }
        i = i + 1;
    }
    false
}

fn dedup_in_place(ids: &mut Vec<u32>)
    ensures
        final(ids)@ == first_occurrences(old(ids)@),
{
    let ghost all = ids@;
    let mut write: usize = 0;
    let mut read: usize = 0;
    assert(ids@.take(0) =~= first_occurrences(all.take(0)));
    while read < ids.len()
        invariant
            all == old(ids)@,
            ids@.len() == all.len(),
            write <= read <= ids@.len(),
            forall|k: int| read <= k < all.len() ==> ids@[k] == all[k],
            ids@.take(write as int) == first_occurrences(all.take(read as int)),
        decreases all.len() - read,
    {
        let ghost before = ids@.take(write as int);
        let id: u32 = ids[read];
        assert(all.take(read + 1).drop_last() =~= all.take(read as int));
        if !prefix_contains(ids, write, id) {
            ids.set(write, id);
            write = write + 1;
            assert(ids@.take(write as int) =~= before.push(id));
        }
        read = read + 1;
    }
    assert(all.take(read as int) =~= all);
    ids.truncate(write);
}

fn dedup_with_set(ids: &mut Vec<u32>)
    ensures
        final(ids)@ == first_occurrences(old(ids)@),
{
    let ghost all = ids@;
    let mut seen: FxHashSet<u32> = id_set_new();
    let mut write: usize = 0;
    let mut read: usize = 0;
    assert(ids@.take(0) =~= first_occurrences(all.take(0)));
    while read < ids.len()
        invariant
            all == old(ids)@,
            ids@.len() == all.len(),
            write <= read <= ids@.len(),
            forall|k: int| read <= k < all.len() ==> ids@[k] == all[k],
            ids@.take(write as int) == first_occurrences(all.take(read as int)),
            forall|id: u32| #[trigger] seen@.contains(id) == ids@.take(write as int).contains(id),
        decreases all.len() - read,
    {
        let ghost before = ids@.take(write as int);
        let ghost had = seen@;
        let id: u32 = ids[read];
        assert(all.take(read + 1).drop_last() =~= all.take(read as int));
        let new: bool = id_set_insert(&mut seen, id);
        assert(had.contains(id) == before.contains(id));
        if new {
            ids.set(write, id);
            write = write + 1;
            proof {
                let after = ids@.take(write as int);
                assert(after =~= before.push(id));
                assert forall|x: u32| #[trigger] seen@.contains(x) == after.contains(x) by {
                    if x != id {
                        assert(had.contains(x) == before.contains(x));
                        if before.contains(x) {
                            let k = before.index_of(x);
                            assert(after[k] == x);
                        }
                        if after.contains(x) {
                            let k = after.index_of(x);
                            assert(before[k] == x);
                        }
                    } else {
                        assert(after[write - 1] == id);
                    }
                }
            }
        } else {
            assert(seen@ =~= had);
        }
        read = read + 1;
    }
    assert(all.take(read as int) =~= all);
    ids.truncate(write);
}

/// Vocabulary for a large language model.
#[derive(Debug, PartialEq)]
pub struct Vocabulary {
    eos_token_id: TokenId,
    tokens: TokenMap,
}

impl Vocabulary {
    /// The identifier of the end-of-sequence token.
    pub closed spec fn eos(&self) -> u32 {
        self.eos_token_id
    }

    /// The ids of each token.
    pub closed spec fn contents(&self) -> Map<Seq<u8>, Seq<u32>> {
        token_map_contents(self.tokens)
    }

    /// No vocabulary holds an empty token, a token without ids, an id twice under one token, or a
    /// token under the end-of-sequence id, however it came about.
    #[verifier::type_invariant]
    pub open spec fn valid(self) -> bool {
        valid_contents(self.eos(), self.contents())
    }

    /// Creates an empty vocabulary.
    pub fn new(eos_token_id: TokenId) -> (v: Vocabulary)
        ensures
            v.eos() == eos_token_id,
            v.contents() == Map::<Seq<u8>, Seq<u32>>::empty(),
    {
        Vocabulary { eos_token_id, tokens: token_map_new() }
    }

    /// Returns all tokens with their token ids in vocabulary.
    pub fn tokens(&self) -> (tokens: &TokenMap)
        ensures
            token_map_contents(*tokens) == self.contents(),
    {
        &self.tokens
    }

    /// Returns all token ids per provided token if available in the vocabulary.
    pub fn token_ids(&self, token: &[u8]) -> (ids: Option<&[TokenId]>)
        ensures
            match ids {
                Some(v) => self.contents().contains_key(token@) && v@ == self.contents()[token@],
                None => !self.contents().contains_key(token@),
            },
    {
        match token_map_get(&self.tokens, token) {
            Some(ids) => Some(ids.as_slice()),
            None => None,
        }
    }

    /// Gets the identifier of the special end of the sentence token.
    pub fn eos_token_id(&self) -> (id: TokenId)
        ensures
            id == self.eos(),
    {
        self.eos_token_id
    }

    /// Inserts a token with the given id. Idempotent: repeating `(token, id)` is a no-op.
    /// A different id under the same bytes is still kept.
    pub fn try_insert(&mut self, token: Token, id: TokenId) -> (r: Result<(), Error>)
        ensures
            final(self).eos() == old(self).eos(),
            r == if id == old(self).eos() {
                Err::<(), Error>(Error::EOSTokenDisallowed)
            } else if token@.len() == 0 {
                Err(Error::EmptyToken)
            } else {
                Ok(())
            },
            final(self).contents() == if r is Err {
                old(self).contents()
            } else {
                with_id(old(self).contents(), token@, id)
            },
            r == insertion_outcome(old(self).eos(), token@, id),
    {
        proof {
            use_type_invariant(&*self);
        }
        if id == self.eos_token_id {
            return Err(Error::EOSTokenDisallowed);
        }
        if token.len() == 0 {
            return Err(Error::EmptyToken);
        }
        let ghost before = token_map_contents(self.tokens);
        let mut tokens: TokenMap = token_map_new();
        std::mem::swap(&mut tokens, &mut self.tokens);
        let mut ids: Vec<u32> = match token_map_remove(&mut tokens, token.as_slice()) {
            Some(ids) => ids,
            None => Vec::new(),
        };
        if !contains_id(ids.as_slice(), id) {
            ids.push(id);
        }
        let ghost key = token@;
        let ghost held = ids@;
        token_map_insert(&mut tokens, token, ids);
        proof {
            let after = token_map_contents(tokens);
            assert(after =~= with_id(before, key, id));
            assert(valid_entry(self.eos_token_id, key, held)) by {
                if before.contains_key(key) {
                    assert(valid_entry(self.eos_token_id, key, before[key]));
                }
            }
            assert(valid_contents(self.eos_token_id, after)) by {
                assert forall|t: Seq<u8>| #[trigger] after.contains_key(t) implies valid_entry(
                    self.eos_token_id,
                    t,
                    after[t],
                ) by {
                    if t != key {
                        assert(before.contains_key(t));
                    }
                }
            }
        }
        self.tokens = tokens;
        Ok(())
    }

    /// Removes a given token from the vocabulary.
    pub fn remove(&mut self, token: &[u8])
        ensures
            final(self).eos() == old(self).eos(),
            final(self).contents() == old(self).contents().remove(token@),
    {
        proof {
            use_type_invariant(&*self);
        }
        let ghost before = token_map_contents(self.tokens);
        let mut tokens: TokenMap = token_map_new();
        std::mem::swap(&mut tokens, &mut self.tokens);
        let _ = token_map_remove(&mut tokens, token);
        proof {
            let after = token_map_contents(tokens);
            assert forall|t: Seq<u8>| #[trigger] after.contains_key(t) implies valid_entry(
                self.eos_token_id,
                t,
                after[t],
            ) by {
                assert(before.contains_key(t));
            }
        }
        self.tokens = tokens;
    }

    /// Returns ordinary token ids plus EOS, not the sparse mask width.
    /// Overflowing counts saturate instead of wrapping.
    pub fn len(&self) -> (n: usize)
        ensures
            n == if map_ids_total(self.contents()) + 1 > usize::MAX {
                usize::MAX as int
            } else {
                map_ids_total(self.contents()) as int + 1
            },
    {
        let entries: Vec<(&[u8], &[u32])> = token_map_entries(&self.tokens, Vec::new());
        let ghost listed = pairs_view(entries@);
        proof {
            listing_totals(listed, self.contents());
        }
        let mut total: usize = 0;
        let mut i: usize = 0;
        while i < entries.len()
            invariant
                i <= entries@.len(),
                listed == pairs_view(entries@),
                total == if ids_total(listed.take(i as int)) > usize::MAX {
                    usize::MAX as int
                } else {
                    ids_total(listed.take(i as int)) as int
                },
            decreases entries@.len() - i,
        {
            proof {
                assert(listed.take(i + 1) =~= listed.take(i as int).push(listed[i as int]));
                totals_push(listed.take(i as int), listed[i as int]);
            }
            total = total.saturating_add(entries[i].1.len());
            i = i + 1;
        }
        assert(listed.take(i as int) =~= listed);
        total.saturating_add(1)
    }

    /// True when no ordinary tokens are present (EOS is not counted).
    pub fn is_empty(&self) -> (r: bool)
        ensures
            r == (self.contents() == Map::<Seq<u8>, Seq<u32>>::empty()),
    {
        token_map_is_empty(&self.tokens)
    }

    /// A vocabulary of a raw token map. Duplicate ids within one token are collapsed.
    pub fn from_raw_bytes_map(eos_token_id: TokenId, tokens: TokenMap) -> (r: Result<
        Vocabulary,
        Error,
    >)
        ensures
            match raw_map_fault(eos_token_id, token_map_contents(tokens)) {
                Some(fault) => r == Err::<Vocabulary, Error>(fault),
                None => r is Ok && r->Ok_0.eos() == eos_token_id && r->Ok_0.contents()
                    == distinct_ids(token_map_contents(tokens)),
            },
    {
        let entries: Vec<(Vec<u8>, Vec<u32>)> = token_map_into_entries(tokens);
        Self::from_entries(eos_token_id, entries, Ghost(token_map_contents(tokens)))
    }

    /// A vocabulary of a raw token map over `String` keys, under the rules of
    /// [`Vocabulary::from_raw_bytes_map`].
    pub fn from_raw_string_map(eos_token_id: TokenId, tokens: StringTokenMap) -> (r: Result<
        Vocabulary,
        Error,
    >)
        ensures
            match raw_map_fault(eos_token_id, encoded_keys(string_map_contents(tokens))) {
                Some(fault) => r == Err::<Vocabulary, Error>(fault),
                None => r is Ok && r->Ok_0.eos() == eos_token_id && r->Ok_0.contents()
                    == distinct_ids(encoded_keys(string_map_contents(tokens))),
            },
    {
        let ghost texts = string_map_contents(tokens);
        let mut left: Vec<(String, Vec<u32>)> = string_map_into_entries(tokens);
        let ghost listed = Seq::new(left@.len(), |i: int| (left@[i].0@, left@[i].1@));
        let mut entries: Vec<(Vec<u8>, Vec<u32>)> = Vec::new();
        while left.len() > 0
            invariant
                left@.len() + entries@.len() == listed.len(),
                forall|i: int|
                    0 <= i < left@.len() ==> (#[trigger] left@[i]).0@ == listed[i].0
                        && left@[i].1@ == listed[i].1,
                forall|i: int|
                    0 <= i < entries@.len() ==> (#[trigger] entries@[i]).0@ == encode_utf8(
                        listed[listed.len() - 1 - i].0,
                    ) && entries@[i].1@ == listed[listed.len() - 1 - i].1,
            decreases left@.len(),
        {
            match left.pop() {
                Some((text, ids)) => {
                    entries.push((slice_to_vec(text.as_str().as_bytes()), ids));
                },
                None => {},
            }
        }
        proof {
            let keyed = encoded_keys(texts);
            let view = Seq::new(entries@.len(), |i: int| (entries@[i].0@, entries@[i].1@));
            let n = listed.len();
            assert forall|i: int| 0 <= i < view.len() implies keyed.contains_key(
                (#[trigger] view[i]).0,
            ) && keyed[view[i].0] == view[i].1 by {
                let text = listed[n - 1 - i].0;
                assert(entries@[i].0@ == encode_utf8(text));
                assert(texts.contains_key(text));
                let chosen = choose|t: Seq<char>| #[trigger]
                    texts.contains_key(t) && encode_utf8(t) == view[i].0;
                encoding_is_injective(text, chosen);
            }
            assert forall|i: int, j: int| 0 <= i < j < view.len() implies (#[trigger] view[i]).0
                != (#[trigger] view[j]).0 by {
                assert(entries@[i].0@ == encode_utf8(listed[n - 1 - i].0));
                assert(entries@[j].0@ == encode_utf8(listed[n - 1 - j].0));
                assert(listed[n - 1 - j].0 != listed[n - 1 - i].0);
                if view[i].0 == view[j].0 {
                    encoding_is_injective(listed[n - 1 - i].0, listed[n - 1 - j].0);
                }
            }
            assert forall|key: Seq<u8>| #[trigger] keyed.contains_key(key) implies exists|i: int|
                0 <= i < view.len() && (#[trigger] view[i]).0 == key by {
                let text = choose|t: Seq<char>| #[trigger]
                    texts.contains_key(t) && encode_utf8(t) == key;
                let j = choose|j: int| 0 <= j < n && (#[trigger] listed[j]).0 == text;
                let i = n - 1 - j;
                assert(entries@[i].0@ == encode_utf8(listed[n - 1 - i].0));
                assert(view[i].0 == key);
            }
            assert(lists(view, keyed));
        }
        Self::from_entries(eos_token_id, entries, Ghost(encoded_keys(texts)))
    }

    fn from_entries(
        eos_token_id: TokenId,
        entries: Vec<(Vec<u8>, Vec<u32>)>,
        Ghost(contents): Ghost<Map<Seq<u8>, Seq<u32>>>,
    ) -> (r: Result<Vocabulary, Error>)
        requires
            lists(
                Seq::new(entries@.len(), |i: int| (entries@[i].0@, entries@[i].1@)),
                contents,
            ),
        ensures
            match raw_map_fault(eos_token_id, contents) {
                Some(fault) => r == Err::<Vocabulary, Error>(fault),
                None => r is Ok && r->Ok_0.eos() == eos_token_id && r->Ok_0.contents()
                    == distinct_ids(contents),
            },
    {
        let ghost view = Seq::new(entries@.len(), |i: int| (entries@[i].0@, entries@[i].1@));
        let mut no_empty_token: bool = true;
        let mut no_empty_ids: bool = true;
        let mut no_eos: bool = true;
        let mut i: usize = 0;
        while i < entries.len()
            invariant
                i <= entries@.len(),
                no_empty_token == forall|k: int|
                    0 <= k < i ==> (#[trigger] entries@[k]).0@.len() > 0,
                no_empty_ids == forall|k: int|
                    0 <= k < i ==> (#[trigger] entries@[k]).1@.len() > 0,
                no_eos == forall|k: int|
                    0 <= k < i ==> !(#[trigger] entries@[k]).1@.contains(eos_token_id),
            decreases entries@.len() - i,
        {
            if entries[i].0.len() == 0 {
                assert(entries@[i as int].0@.len() == 0);
                no_empty_token = false;
            }
            if entries[i].1.len() == 0 {
                assert(entries@[i as int].1@.len() == 0);
                no_empty_ids = false;
            }
            if contains_id(entries[i].1.as_slice(), eos_token_id) {
                assert(entries@[i as int].1@.contains(eos_token_id));
                no_eos = false;
            }
            i = i + 1;
        }
        proof {
            assert forall|k: int| 0 <= k < entries@.len() implies contents.contains_key(
                (#[trigger] entries@[k]).0@,
            ) && contents[entries@[k].0@] == entries@[k].1@ by {
                assert(view[k].0 == entries@[k].0@);
            }
            assert forall|token: Seq<u8>| #[trigger] contents.contains_key(token) implies exists|
                k: int,
            |
                0 <= k < entries@.len() && (#[trigger] entries@[k]).0@ == token by {
                let k = choose|k: int| 0 <= k < view.len() && (#[trigger] view[k]).0 == token;
                assert(entries@[k].0@ == token);
            }
        }
        if !no_empty_token {
            proof {
                let k = choose|k: int|
                    0 <= k < entries@.len() && (#[trigger] entries@[k]).0@.len() == 0;
                assert(contents.contains_key(entries@[k].0@));
            }
            return Err(Error::EmptyToken);
        }
        if !no_empty_ids {
            proof {
                let k = choose|k: int|
                    0 <= k < entries@.len() && (#[trigger] entries@[k]).1@.len() == 0;
                assert(contents.contains_key(entries@[k].0@));
            }
            return Err(Error::EmptyTokenIds);
        }
        if !no_eos {
            proof {
                let k = choose|k: int|
                    0 <= k < entries@.len() && (#[trigger] entries@[k]).1@.contains(eos_token_id);
                assert(contents.contains_key(entries@[k].0@));
            }
            return Err(Error::EOSTokenDisallowed);
        }
        Ok(
            Vocabulary {
                eos_token_id,
                tokens: dedup_entries(eos_token_id, entries, Ghost(contents)),
            },
        )
    }
}

impl Clone for Vocabulary {
    fn clone(&self) -> (v: Vocabulary)
        ensures
            v.eos() == self.eos(),
            v.contents() == self.contents(),
    {
        proof {
            use_type_invariant(self);
        }
        Vocabulary { eos_token_id: self.eos_token_id, tokens: token_map_clone(&self.tokens) }
    }
}

impl Default for Vocabulary {
    fn default() -> (v: Vocabulary)
        ensures
            v.eos() == 0,
            v.contents() == Map::<Seq<u8>, Seq<u32>>::empty(),
    {
        Vocabulary::new(0)
    }
}

/// The map of the listed entries, each id kept once.
fn dedup_entries(
    eos_token_id: TokenId,
    entries: Vec<(Vec<u8>, Vec<u32>)>,
    Ghost(contents): Ghost<Map<Seq<u8>, Seq<u32>>>,
) -> (tokens: TokenMap)
    requires
        lists(Seq::new(entries@.len(), |i: int| (entries@[i].0@, entries@[i].1@)), contents),
        raw_map_fault(eos_token_id, contents) is None,
    ensures
        token_map_contents(tokens) == distinct_ids(contents),
        valid_contents(eos_token_id, token_map_contents(tokens)),
{
    let mut left: Vec<(Vec<u8>, Vec<u32>)> = entries;
    let ghost view = Seq::new(entries@.len(), |i: int| (entries@[i].0@, entries@[i].1@));
    let ghost want = distinct_ids(contents);
    let mut tokens: TokenMap = token_map_new();
    while left.len() > 0
        invariant
            lists(view, contents),
            want == distinct_ids(contents),
            left@.len() <= view.len(),
            forall|i: int|
                0 <= i < left@.len() ==> (#[trigger] left@[i]).0@ == view[i].0 && left@[i].1@
                    == view[i].1,
            forall|token: Seq<u8>| #[trigger]
                token_map_contents(tokens).contains_key(token) <==> exists|k: int|
                    left@.len() <= k < view.len() && (#[trigger] view[k]).0 == token,
            forall|token: Seq<u8>| #[trigger]
                token_map_contents(tokens).contains_key(token) ==> token_map_contents(
                    tokens,
                )[token] == want[token],
        decreases left@.len(),
    {
        let ghost before = token_map_contents(tokens);
        let ghost n = left@.len() - 1;
        match left.pop() {
            Some((token, mut ids)) => {
                let ghost key = token@;
                assert(key == view[n].0);
                dedup_ids(&mut ids);
                token_map_insert(&mut tokens, token, ids);
                proof {
                    assert(contents.contains_key(view[n].0));
                    let after = token_map_contents(tokens);
                    assert forall|t: Seq<u8>| #[trigger] after.contains_key(t) <==> exists|k: int|
                        n <= k < view.len() && (#[trigger] view[k]).0 == t by {
                        if after.contains_key(t) {
                            if t == key {
                                assert(view[n].0 == t);
                            } else {
                                assert(before.contains_key(t));
                                let k = choose|k: int|
                                    n + 1 <= k < view.len() && (#[trigger] view[k]).0 == t;
                                assert(view[k].0 == t);
                            }
                        }
                        if exists|k: int| n <= k < view.len() && (#[trigger] view[k]).0 == t {
                            let k = choose|k: int|
                                n <= k < view.len() && (#[trigger] view[k]).0 == t;
                            if k > n {
                                assert(before.contains_key(t));
                            }
                        }
                    }
                }
            },
            None => {},
        }
    }
    proof {
        let got = token_map_contents(tokens);
        assert forall|t: Seq<u8>| got.contains_key(t) == want.contains_key(t) by {
            if want.contains_key(t) {
                let k = choose|k: int| 0 <= k < view.len() && (#[trigger] view[k]).0 == t;
                assert(view[k].0 == t);
            }
            if got.contains_key(t) {
                let k = choose|k: int| 0 <= k < view.len() && (#[trigger] view[k]).0 == t;
                assert(contents.contains_key(view[k].0));
            }
        }
        assert(got =~= want);
        assert forall|t: Seq<u8>| #[trigger] got.contains_key(t) implies valid_entry(
            eos_token_id,
            t,
            got[t],
        ) by {
            assert(contents.contains_key(t));
            first_occurrences_properties(contents[t]);
        }
    }
    tokens
}

/// The map after one more id for a token, unless the token has it already.
pub open spec fn with_id(contents: Map<Seq<u8>, Seq<u32>>, token: Seq<u8>, id: u32) -> Map<
    Seq<u8>,
    Seq<u32>,
> {
    if !contents.contains_key(token) {
        contents.insert(token, seq![id])
    } else if contents[token].contains(id) {
        contents
    } else {
        contents.insert(token, contents[token].push(id))
    }
}

/// Whether a token and id may be inserted beside an end-of-sequence id.
pub open spec fn insertion_outcome(eos: u32, token: Seq<u8>, id: u32) -> Result<(), Error> {
    if id == eos {
        Err(Error::EOSTokenDisallowed)
    } else if token.len() == 0 {
        Err(Error::EmptyToken)
    } else {
        Ok(())
    }
}

/// Inserting one token and id twice is inserting it once.
pub proof fn insertion_is_idempotent(contents: Map<Seq<u8>, Seq<u32>>, token: Seq<u8>, id: u32)
    ensures
        with_id(with_id(contents, token, id), token, id) == with_id(contents, token, id),
{
    let once = with_id(contents, token, id);
    assert(once[token].contains(id)) by {
        if !contents.contains_key(token) {
            assert(once[token][0] == id);
        } else if !contents[token].contains(id) {
            assert(once[token][contents[token].len() as int] == id);
        }
    }
}

} // verus!
