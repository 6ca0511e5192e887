//! The hash tables that vocabularies are kept in, and what is trusted of them.

use std::collections::TryReserveError;

use rustc_hash::{FxHashMap, FxHashSet};
use vstd::prelude::*;

use crate::token_map::{lists, pairs_view};

verus! {

/// The hasher builder of `rustc_hash`.
#[verifier::external_type_specification]
#[verifier::external_body]
pub struct ExFxBuildHasher(rustc_hash::FxBuildHasher);

/// Token bytes mapped to the ids that decode to them.
pub type TokenMap = FxHashMap<Vec<u8>, Vec<u32>>;

/// A token map keyed by `String`.
pub type StringTokenMap = FxHashMap<String, Vec<u32>>;

/// The ids that a token map holds for each byte string.
pub uninterp spec fn token_map_contents(table: TokenMap) -> Map<Seq<u8>, Seq<u32>>;

/// The ids that a string token map holds for each text.
pub uninterp spec fn string_map_contents(table: StringTokenMap) -> Map<Seq<char>, Seq<u32>>;

/// `FxHashMap::default`: the new map holds nothing.
#[verifier::external_body]
pub(crate) fn token_map_new() -> (table: TokenMap)
    ensures
        (token_map_contents(table) == Map::<Seq<u8>, Seq<u32>>::empty()),
{
    FxHashMap::default()
}

/// `FxHashMap::try_reserve`: asks the allocator for room and leaves what the map holds as it is.
/// Whether it succeeds is up to the allocator, so nothing is said of that.
#[verifier::external_body]
pub(crate) fn token_map_try_reserve(table: &mut TokenMap, additional: usize) -> (r: Result<
    (),
    TryReserveError,
>)
    ensures
        token_map_contents(*final(table)) == token_map_contents(*old(table)),
{
    table.try_reserve(additional)
}

/// `FxHashMap::clone`: the copy holds what the map holds.
#[verifier::external_body]
pub(crate) fn token_map_clone(table: &TokenMap) -> (copy: TokenMap)
    ensures
        token_map_contents(copy) == token_map_contents(*table),
{
    table.clone()
}

/// `FxHashMap::insert`: afterwards the map holds `ids` for `token`, in place of what it held for
/// that byte string before, and is otherwise as it was.
#[verifier::external_body]
pub(crate) fn token_map_insert(table: &mut TokenMap, token: Vec<u8>, ids: Vec<u32>)
    ensures
        token_map_contents(*final(table)) == token_map_contents(*old(table)).insert(token@, ids@),
{
    table.insert(token, ids);
}

/// `FxHashMap::get`: the ids that the map holds for `token`, if it holds any.
#[verifier::external_body]
pub(crate) fn token_map_get<'a>(table: &'a TokenMap, token: &[u8]) -> (ids: Option<&'a Vec<u32>>)
    ensures
        match ids {
            Some(v) => token_map_contents(*table).contains_key(token@) && v@ == token_map_contents(
                *table,
            )[token@],
            None => !token_map_contents(*table).contains_key(token@),
        },
{
    table.get(token)
}

/// `FxHashMap::remove`: takes what the map held for `token` out of it, and leaves the rest.
#[verifier::external_body]
pub(crate) fn token_map_remove(table: &mut TokenMap, token: &[u8]) -> (ids: Option<Vec<u32>>)
    ensures
        token_map_contents(*final(table)) == token_map_contents(*old(table)).remove(token@),
        match ids {
            Some(v) => token_map_contents(*old(table)).contains_key(token@) && v@
                == token_map_contents(*old(table))[token@],
            None => !token_map_contents(*old(table)).contains_key(token@),
        },
{
    table.remove(token)
}

/// `FxHashMap::is_empty`: whether the map holds nothing.
#[verifier::external_body]
pub(crate) fn token_map_is_empty(table: &TokenMap) -> (r: bool)
    ensures
        r == (token_map_contents(*table) == Map::<Seq<u8>, Seq<u32>>::empty()),
{
    table.is_empty()
}

/// `FxHashMap::len`: how many byte strings the map holds ids for.
#[verifier::external_body]
pub(crate) fn token_map_len(table: &TokenMap) -> (n: usize)
    ensures
        n == token_map_contents(*table).dom().len(),
{
    table.len()
}

/// `FxHashMap::iter`: every byte string that the map holds once, with its ids, in a list that the
/// caller has reserved. The order in which they come is left open.
#[verifier::external_body]
pub(crate) fn token_map_entries<'a>(
    table: &'a TokenMap,
    scratch: Vec<(&'a [u8], &'a [u32])>,
) -> (entries: Vec<(&'a [u8], &'a [u32])>)
    requires
        scratch@.len() == 0,
    ensures
        lists(pairs_view(entries@), token_map_contents(*table)),
{
    let mut entries = scratch;
    entries.extend(table.iter().map(|(token, ids)| (token.as_slice(), ids.as_slice())));
    entries
}

/// `FxHashMap::into_iter`: every byte string that the map held once, with its ids. The order in
/// which they come is left open.
#[verifier::external_body]
pub(crate) fn token_map_into_entries(table: TokenMap) -> (entries: Vec<(Vec<u8>, Vec<u32>)>)
    ensures
        lists(
            Seq::new(entries@.len(), |i: int| (entries@[i].0@, entries@[i].1@)),
            token_map_contents(table),
        ),
{
    table.into_iter().collect()
}

/// `FxHashMap::into_iter`: every text that the map held once, with its ids. The order in which
/// they come is left open.
#[verifier::external_body]
pub(crate) fn string_map_into_entries(table: StringTokenMap) -> (entries: Vec<(String, Vec<u32>)>)
    ensures
        lists(
            Seq::new(entries@.len(), |i: int| (entries@[i].0@, entries@[i].1@)),
            string_map_contents(table),
        ),
{
    table.into_iter().collect()
}

/// `FxHashSet::default`: the new set holds nothing.
#[verifier::external_body]
pub(crate) fn id_set_new() -> (ids: FxHashSet<u32>)
    ensures
        ids@ == Set::<u32>::empty(),
{
    FxHashSet::default()
}

/// `FxHashSet::insert`: afterwards the set holds `id` and what it held before; the result says
/// whether `id` is new to it.
#[verifier::external_body]
pub(crate) fn id_set_insert(ids: &mut FxHashSet<u32>, id: u32) -> (new: bool)
    ensures
        final(ids)@ == old(ids)@.insert(id),
        new == !old(ids)@.contains(id),
{
    ids.insert(id)
}

/// `FxHashMap::default`: the new map holds nothing.
#[verifier::external_body]
pub(crate) fn id_map_new() -> (table: FxHashMap<u32, u32>)
    ensures
        (table@ == Map::<u32, u32>::empty()),
{
    FxHashMap::default()
}

/// `FxHashMap::try_reserve`: asks the allocator for room and leaves what the map holds as it is.
/// Whether it succeeds is up to the allocator, so nothing is said of that.
#[verifier::external_body]
pub(crate) fn id_map_try_reserve(table: &mut FxHashMap<u32, u32>, additional: usize) -> (r: Result<
    (),
    TryReserveError,
>)
    ensures
        final(table)@ == old(table)@,
{
    table.try_reserve(additional)
}

/// `FxHashMap::insert`: afterwards the map holds `value` for `id` and is otherwise as it was.
#[verifier::external_body]
pub(crate) fn id_map_insert(table: &mut FxHashMap<u32, u32>, id: u32, value: u32)
    ensures
        final(table)@ == old(table)@.insert(id, value),
{
    table.insert(id, value);
}

/// `FxHashMap::get`: what the map holds for `id`, if anything.
#[verifier::external_body]
pub(crate) fn id_map_get(table: &FxHashMap<u32, u32>, id: u32) -> (value: Option<u32>)
    ensures
        value == if table@.contains_key(id) {
            Some(table@[id])
        } else {
            None::<u32>
        },
{
    table.get(&id).copied()
}

} // verus!
