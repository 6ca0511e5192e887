//! Token maps as mathematical maps, and the record lists that list them.

use vstd::prelude::*;

use crate::records::{assigns, assigns_at, bytes_total, ids_total, totals_remove};

verus! {

/// The byte strings and ids of borrowed pairs.
pub open spec fn pairs_view(pairs: Seq<(&[u8], &[u32])>) -> Seq<(Seq<u8>, Seq<u32>)> {
    Seq::new(pairs.len(), |i: int| (pairs[i].0@, pairs[i].1@))
}

/// `entries` lists each key of `map` once, with its value.
pub open spec fn lists<K, V>(entries: Seq<(K, V)>, map: Map<K, V>) -> bool {
    &&& forall|i: int|
        0 <= i < entries.len() ==> map.contains_key((#[trigger] entries[i]).0)
            && map[entries[i].0] == entries[i].1
    &&& forall|i: int, j: int|
        0 <= i < j < entries.len() ==> (#[trigger] entries[i]).0 != (#[trigger] entries[j]).0
    &&& forall|key: K| #[trigger]
        map.contains_key(key) ==> exists|i: int|
            0 <= i < entries.len() && (#[trigger] entries[i]).0 == key
}

/// The map gives the byte string `key` the token id `id`.
pub open spec fn map_assigns(map: Map<Seq<u8>, Seq<u32>>, key: Seq<u8>, id: u32) -> bool {
    map.contains_key(key) && map[key].contains(id)
}

/// A list of the map, in some order.
pub open spec fn some_listing(map: Map<Seq<u8>, Seq<u32>>) -> Seq<(Seq<u8>, Seq<u32>)> {
    choose|entries: Seq<(Seq<u8>, Seq<u32>)>| lists(entries, map)
}

/// The bytes of all keys of a map, counted.
pub open spec fn map_bytes_total(map: Map<Seq<u8>, Seq<u32>>) -> nat {
    bytes_total(some_listing(map))
}

/// The ids of all keys of a map, counted.
pub open spec fn map_ids_total(map: Map<Seq<u8>, Seq<u32>>) -> nat {
    ids_total(some_listing(map))
}

proof fn listing_without(
    entries: Seq<(Seq<u8>, Seq<u32>)>,
    map: Map<Seq<u8>, Seq<u32>>,
    k: int,
)
    requires
        lists(entries, map),
        0 <= k < entries.len(),
    ensures
        lists(entries.remove(k), map.remove(entries[k].0)),
{
    let rest = entries.remove(k);
    let key = entries[k].0;
    let fewer = map.remove(key);
    assert forall|i: int| 0 <= i < rest.len() implies fewer.contains_key((#[trigger] rest[i]).0)
        && fewer[rest[i].0] == rest[i].1 by {
        let j = if i < k {
            i
        } else {
            i + 1
        };
        assert(rest[i] == entries[j]);
        assert(entries[j].0 != key);
    }
    assert forall|i: int, j: int| 0 <= i < j < rest.len() implies (#[trigger] rest[i]).0
        != (#[trigger] rest[j]).0 by {
        let p = if i < k {
            i
        } else {
            i + 1
        };
        let q = if j < k {
            j
        } else {
            j + 1
        };
        assert(rest[i] == entries[p] && rest[j] == entries[q]);
    }
    assert forall|other: Seq<u8>| #[trigger] fewer.contains_key(other) implies exists|i: int|
        0 <= i < rest.len() && (#[trigger] rest[i]).0 == other by {
        assert(map.contains_key(other));
        let j = choose|j: int| 0 <= j < entries.len() && (#[trigger] entries[j]).0 == other;
        let i = if j < k {
            j
        } else {
            j - 1
        };
        assert(rest[i] == entries[j]);
    }
}

/// Two lists of one map hold equally much.
pub proof fn listings_agree(
    a: Seq<(Seq<u8>, Seq<u32>)>,
    b: Seq<(Seq<u8>, Seq<u32>)>,
    map: Map<Seq<u8>, Seq<u32>>,
)
    requires
        lists(a, map),
        lists(b, map),
    ensures
        a.len() == b.len(),
        bytes_total(a) == bytes_total(b),
        ids_total(a) == ids_total(b),
    decreases a.len(),
{
    if a.len() == 0 {
        if b.len() > 0 {
            assert(map.contains_key(b[0].0));
        }
    } else {
        let k = a.len() - 1;
        assert(map.contains_key(a[k].0));
        let j = choose|j: int| 0 <= j < b.len() && (#[trigger] b[j]).0 == a[k].0;
        listing_without(a, map, k);
        listing_without(b, map, j);
        listings_agree(a.remove(k), b.remove(j), map.remove(a[k].0));
        totals_remove(a, k);
        totals_remove(b, j);
    }
}

/// A list of a map counts as the map does.
pub proof fn listing_totals(entries: Seq<(Seq<u8>, Seq<u32>)>, map: Map<Seq<u8>, Seq<u32>>)
    requires
        lists(entries, map),
    ensures
        map_bytes_total(map) == bytes_total(entries),
        map_ids_total(map) == ids_total(entries),
{
    listings_agree(entries, some_listing(map), map);
}

/// A list of a map assigns what the map does.
pub proof fn listing_assigns(
    entries: Seq<(Seq<u8>, Seq<u32>)>,
    map: Map<Seq<u8>, Seq<u32>>,
    key: Seq<u8>,
    id: u32,
)
    requires
        lists(entries, map),
    ensures
        assigns(entries, key, id) == map_assigns(map, key, id),
{
    if assigns(entries, key, id) {
        let i = choose|i: int| assigns_at(entries, i, key, id);
        assert(map.contains_key(entries[i].0));
    }
    if map_assigns(map, key, id) {
        let i = choose|i: int| 0 <= i < entries.len() && (#[trigger] entries[i]).0 == key;
        assert(assigns_at(entries, i, key, id));
    }
}

/// The first occurrence of each id, in order.
pub open spec fn first_occurrences(ids: Seq<u32>) -> Seq<u32>
    decreases ids.len(),
{
    if ids.len() == 0 {
        ids
    } else {
        let rest = first_occurrences(ids.drop_last());
        if rest.contains(ids.last()) {
            rest
        } else {
            rest.push(ids.last())
        }
    }
}

/// The first occurrences have the members of the list, and each once.
pub proof fn first_occurrences_properties(ids: Seq<u32>)
    ensures
        first_occurrences(ids).no_duplicates(),
        first_occurrences(ids).len() <= ids.len(),
        ids.len() > 0 ==> first_occurrences(ids).len() > 0,
        forall|id: u32| #[trigger] first_occurrences(ids).contains(id) == ids.contains(id),
    decreases ids.len(),
{
    if ids.len() > 0 {
        let front = ids.drop_last();
        let rest = first_occurrences(front);
        let last = ids.last();
        first_occurrences_properties(front);
        let all = first_occurrences(ids);
        assert forall|id: u32| #[trigger] all.contains(id) == ids.contains(id) by {
            if ids.contains(id) {
                let k = ids.index_of(id);
                if k < front.len() {
                    assert(front[k] == id);
                    assert(front.contains(id));
                    assert(rest.contains(id));
                    let q = rest.index_of(id);
                    assert(all[q] == id);
                } else if rest.contains(last) {
                    let q = rest.index_of(last);
                    assert(all[q] == id);
                } else {
                    assert(all[rest.len() as int] == id);
                }
            }
            if all.contains(id) {
                let q = all.index_of(id);
                if q < rest.len() {
                    assert(rest[q] == id);
                    assert(rest.contains(id));
                    assert(front.contains(id));
                    let k = front.index_of(id);
                    assert(ids[k] == id);
                } else {
                    assert(ids[ids.len() - 1] == id);
                }
            }
        }
    }
}

/// A list without duplicates is its own first occurrences.
pub proof fn first_occurrences_of_distinct(ids: Seq<u32>)
    requires
        ids.no_duplicates(),
    ensures
        first_occurrences(ids) == ids,
    decreases ids.len(),
{
    if ids.len() > 0 {
        let front = ids.drop_last();
        first_occurrences_of_distinct(front);
        if front.contains(ids.last()) {
            let k = front.index_of(ids.last());
            assert(ids[k] == ids[ids.len() - 1]);
        }
        assert(ids =~= front.push(ids.last()));
    }
}

} // verus!
