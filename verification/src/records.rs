//! The mathematical model of a prepared vocabulary: records of a byte string and
//! its token ids, and the one canonical order of them.

use vstd::prelude::*;

use crate::byte_order::{lex_le, lex_le_antisymmetric, lex_le_reflexive, lex_lt};

verus! {

/// The record `i` of `records` gives the byte string `key` the token id `id`.
pub open spec fn assigns_at(
    records: Seq<(Seq<u8>, Seq<u32>)>,
    i: int,
    key: Seq<u8>,
    id: u32,
) -> bool {
    0 <= i < records.len() && records[i].0 == key && records[i].1.contains(id)
}

/// Some record gives the byte string `key` the token id `id`.
pub open spec fn assigns(records: Seq<(Seq<u8>, Seq<u32>)>, key: Seq<u8>, id: u32) -> bool {
    exists|i: int| assigns_at(records, i, key, id)
}

/// Two record lists give the same ids to the same byte strings.
pub open spec fn same_assignments(
    a: Seq<(Seq<u8>, Seq<u32>)>,
    b: Seq<(Seq<u8>, Seq<u32>)>,
) -> bool {
    forall|key: Seq<u8>, id: u32| #[trigger] assigns(a, key, id) == assigns(b, key, id)
}

/// Some record gives the byte string `key` an id.
pub open spec fn has_id(records: Seq<(Seq<u8>, Seq<u32>)>, key: Seq<u8>) -> bool {
    exists|id: u32| assigns(records, key, id)
}

/// Every byte string of a record is given an id, by that record or another.
pub open spec fn every_key_has_id(records: Seq<(Seq<u8>, Seq<u32>)>) -> bool {
    forall|i: int| 0 <= i < records.len() ==> has_id(records, (#[trigger] records[i]).0)
}

/// Each id is larger than the one before.
pub open spec fn ascending(ids: Seq<u32>) -> bool {
    forall|i: int, j: int| 0 <= i < j < ids.len() ==> ids[i] < ids[j]
}

/// No id is smaller than the one before.
pub open spec fn sorted(ids: Seq<u32>) -> bool {
    forall|i: int, j: int| 0 <= i <= j < ids.len() ==> ids[i] <= ids[j]
}

/// Byte strings in strictly ascending order, each once, with at least one id and
/// its ids in strictly ascending order.
pub open spec fn is_canonical(records: Seq<(Seq<u8>, Seq<u32>)>) -> bool {
    &&& forall|i: int, j: int|
        0 <= i < j < records.len() ==> lex_lt(#[trigger] records[i].0, #[trigger] records[j].0)
    &&& forall|i: int|
        0 <= i < records.len() ==> (#[trigger] records[i]).1.len() > 0 && ascending(records[i].1)
}

/// The bytes of all records, counted.
pub open spec fn bytes_total(records: Seq<(Seq<u8>, Seq<u32>)>) -> nat
    decreases records.len(),
{
    if records.len() == 0 {
        0
    } else {
        bytes_total(records.drop_last()) + records.last().0.len()
    }
}

/// The ids of all records, counted.
pub open spec fn ids_total(records: Seq<(Seq<u8>, Seq<u32>)>) -> nat
    decreases records.len(),
{
    if records.len() == 0 {
        0
    } else {
        ids_total(records.drop_last()) + records.last().1.len()
    }
}

pub proof fn totals_push(records: Seq<(Seq<u8>, Seq<u32>)>, record: (Seq<u8>, Seq<u32>))
    ensures
        bytes_total(records.push(record)) == bytes_total(records) + record.0.len(),
        ids_total(records.push(record)) == ids_total(records) + record.1.len(),
{
    assert(records.push(record).drop_last() =~= records);
}

pub proof fn totals_monotone(records: Seq<(Seq<u8>, Seq<u32>)>, n: int)
    requires
        0 <= n <= records.len(),
    ensures
        bytes_total(records.take(n)) <= bytes_total(records),
        ids_total(records.take(n)) <= ids_total(records),
    decreases records.len() - n,
{
    if n < records.len() {
        totals_monotone(records, n + 1);
        assert(records.take(n + 1) =~= records.take(n).push(records[n]));
        totals_push(records.take(n), records[n]);
    } else {
        assert(records.take(n) =~= records);
    }
}

pub proof fn totals_remove(records: Seq<(Seq<u8>, Seq<u32>)>, k: int)
    requires
        0 <= k < records.len(),
    ensures
        bytes_total(records) == bytes_total(records.remove(k)) + records[k].0.len(),
        ids_total(records) == ids_total(records.remove(k)) + records[k].1.len(),
    decreases records.len(),
{
    let rest = records.remove(k);
    if k < records.len() - 1 {
        totals_remove(records.drop_last(), k);
        assert(rest.drop_last() =~= records.drop_last().remove(k));
        assert(rest.last() == records.last());
    } else {
        assert(rest =~= records.drop_last());
    }
}

/// Two strictly ascending id lists with the same members are the same list.
pub proof fn ascending_lists_are_unique(a: Seq<u32>, b: Seq<u32>)
    requires
        ascending(a),
        ascending(b),
        forall|id: u32| #[trigger] a.contains(id) == b.contains(id),
    ensures
        a == b,
    decreases a.len(),
{
    if a.len() == 0 {
        if b.len() > 0 {
            assert(b.contains(b[0]));
            assert(a.contains(b[0]));
        }
        assert(a =~= b);
    } else {
        assert(a.contains(a.last()));
        assert(b.contains(a.last()));
        assert(b.contains(b.last()));
        assert(a.contains(b.last()));
        assert(a.last() == b.last());
        let x = a.drop_last();
        let y = b.drop_last();
        assert forall|id: u32| #[trigger] x.contains(id) == y.contains(id) by {
            if x.contains(id) {
                let i = x.index_of(id);
                assert(a[i] == id);
                assert(a.contains(id));
                assert(b.contains(id));
                let j = b.index_of(id);
                assert(y[j] == id);
            }
            if y.contains(id) {
                let i = y.index_of(id);
                assert(b[i] == id);
                assert(b.contains(id));
                assert(a.contains(id));
                let j = a.index_of(id);
                assert(x[j] == id);
            }
        }
        ascending_lists_are_unique(x, y);
        assert(a =~= x.push(a.last()));
        assert(b =~= y.push(b.last()));
    }
}

/// The last byte string of a canonical record list stands at or behind every
/// byte string that it assigns ids to.
proof fn last_is_greatest(records: Seq<(Seq<u8>, Seq<u32>)>, key: Seq<u8>, id: u32)
    requires
        is_canonical(records),
        assigns(records, key, id),
    ensures
        records.len() > 0,
        lex_le(key, records.last().0),
{
    let i = choose|i: int| assigns_at(records, i, key, id);
    if i == records.len() - 1 {
        lex_le_reflexive(key);
    } else {
        assert(lex_lt(records[i].0, records[records.len() - 1].0));
    }
}

/// The ids of one record of a canonical list are those that the list assigns to
/// the record's byte string.
pub proof fn canonical_record_ids(records: Seq<(Seq<u8>, Seq<u32>)>, i: int, id: u32)
    requires
        is_canonical(records),
        0 <= i < records.len(),
    ensures
        records[i].1.contains(id) <==> assigns(records, records[i].0, id),
{
    if records[i].1.contains(id) {
        assert(assigns_at(records, i, records[i].0, id));
    }
    if assigns(records, records[i].0, id) {
        let j = choose|j: int| assigns_at(records, j, records[i].0, id);
        if i < j {
            assert(lex_lt(records[i].0, records[j].0));
        } else if j < i {
            assert(lex_lt(records[j].0, records[i].0));
        }
    }
}

/// The canonical form is unique: two canonical record lists that give the same
/// ids to the same byte strings are the same list, whatever they were built from.
pub proof fn canonical_form_is_unique(
    a: Seq<(Seq<u8>, Seq<u32>)>,
    b: Seq<(Seq<u8>, Seq<u32>)>,
)
    requires
        is_canonical(a),
        is_canonical(b),
        same_assignments(a, b),
    ensures
        a == b,
    decreases a.len(),
{
    if a.len() == 0 {
        if b.len() > 0 {
            assert(b[0].1.contains(b[0].1[0]));
            assert(assigns_at(b, 0, b[0].0, b[0].1[0]));
            assert(assigns(a, b[0].0, b[0].1[0]));
        }
        assert(a =~= b);
    } else {
        let la = a.last();
        assert(la.1.len() > 0 && la == a[a.len() - 1]);
        assert(la.1.contains(la.1[0]));
        assert(assigns_at(a, a.len() - 1, la.0, la.1[0]));
        assert(assigns(a, la.0, la.1[0]));
        assert(assigns(b, la.0, la.1[0]));
        last_is_greatest(b, la.0, la.1[0]);
        let lb = b.last();
        assert(lb.1.len() > 0 && lb == b[b.len() - 1]);
        assert(lb.1.contains(lb.1[0]));
        assert(assigns_at(b, b.len() - 1, lb.0, lb.1[0]));
        assert(assigns(b, lb.0, lb.1[0]));
        assert(assigns(a, lb.0, lb.1[0]));
        last_is_greatest(a, lb.0, lb.1[0]);
        lex_le_antisymmetric(la.0, lb.0);
        assert forall|id: u32| #[trigger] la.1.contains(id) == lb.1.contains(id) by {
            canonical_record_ids(a, a.len() - 1, id);
            canonical_record_ids(b, b.len() - 1, id);
        }
        ascending_lists_are_unique(la.1, lb.1);
        let x = a.drop_last();
        let y = b.drop_last();
        assert forall|key: Seq<u8>, id: u32| #[trigger] assigns(x, key, id) == assigns(y, key, id) by {
            drop_last_assigns(a, key, id);
            drop_last_assigns(b, key, id);
        }
        canonical_form_is_unique(x, y);
        assert(a =~= x.push(la));
        assert(b =~= y.push(lb));
    }
}

proof fn drop_last_assigns(a: Seq<(Seq<u8>, Seq<u32>)>, key: Seq<u8>, id: u32)
    requires
        is_canonical(a),
        a.len() > 0,
    ensures
        assigns(a.drop_last(), key, id) == (assigns(a, key, id) && key != a.last().0),
{
    let x = a.drop_last();
    if assigns(x, key, id) {
        let i = choose|i: int| assigns_at(x, i, key, id);
        assert(assigns_at(a, i, key, id));
        assert(lex_lt(a[i].0, a[a.len() - 1].0));
    }
    if assigns(a, key, id) && key != a.last().0 {
        let i = choose|i: int| assigns_at(a, i, key, id);
        assert(assigns_at(x, i, key, id));
    }
}

/// Appending a record whose byte string stands behind all others, with ascending
/// ids, keeps a record list canonical.
pub proof fn canonical_push(
    records: Seq<(Seq<u8>, Seq<u32>)>,
    key: Seq<u8>,
    ids: Seq<u32>,
)
    requires
        is_canonical(records),
        ids.len() > 0,
        ascending(ids),
        forall|i: int| 0 <= i < records.len() ==> lex_lt((#[trigger] records[i]).0, key),
    ensures
        is_canonical(records.push((key, ids))),
{
    let out = records.push((key, ids));
    assert forall|i: int, j: int| 0 <= i < j < out.len() implies lex_lt(
        #[trigger] out[i].0,
        #[trigger] out[j].0,
    ) by {
        if j < records.len() {
            assert(lex_lt(records[i].0, records[j].0));
        }
    }
    assert forall|i: int| 0 <= i < out.len() implies (#[trigger] out[i]).1.len() > 0 && ascending(
        out[i].1,
    ) by {
        if i < records.len() {
            assert(records[i].1.len() > 0);
        }
    }
}

/// What a record list assigns after a record is appended.
pub proof fn assigns_push(
    records: Seq<(Seq<u8>, Seq<u32>)>,
    record: (Seq<u8>, Seq<u32>),
    key: Seq<u8>,
    id: u32,
)
    ensures
        assigns(records.push(record), key, id) == (assigns(records, key, id) || (record.0 == key
            && record.1.contains(id))),
{
    let out = records.push(record);
    if assigns(out, key, id) {
        let i = choose|i: int| assigns_at(out, i, key, id);
        if i < records.len() {
            assert(assigns_at(records, i, key, id));
        }
    }
    if assigns(records, key, id) {
        let i = choose|i: int| assigns_at(records, i, key, id);
        assert(assigns_at(out, i, key, id));
    }
    if record.0 == key && record.1.contains(id) {
        assert(assigns_at(out, records.len() as int, key, id));
    }
}

/// Distinct numbers below `n` are at most `n`.
pub proof fn distinct_below(s: Seq<u32>, n: int)
    requires
        s.no_duplicates(),
        forall|i: int| 0 <= i < s.len() ==> (#[trigger] s[i]) < n,
        n >= 0,
    ensures
        s.len() <= n,
    decreases n,
{
    if n == 0 {
        if s.len() > 0 {
            assert(s[0] < n);
        }
    } else {
        let top = (n - 1) as u32;
        if s.contains(top) {
            let k = s.index_of(top);
            let rest = s.remove(k);
            assert forall|i: int, j: int| 0 <= i < j < rest.len() implies rest[i] != rest[j] by {
                let p = if i < k {
                    i
                } else {
                    i + 1
                };
                let q = if j < k {
                    j
                } else {
                    j + 1
                };
                assert(rest[i] == s[p] && rest[j] == s[q]);
            }
            assert forall|i: int| 0 <= i < rest.len() implies (#[trigger] rest[i]) < n - 1 by {
                let p = if i < k {
                    i
                } else {
                    i + 1
                };
                assert(rest[i] == s[p]);
                assert(s[p] < n);
                assert(s[p] != s[k]);
            }
            distinct_below(rest, n - 1);
        } else {
            assert forall|i: int| 0 <= i < s.len() implies (#[trigger] s[i]) < n - 1 by {
                assert(s.contains(s[i]));
            }
            distinct_below(s, n - 1);
        }
    }
}

} // verus!
