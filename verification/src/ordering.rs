//! Sorting tokens by their bytes, and their ids by value.

use std::cmp::Ordering;

use vstd::prelude::*;

use crate::byte_order::{
    compare_bytes, lex_le, lex_le_antisymmetric, lex_lt, prefix_decides_order, prefix_value,
};
use crate::records::{
    ascending, assigns, assigns_at, bytes_total, every_key_has_id, has_id, ids_total,
    same_assignments, sorted, totals_remove,
};

verus! {

/// Sort key with an eight-byte lexical prefix for faster comparisons.
/// Prefix ties fall back to full byte comparison.
#[derive(Copy, Clone, Debug, PartialEq, Eq, Structural)]
pub struct PackedSortKey {
    pub prefix: u64,
    pub index: u32,
}

/// Token byte strings with their ids, found by index.
pub trait TokenEntries {
    /// The byte string and the ids at each index.
    spec fn entries(&self) -> Seq<(Seq<u8>, Seq<u32>)>;

    /// The entries can be read.
    spec fn valid(&self) -> bool;

    /// The byte string at `index`.
    fn key_at(&self, index: u32) -> (key: &[u8])
        requires
            self.valid(),
            index < self.entries().len(),
        ensures
            key@ == self.entries()[index as int].0,
    ;

    /// Appends the ids at `index` to `out`.
    fn append_ids(&self, index: u32, out: &mut Vec<u32>)
        requires
            self.valid(),
            index < self.entries().len(),
        ensures
            final(out)@ == old(out)@ + self.entries()[index as int].1,
    ;
}

/// The entry that a sort key stands for.
pub open spec fn entry_of(entries: Seq<(Seq<u8>, Seq<u32>)>, k: PackedSortKey) -> (
    Seq<u8>,
    Seq<u32>,
) {
    entries[k.index as int]
}

/// A sort key stands for an entry, and holds the prefix of its byte string.
pub open spec fn key_ok(entries: Seq<(Seq<u8>, Seq<u32>)>, k: PackedSortKey) -> bool {
    k.index < entries.len() && k.prefix == prefix_value(entry_of(entries, k).0, 8)
}

/// The entries that `order` names, in that order.
pub open spec fn selected(
    entries: Seq<(Seq<u8>, Seq<u32>)>,
    order: Seq<PackedSortKey>,
) -> Seq<(Seq<u8>, Seq<u32>)> {
    Seq::new(order.len(), |i: int| entry_of(entries, order[i]))
}

/// Every sort key stands for an entry.
pub open spec fn keys_ok(
    entries: Seq<(Seq<u8>, Seq<u32>)>,
    order: Seq<PackedSortKey>,
) -> bool {
    forall|i: int| 0 <= i < order.len() ==> key_ok(entries, #[trigger] order[i])
}

/// No byte string stands before the one in front of it.
pub open spec fn in_byte_order(records: Seq<(Seq<u8>, Seq<u32>)>) -> bool {
    forall|i: int, j: int|
        0 <= i <= j < records.len() ==> lex_le(#[trigger] records[i].0, #[trigger] records[j].0)
}

/// How two sort keys stand to each other: by their prefixes, and by their byte strings where the
/// prefixes tie.
pub fn compare_keys<E: TokenEntries>(entries: &E, a: &PackedSortKey, b: &PackedSortKey) -> (o: Ordering)
    requires
        entries.valid(),
        key_ok(entries.entries(), *a),
        key_ok(entries.entries(), *b),
    ensures
        o == Ordering::Less <==> lex_lt(
            entry_of(entries.entries(), *a).0,
            entry_of(entries.entries(), *b).0,
        ),
        o == Ordering::Equal <==> entry_of(entries.entries(), *a).0 == entry_of(
            entries.entries(),
            *b,
        ).0,
        o == Ordering::Greater <==> lex_lt(
            entry_of(entries.entries(), *b).0,
            entry_of(entries.entries(), *a).0,
        ),
{
    proof {
        let x = entry_of(entries.entries(), *a).0;
        let y = entry_of(entries.entries(), *b).0;
        prefix_decides_order(x, y);
        prefix_decides_order(y, x);
        if lex_lt(x, y) && lex_lt(y, x) {
            lex_le_antisymmetric(x, y);
        }
    }
    if a.prefix < b.prefix {
        Ordering::Less
    } else if b.prefix < a.prefix {
        Ordering::Greater
    } else {
        compare_bytes(entries.key_at(a.index), entries.key_at(b.index))
    }
}

/// Sorts by `slice::sort_unstable_by`, under the order of [`compare_keys`], which is total. The call
/// is trusted to rearrange the sort keys and no more, and to leave none in front of one that it
/// orders before it. It says nothing of how equal byte strings end up among themselves.
#[verifier::external_body]
pub(crate) fn sort_order<E: TokenEntries>(order: &mut Vec<PackedSortKey>, entries: &E)
    requires
        entries.valid(),
        keys_ok(entries.entries(), old(order)@),
    ensures
        final(order)@.to_multiset() == old(order)@.to_multiset(),
        in_byte_order(selected(entries.entries(), final(order)@)),
{
    order.sort_unstable_by(|a, b| compare_keys(entries, a, b));
}

/// Sorts the ids from `start` on by `slice::sort_unstable`. The call is trusted to leave the ids
/// before `start` alone, to rearrange those from `start` on and no more, and to leave them in
/// ascending order.
#[verifier::external_body]
pub(crate) fn sort_ids_from(ids: &mut Vec<u32>, start: usize)
    requires
        start <= old(ids)@.len(),
    ensures
        final(ids)@.len() == old(ids)@.len(),
        final(ids)@.take(start as int) == old(ids)@.take(start as int),
        final(ids)@.skip(start as int).to_multiset() == old(ids)@.skip(start as int).to_multiset(),
        sorted(final(ids)@.skip(start as int)),
{
    ids[start..].sort_unstable();
}

/// Rearranging sort keys changes neither which there are nor how much they stand for.
pub proof fn rearranged(
    entries: Seq<(Seq<u8>, Seq<u32>)>,
    a: Seq<PackedSortKey>,
    b: Seq<PackedSortKey>,
)
    requires
        a.to_multiset() == b.to_multiset(),
    ensures
        a.len() == b.len(),
        forall|k: PackedSortKey| #[trigger] a.contains(k) == b.contains(k),
        bytes_total(selected(entries, a)) == bytes_total(selected(entries, b)),
        ids_total(selected(entries, a)) == ids_total(selected(entries, b)),
    decreases a.len(),
{
    a.to_multiset_ensures();
    b.to_multiset_ensures();
    assert forall|k: PackedSortKey| #[trigger] a.contains(k) == b.contains(k) by {
        assert(a.contains(k) <==> a.to_multiset().count(k) > 0);
        assert(b.contains(k) <==> b.to_multiset().count(k) > 0);
    }
    if a.len() > 0 {
        let x = a.last();
        assert(a[a.len() - 1] == x);
        assert(a.contains(x));
        assert(b.contains(x));
        let j = b.index_of(x);
        assert(a.remove(a.len() - 1).to_multiset() =~= b.remove(j).to_multiset());
        rearranged(entries, a.remove(a.len() - 1), b.remove(j));
        totals_remove(selected(entries, a), a.len() - 1);
        totals_remove(selected(entries, b), j);
        assert(selected(entries, a).remove(a.len() - 1) =~= selected(
            entries,
            a.remove(a.len() - 1),
        ));
        assert(selected(entries, b).remove(j) =~= selected(entries, b.remove(j)));
    } else {
        assert(selected(entries, a) =~= selected(entries, b));
    }
}

/// Rearranged sort keys assign the same ids to the same byte strings.
pub proof fn rearranged_assigns(
    entries: Seq<(Seq<u8>, Seq<u32>)>,
    a: Seq<PackedSortKey>,
    b: Seq<PackedSortKey>,
)
    requires
        a.to_multiset() == b.to_multiset(),
        keys_ok(entries, a),
    ensures
        keys_ok(entries, b),
        same_assignments(selected(entries, a), selected(entries, b)),
        every_key_has_id(selected(entries, a)) == every_key_has_id(selected(entries, b)),
{
    rearranged(entries, a, b);
    assert forall|i: int| 0 <= i < b.len() implies key_ok(entries, #[trigger] b[i]) by {
        assert(b.contains(b[i]));
        assert(a.contains(b[i]));
    }
    let x = selected(entries, a);
    let y = selected(entries, b);
    assert forall|key: Seq<u8>, id: u32| #[trigger] assigns(x, key, id) == assigns(y, key, id) by {
        if assigns(x, key, id) {
            let i = choose|i: int| assigns_at(x, i, key, id);
            assert(a.contains(a[i]));
            assert(b.contains(a[i]));
            let j = b.index_of(a[i]);
            assert(assigns_at(y, j, key, id));
        }
        if assigns(y, key, id) {
            let i = choose|i: int| assigns_at(y, i, key, id);
            assert(b.contains(b[i]));
            assert(a.contains(b[i]));
            let j = a.index_of(b[i]);
            assert(assigns_at(x, j, key, id));
        }
    }
    if every_key_has_id(x) {
        assert forall|i: int| 0 <= i < y.len() implies has_id(y, (#[trigger] y[i]).0) by {
            assert(b.contains(b[i]));
            assert(a.contains(b[i]));
            let j = a.index_of(b[i]);
            assert(has_id(x, x[j].0));
            let id = choose|id: u32| assigns(x, x[j].0, id);
            assert(assigns(y, y[i].0, id));
        }
    }
    if every_key_has_id(y) {
        assert forall|i: int| 0 <= i < x.len() implies has_id(x, (#[trigger] x[i]).0) by {
            assert(a.contains(a[i]));
            assert(b.contains(a[i]));
            let j = b.index_of(a[i]);
            assert(has_id(y, y[j].0));
            let id = choose|id: u32| assigns(y, y[j].0, id);
            assert(assigns(x, x[i].0, id));
        }
    }
}

/// Drops every id that equals the one before it.
pub fn dedup_sorted(ids: &mut Vec<u32>)
    requires
        sorted(old(ids)@),
    ensures
        ascending(final(ids)@),
        final(ids)@.len() <= old(ids)@.len(),
        forall|id: u32| #[trigger] final(ids)@.contains(id) == old(ids)@.contains(id),
{
    if ids.len() == 0 {
        return ;
    }
    let ghost all = ids@;
    let mut write: usize = 1;
    let mut read: usize = 1;
    assert(ids@.take(1)[0] == all[0]);
    while read < ids.len()
        invariant
            all == old(ids)@,
            sorted(all),
            ids@.len() == all.len(),
            1 <= write <= read <= ids@.len(),
            forall|k: int| read <= k < all.len() ==> ids@[k] == all[k],
            ascending(ids@.take(write as int)),
            ids@[write - 1] == all[read - 1],
            forall|k: int| 0 <= k < write ==> all.contains(#[trigger] ids@[k]),
            forall|k: int| 0 <= k < read ==> ids@.take(write as int).contains(#[trigger] all[k]),
        decreases all.len() - read,
    {
        let ghost before = ids@;
        let id: u32 = ids[read];
        assert(id == all[read as int]);
        if id != ids[write - 1] {
            ids.set(write, id);
            write = write + 1;
            proof {
                let kept = ids@.take(write as int);
                assert(all.contains(all[read as int]));
                assert(all[read - 1] <= all[read as int]);
                assert forall|i: int, j: int| 0 <= i < j < kept.len() implies kept[i]
                    < kept[j] by {
                    if j < write - 1 {
                        assert(before.take(write - 1)[i] < before.take(write - 1)[j]);
                    } else {
                        assert(before.take(write - 1)[i] <= before.take(write - 1)[write - 2]);
                    }
                }
                assert forall|k: int| 0 <= k < read + 1 implies kept.contains(
                    #[trigger] all[k],
                ) by {
                    if k < read {
                        let w = before.take(write - 1);
                        assert(w.contains(all[k]));
                        let q = w.index_of(all[k]);
                        assert(kept[q] == all[k]);
                    } else {
                        assert(kept[write - 1] == all[k]);
                    }
                }
            }
        } else {
            proof {
                let kept = ids@.take(write as int);
                assert(kept[write - 1] == all[read as int]);
            }
        }
        read = read + 1;
    }
    ids.truncate(write);
    proof {
        let kept = ids@;
        assert forall|id: u32| #[trigger] kept.contains(id) == all.contains(id) by {
            if kept.contains(id) {
                let k = kept.index_of(id);
                assert(all.contains(kept[k]));
            }
            if all.contains(id) {
                let k = all.index_of(id);
                assert(kept.contains(all[k]));
            }
        }
    }
}

} // verus!
