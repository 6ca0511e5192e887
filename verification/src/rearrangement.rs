//! Packed tokens in another order: what a build makes of them does not depend on it.

use vstd::prelude::*;

use crate::admission::{
    csr_monotone, csr_ok, largest_id, packed_allocation_failed, packed_rejection,
};
use crate::canonical::packed_order_does_not_matter;
use crate::error::CompileError;
use crate::packing::PackedBuffers;
use crate::prepared::{PreparedVocabulary, built_from_packed};
use crate::records::{
    assigns, assigns_at, bytes_total, every_key_has_id, has_id, ids_total, same_assignments,
    totals_push, totals_remove,
};

verus! {

/// Rearranging tokens changes neither which there are nor how much they hold.
proof fn rearranged_totals(a: Seq<(Seq<u8>, Seq<u32>)>, b: Seq<(Seq<u8>, Seq<u32>)>)
    requires
        a.to_multiset() == b.to_multiset(),
    ensures
        a.len() == b.len(),
        forall|e: (Seq<u8>, Seq<u32>)| #[trigger] a.contains(e) == b.contains(e),
        bytes_total(a) == bytes_total(b),
        ids_total(a) == ids_total(b),
    decreases a.len(),
{
    a.to_multiset_ensures();
    b.to_multiset_ensures();
    assert forall|e: (Seq<u8>, Seq<u32>)| #[trigger] a.contains(e) == b.contains(e) by {
        assert(a.contains(e) <==> a.to_multiset().count(e) > 0);
        assert(b.contains(e) <==> b.to_multiset().count(e) > 0);
    }
    if a.len() > 0 {
        let x = a.last();
        assert(a[a.len() - 1] == x);
        assert(a.contains(x));
        assert(b.contains(x));
        let j = b.index_of(x);
        assert(a.remove(a.len() - 1).to_multiset() =~= b.remove(j).to_multiset());
        rearranged_totals(a.remove(a.len() - 1), b.remove(j));
        totals_remove(a, a.len() - 1);
        totals_remove(b, j);
    }
}

/// Tokens that hold one another's entries assign the same ids, and leave the same byte strings
/// without one.
proof fn same_entries_assign_alike(a: Seq<(Seq<u8>, Seq<u32>)>, b: Seq<(Seq<u8>, Seq<u32>)>)
    requires
        forall|e: (Seq<u8>, Seq<u32>)| #[trigger] a.contains(e) == b.contains(e),
    ensures
        same_assignments(a, b),
        every_key_has_id(a) ==> every_key_has_id(b),
{
    assert forall|key: Seq<u8>, id: u32| #[trigger] assigns(a, key, id) == assigns(b, key, id) by {
        if assigns(a, key, id) {
            let i = choose|i: int| assigns_at(a, i, key, id);
            assert(a.contains(a[i]));
            assert(b.contains(a[i]));
            assert(assigns_at(b, b.index_of(a[i]), key, id));
        }
        if assigns(b, key, id) {
            let i = choose|i: int| assigns_at(b, i, key, id);
            assert(b.contains(b[i]));
            assert(a.contains(b[i]));
            assert(assigns_at(a, a.index_of(b[i]), key, id));
        }
    }
    if every_key_has_id(a) {
        assert forall|i: int| 0 <= i < b.len() implies has_id(b, (#[trigger] b[i]).0) by {
            assert(b.contains(b[i]));
            assert(a.contains(b[i]));
            let j = a.index_of(b[i]);
            assert(has_id(a, a[j].0));
            let id = choose|id: u32| assigns(a, a[j].0, id);
            assert(assigns(b, b[i].0, id));
        }
    }
}

/// The first `n` tokens of packed buffers fill them up to the offsets `n`.
proof fn packed_totals(p: PackedBuffers, n: int)
    requires
        p.wf(),
        0 <= n < p.byte_offsets@.len(),
    ensures
        bytes_total(p.entries().take(n)) == p.byte_offsets@[n],
        ids_total(p.entries().take(n)) == p.id_offsets@[n],
    decreases n,
{
    if n > 0 {
        let all = p.entries();
        packed_totals(p, n - 1);
        csr_monotone(p.byte_offsets@, p.token_bytes@.len() as int, n - 1, n);
        csr_monotone(p.id_offsets@, p.token_ids@.len() as int, n - 1, n);
        assert(all.take(n) =~= all.take(n - 1).push(all[n - 1]));
        totals_push(all.take(n - 1), all[n - 1]);
    }
}

/// The item that a place of a buffer lies in, among the first `n`.
proof fn item_around(offsets: Seq<u32>, len: int, place: int, n: int) -> (i: int)
    requires
        csr_ok(offsets, len),
        0 < n < offsets.len(),
        0 <= place < offsets[n],
    ensures
        0 <= i < n,
        offsets[i] <= place < offsets[i + 1],
    decreases n,
{
    if offsets[n - 1] <= place {
        n - 1
    } else {
        item_around(offsets, len, place, n - 1)
    }
}

/// The ids of packed buffers are those of their tokens.
proof fn packed_ids(p: PackedBuffers, id: u32)
    requires
        p.wf(),
    ensures
        p.token_ids@.contains(id) <==> exists|i: int|
            0 <= i < p.entries().len() && (#[trigger] p.entries()[i]).1.contains(id),
{
    let ids = p.token_ids@;
    let offsets = p.id_offsets@;
    let all = p.entries();
    if ids.contains(id) {
        let k = ids.index_of(id);
        let i = item_around(offsets, ids.len() as int, k, offsets.len() - 1);
        csr_monotone(offsets, ids.len() as int, i + 1, offsets.len() - 1);
        assert(all[i].1[k - offsets[i]] == id);
        assert(all[i].1.contains(id));
    }
    if exists|i: int| 0 <= i < all.len() && (#[trigger] all[i]).1.contains(id) {
        let i = choose|i: int| 0 <= i < all.len() && (#[trigger] all[i]).1.contains(id);
        csr_monotone(offsets, ids.len() as int, i, i + 1);
        let k = all[i].1.index_of(id);
        assert(ids[offsets[i] + k] == id);
    }
}

/// The largest id is a bound on all, and one of them or the floor.
proof fn largest_is_largest(ids: Seq<u32>, floor: u32)
    ensures
        floor <= largest_id(ids, floor),
        forall|id: u32| #[trigger] ids.contains(id) ==> id <= largest_id(ids, floor),
        largest_id(ids, floor) == floor || ids.contains(largest_id(ids, floor)),
    decreases ids.len(),
{
    if ids.len() > 0 {
        let front = ids.drop_last();
        largest_is_largest(front, floor);
        assert forall|id: u32| #[trigger] ids.contains(id) implies id <= largest_id(ids, floor) by {
            let k = ids.index_of(id);
            if k < front.len() {
                assert(front[k] == id);
                assert(front.contains(id));
            }
        }
        let most = largest_id(front, floor);
        if front.contains(most) {
            assert(ids[front.index_of(most)] == most);
        }
        assert(ids[ids.len() - 1] == ids.last());
    }
}

/// Where `p` holds a token without bytes, and where it holds `id`, so does a rearrangement of it.
proof fn rearranged_faults(p: PackedBuffers, q: PackedBuffers)
    requires
        p.wf(),
        q.wf(),
        forall|e: (Seq<u8>, Seq<u32>)| #[trigger]
            p.entries().contains(e) == q.entries().contains(e),
    ensures
        (exists|i: int|
            0 <= i < p.byte_offsets@.len() - 1 && #[trigger] p.byte_offsets@[i]
                == p.byte_offsets@[i + 1]) ==> (exists|i: int|
            0 <= i < q.byte_offsets@.len() - 1 && #[trigger] q.byte_offsets@[i]
                == q.byte_offsets@[i + 1]),
        forall|id: u32| #[trigger] p.token_ids@.contains(id) ==> q.token_ids@.contains(id),
{
    let a = p.entries();
    let b = q.entries();
    if exists|i: int|
        0 <= i < p.byte_offsets@.len() - 1 && #[trigger] p.byte_offsets@[i] == p.byte_offsets@[i
            + 1] {
        let i = choose|i: int|
            0 <= i < p.byte_offsets@.len() - 1 && #[trigger] p.byte_offsets@[i]
                == p.byte_offsets@[i + 1];
        csr_monotone(p.byte_offsets@, p.token_bytes@.len() as int, i, i + 1);
        assert(a.contains(a[i]));
        assert(b.contains(a[i]));
        let j = b.index_of(a[i]);
        csr_monotone(q.byte_offsets@, q.token_bytes@.len() as int, j, j + 1);
        assert(a[i].0.len() == 0);
        assert(b[j].0.len() == q.byte_offsets@[j + 1] - q.byte_offsets@[j]);
        assert(q.byte_offsets@[j] == q.byte_offsets@[j + 1]);
    }
    assert forall|id: u32| #[trigger] p.token_ids@.contains(id) implies q.token_ids@.contains(
        id,
    ) by {
        packed_ids(p, id);
        packed_ids(q, id);
        let i = choose|i: int| 0 <= i < a.len() && (#[trigger] a[i]).1.contains(id);
        assert(a.contains(a[i]));
        assert(b.contains(a[i]));
        let j = b.index_of(a[i]);
        assert(b[j].1.contains(id));
    }
}

/// Packed buffers that hold the same tokens in another order are refused alike: with the same
/// error, or not at all.
pub proof fn refusal_ignores_order(
    p: PackedBuffers,
    q: PackedBuffers,
    eos_token_id: u32,
    peak_budget: int,
)
    requires
        p.wf(),
        q.wf(),
        p.entries().to_multiset() == q.entries().to_multiset(),
    ensures
        packed_rejection(
            p.token_bytes@,
            p.byte_offsets@,
            p.token_ids@,
            p.id_offsets@,
            eos_token_id,
            peak_budget,
        ) == packed_rejection(
            q.token_bytes@,
            q.byte_offsets@,
            q.token_ids@,
            q.id_offsets@,
            eos_token_id,
            peak_budget,
        ),
{
    rearranged_totals(p.entries(), q.entries());
    packed_totals(p, p.byte_offsets@.len() - 1);
    packed_totals(q, q.byte_offsets@.len() - 1);
    assert(p.entries().take(p.entries().len() as int) =~= p.entries());
    assert(q.entries().take(q.entries().len() as int) =~= q.entries());
    rearranged_faults(p, q);
    rearranged_faults(q, p);
    largest_is_largest(p.token_ids@, eos_token_id);
    largest_is_largest(q.token_ids@, eos_token_id);
}

/// Packed buffers that hold the same tokens in another order are built alike, under the same
/// end-of-sequence id and budget and where there is memory for both: to the same records, or to
/// the same error.
pub proof fn packed_build_ignores_order(
    p: PackedBuffers,
    q: PackedBuffers,
    eos_token_id: u32,
    peak_budget: int,
    from_p: Result<PreparedVocabulary, CompileError>,
    from_q: Result<PreparedVocabulary, CompileError>,
)
    requires
        p.wf(),
        q.wf(),
        p.entries().to_multiset() == q.entries().to_multiset(),
        built_from_packed(
            p.token_bytes@,
            p.byte_offsets@,
            p.token_ids@,
            p.id_offsets@,
            eos_token_id,
            peak_budget,
            from_p,
        ),
        built_from_packed(
            q.token_bytes@,
            q.byte_offsets@,
            q.token_ids@,
            q.id_offsets@,
            eos_token_id,
            peak_budget,
            from_q,
        ),
        from_p matches Err(e) ==> !packed_allocation_failed(e@),
        from_q matches Err(e) ==> !packed_allocation_failed(e@),
    ensures
        match (from_p, from_q) {
            (Ok(a), Ok(b)) => a@ == b@,
            (Err(a), Err(b)) => a@ == b@,
            _ => false,
        },
{
    refusal_ignores_order(p, q, eos_token_id, peak_budget);
    rearranged_totals(p.entries(), q.entries());
    same_entries_assign_alike(p.entries(), q.entries());
    same_entries_assign_alike(q.entries(), p.entries());
    if from_p is Ok && from_q is Ok {
        packed_order_does_not_matter(
            p.entries(),
            q.entries(),
            from_p->Ok_0@,
            from_q->Ok_0@,
        );
    }
}

} // verus!
