//! The canonical, byte-sorted form of a vocabulary.

use vstd::pervasive::unreached;
use vstd::prelude::*;
use vstd::slice::slice_subrange;

use crate::admission::{
    MAX_PACKED_PROJECTED_PEAK_BYTES, MAX_PACKED_TOKENS, admit_dense, admit_packed, can_hold,
    check_addressable_totals, count_present, csr_item, csr_monotone, csr_ok, csr_slice,
    dense_allocation_failed, dense_rejection, empty_token_ids, empty_token_ids_error, overflow,
    overflow_error, packed_allocation_failed, packed_rejection, present_total, try_alloc,
};
use crate::byte_order::{
    lex_le, lex_le_antisymmetric, lex_le_transitive, lex_lt, lexical_prefix, same_bytes,
};
use crate::error::{CompileError, ErrorView};
use crate::fingerprint::record_bytes;
use crate::hash_tables::{token_map_entries, token_map_len};
use crate::layout::{TokenRecord, layout_ok, layout_push, layout_totals, layout_view, push_record};
use crate::ordering::{
    PackedSortKey, TokenEntries, dedup_sorted, in_byte_order, key_ok, keys_ok, rearranged,
    rearranged_assigns, selected, sort_ids_from, sort_order,
};
use crate::records::{
    ascending, assigns, assigns_at, assigns_push, bytes_total, canonical_push, every_key_has_id,
    has_id, ids_total, is_canonical, same_assignments, sorted, totals_monotone, totals_push,
};
use crate::token_map::{
    listing_assigns, listing_totals, lists, map_assigns, map_bytes_total, map_ids_total, pairs_view,
};
use crate::vocabulary::{Vocabulary, valid_contents, valid_entry};

verus! {

/// Owned vocabulary records sorted by byte key and token id.
/// This canonical form is shared by fingerprinting and trie construction.
#[derive(Debug)]
pub struct PreparedVocabulary {
    blob: Vec<u8>,
    records: Vec<TokenRecord>,
    ids: Vec<u32>,
}

impl View for PreparedVocabulary {
    type V = Seq<(Seq<u8>, Seq<u32>)>;

    closed spec fn view(&self) -> Seq<(Seq<u8>, Seq<u32>)> {
        layout_view(self.blob@, self.records@, self.ids@)
    }
}

impl PreparedVocabulary {
    #[verifier::type_invariant]
    spec fn laid_out(self) -> bool {
        layout_ok(self.blob@, self.records@, self.ids@)
    }
}

/// One group of equal byte strings, merged: what was canonical stays so, and assigns what the
/// sort keys up to the end of the group do.
proof fn group_step(
    sel: Seq<(Seq<u8>, Seq<u32>)>,
    out: Seq<(Seq<u8>, Seq<u32>)>,
    i: int,
    j: int,
    group: Seq<u32>,
)
    requires
        in_byte_order(sel),
        0 <= i < j <= sel.len(),
        is_canonical(out),
        same_assignments(out, sel.take(i)),
        forall|k: int| 0 <= k < out.len() ==> lex_lt((#[trigger] out[k]).0, sel[i].0),
        forall|k: int| i <= k < j ==> (#[trigger] sel[k]).0 == sel[i].0,
        j < sel.len() ==> sel[j].0 != sel[i].0,
        group.len() > 0,
        ascending(group),
        forall|id: u32| #[trigger] group.contains(id) <==> exists|k: int|
            i <= k < j && (#[trigger] sel[k]).1.contains(id),
    ensures
        is_canonical(out.push((sel[i].0, group))),
        same_assignments(out.push((sel[i].0, group)), sel.take(j)),
        j < sel.len() ==> forall|k: int|
            0 <= k < out.push((sel[i].0, group)).len() ==> lex_lt(
                (#[trigger] out.push((sel[i].0, group))[k]).0,
                sel[j].0,
            ),
{
    let key = sel[i].0;
    let grown = out.push((key, group));
    canonical_push(out, key, group);
    assert forall|q: Seq<u8>, id: u32| #[trigger] assigns(grown, q, id) == assigns(
        sel.take(j),
        q,
        id,
    ) by {
        assigns_push(out, (key, group), q, id);
        assert(assigns(out, q, id) == assigns(sel.take(i), q, id));
        if assigns(sel.take(i), q, id) {
            let k = choose|k: int| assigns_at(sel.take(i), k, q, id);
            assert(assigns_at(sel.take(j), k, q, id));
        }
        if q == key && group.contains(id) {
            let k = choose|k: int| i <= k < j && (#[trigger] sel[k]).1.contains(id);
            assert(assigns_at(sel.take(j), k, q, id));
        }
        if assigns(sel.take(j), q, id) {
            let k = choose|k: int| assigns_at(sel.take(j), k, q, id);
            if k < i {
                assert(assigns_at(sel.take(i), k, q, id));
            } else {
                assert(sel[k].1.contains(id));
            }
        }
    }
    if j < sel.len() {
        assert(lex_le(sel[i].0, sel[j].0));
        assert forall|k: int| 0 <= k < grown.len() implies lex_lt(
            (#[trigger] grown[k]).0,
            sel[j].0,
        ) by {
            if k < out.len() {
                assert(lex_lt(out[k].0, sel[i].0));
                lex_le_transitive(out[k].0, sel[i].0, sel[j].0);
                if out[k].0 == sel[j].0 {
                    lex_le_antisymmetric(out[k].0, sel[i].0);
                }
            }
        }
    }
}

/// A byte string that none of its group gives an id has none at all.
proof fn idless_group(sel: Seq<(Seq<u8>, Seq<u32>)>, i: int, j: int)
    requires
        in_byte_order(sel),
        0 <= i < j <= sel.len(),
        forall|k: int| 0 <= k < i ==> (#[trigger] sel[k]).0 != sel[i].0,
        forall|k: int| i <= k < j ==> (#[trigger] sel[k]).1.len() == 0,
        j < sel.len() ==> sel[j].0 != sel[i].0,
    ensures
        !every_key_has_id(sel),
{
    if has_id(sel, sel[i].0) {
        let id = choose|id: u32| assigns(sel, sel[i].0, id);
        let k = choose|k: int| assigns_at(sel, k, sel[i].0, id);
        assert(sel[k].1.contains(id));
        if k >= j {
            assert(lex_le(sel[i].0, sel[j].0));
            assert(lex_le(sel[j].0, sel[k].0));
            lex_le_antisymmetric(sel[i].0, sel[j].0);
        }
    }
}

/// What merging entries returns: their canonical records, or the error of a byte string that no
/// entry gives an id.
pub open spec fn merged_outcome(
    entries: Seq<(Seq<u8>, Seq<u32>)>,
    r: Result<PreparedVocabulary, CompileError>,
) -> bool {
    if every_key_has_id(entries) {
        r is Ok && is_canonical(r->Ok_0@) && same_assignments(r->Ok_0@, entries)
    } else {
        r is Err && r->Err_0@ == empty_token_ids_error()
    }
}

/// Entries that assign the same merge alike.
proof fn outcome_of_same_assignments(
    a: Seq<(Seq<u8>, Seq<u32>)>,
    b: Seq<(Seq<u8>, Seq<u32>)>,
    r: Result<PreparedVocabulary, CompileError>,
)
    requires
        merged_outcome(a, r),
        same_assignments(b, a),
        every_key_has_id(a) == every_key_has_id(b),
    ensures
        merged_outcome(b, r),
{
    if r is Ok {
        let p = r->Ok_0@;
        assert forall|key: Seq<u8>, id: u32| #[trigger] assigns(p, key, id) == assigns(
            b,
            key,
            id,
        ) by {
            assert(assigns(p, key, id) == assigns(a, key, id));
            assert(assigns(b, key, id) == assigns(a, key, id));
        }
    }
}

/// The buffers of one build.
pub struct BuildBuffers {
    pub order: Vec<PackedSortKey>,
    pub blob: Vec<u8>,
    pub ids: Vec<u32>,
    pub records: Vec<TokenRecord>,
    pub group_ids: Vec<u32>,
}

impl BuildBuffers {
    /// Nothing is in the buffers yet.
    pub open spec fn is_empty(&self) -> bool {
        &&& self.order@.len() == 0
        &&& self.blob@.len() == 0
        &&& self.ids@.len() == 0
        &&& self.records@.len() == 0
    }

    /// Reserves buffers for `count` tokens of so many bytes and ids.
    pub fn reserve(
        count: usize,
        bytes: usize,
        id_count: usize,
        order_name: &'static str,
        group_name: &'static str,
    ) -> (r: Result<BuildBuffers, CompileError>)
        requires
            bytes <= u32::MAX,
            id_count <= u32::MAX,
        ensures
            match r {
                Ok(buffers) => {
                    &&& buffers.is_empty()
                    &&& can_hold::<PackedSortKey>(count as int)
                    &&& can_hold::<u8>(bytes as int)
                    &&& can_hold::<u32>(id_count as int)
                    &&& can_hold::<TokenRecord>(count as int)
                },
                Err(e) => {
                    ||| count > 0 && e@ == overflow_error(order_name@)
                    ||| bytes > 0 && e@ == overflow_error("prepared vocabulary blob"@)
                    ||| id_count > 0 && e@ == overflow_error("prepared vocabulary id array"@)
                    ||| count > 0 && e@ == overflow_error("prepared vocabulary records"@)
                    ||| id_count > 0 && e@ == overflow_error(group_name@)
                },
            },
            !can_hold::<PackedSortKey>(count as int) ==> r is Err && r->Err_0@ == overflow_error(
                order_name@,
            ),
    {
        let order: Vec<PackedSortKey> = match try_alloc(count, order_name) {
            Ok(v) => v,
            Err(e) => {
                return Err(e);
            },
        };
        let (blob_cap, ids_cap) = match check_addressable_totals(bytes, id_count) {
            Ok(caps) => caps,
            Err(e) => {
                return Err(e);
            },
        };
        let blob: Vec<u8> = match try_alloc(blob_cap as usize, "prepared vocabulary blob") {
            Ok(v) => v,
            Err(e) => {
                return Err(e);
            },
        };
        let ids: Vec<u32> = match try_alloc(ids_cap as usize, "prepared vocabulary id array") {
            Ok(v) => v,
            Err(e) => {
                return Err(e);
            },
        };
        let records: Vec<TokenRecord> = match try_alloc(count, "prepared vocabulary records") {
            Ok(v) => v,
            Err(e) => {
                return Err(e);
            },
        };
        let group_ids: Vec<u32> = match try_alloc(id_count, group_name) {
            Ok(v) => v,
            Err(e) => {
                return Err(e);
            },
        };
        Ok(BuildBuffers { order, blob, ids, records, group_ids })
    }
}

/// Merges sorted entries into canonical records, into buffers that the caller has reserved. Equal
/// byte strings become one record, whose ids are sorted and occur once.
#[verifier::rlimit(40)]
pub fn merge_sorted<E: TokenEntries>(
    entries: &E,
    order: &Vec<PackedSortKey>,
    blob: Vec<u8>,
    ids: Vec<u32>,
    records: Vec<TokenRecord>,
    group_ids: Vec<u32>,
) -> (r: Result<PreparedVocabulary, CompileError>)
    requires
        entries.valid(),
        keys_ok(entries.entries(), order@),
        in_byte_order(selected(entries.entries(), order@)),
        bytes_total(selected(entries.entries(), order@)) <= u32::MAX,
        ids_total(selected(entries.entries(), order@)) <= u32::MAX,
        blob@.len() == 0,
        ids@.len() == 0,
        records@.len() == 0,
    ensures
        merged_outcome(selected(entries.entries(), order@), r),
{
    let mut blob: Vec<u8> = blob;
    let mut ids: Vec<u32> = ids;
    let mut records: Vec<TokenRecord> = records;
    let mut group_ids: Vec<u32> = group_ids;
    let ghost all = entries.entries();
    let ghost sel = selected(all, order@);
    let ghost mut out: Seq<(Seq<u8>, Seq<u32>)> = Seq::empty();
    proof {
        assert(layout_view(blob@, records@, ids@) =~= out);
        assert(same_assignments(out, sel.take(0)));
    }
    let mut i: usize = 0;
    while i < order.len()
        invariant
            entries.valid(),
            all == entries.entries(),
            sel == selected(all, order@),
            keys_ok(all, order@),
            in_byte_order(sel),
            bytes_total(sel) <= u32::MAX,
            ids_total(sel) <= u32::MAX,
            i <= order@.len(),
            layout_ok(blob@, records@, ids@),
            out == layout_view(blob@, records@, ids@),
            is_canonical(out),
            same_assignments(out, sel.take(i as int)),
            bytes_total(out) <= bytes_total(sel.take(i as int)),
            ids_total(out) <= ids_total(sel.take(i as int)),
            i < order@.len() ==> forall|k: int|
                0 <= k < out.len() ==> lex_lt((#[trigger] out[k]).0, sel[i as int].0),
            i < order@.len() ==> forall|k: int|
                0 <= k < i ==> (#[trigger] sel[k]).0 != sel[i as int].0,
            forall|k: int| 0 <= k < i ==> has_id(sel, (#[trigger] sel[k]).0),
        decreases order@.len() - i,
    {
        let bytes: &[u8] = entries.key_at(order[i].index);
        assert(bytes@ == sel[i as int].0);
        group_ids.truncate(0);
        let mut j: usize = i;
        while j < order.len() && same_bytes(entries.key_at(order[j].index), bytes)
            invariant
                entries.valid(),
                all == entries.entries(),
                sel == selected(all, order@),
                keys_ok(all, order@),
                i <= j <= order@.len(),
                i < order@.len(),
                bytes@ == sel[i as int].0,
                forall|k: int| i <= k < j ==> (#[trigger] sel[k]).0 == sel[i as int].0,
                forall|id: u32| #[trigger] group_ids@.contains(id) <==> exists|k: int|
                    i <= k < j && (#[trigger] sel[k]).1.contains(id),
                ids_total(sel.take(i as int)) + group_ids@.len() <= ids_total(sel.take(j as int)),
                bytes_total(sel.take(i as int)) + (if i < j {
                    bytes@.len()
                } else {
                    0
                }) <= bytes_total(sel.take(j as int)),
                group_ids@.len() == 0 ==> forall|k: int|
                    i <= k < j ==> (#[trigger] sel[k]).1.len() == 0,
            decreases order@.len() - j,
        {
            let ghost before = group_ids@;
            assert(key_ok(all, order@[j as int]));
            assert(all[order@[j as int].index as int] == sel[j as int]);
            entries.append_ids(order[j].index, &mut group_ids);
            proof {
                let more = sel[j as int].1;
                assert(group_ids@ == before + more);
                assert forall|id: u32| #[trigger] group_ids@.contains(id) <==> exists|k: int|
                    i <= k < j + 1 && (#[trigger] sel[k]).1.contains(id) by {
                    if group_ids@.contains(id) {
                        let q = group_ids@.index_of(id);
                        if q < before.len() {
                            assert(before[q] == id);
                            assert(before.contains(id));
                            let k = choose|k: int|
                                i <= k < j && (#[trigger] sel[k]).1.contains(id);
                            assert(sel[k].1.contains(id));
                        } else {
                            assert(more[q - before.len()] == id);
                            assert(sel[j as int].1.contains(id));
                        }
                    }
                    if exists|k: int| i <= k < j + 1 && (#[trigger] sel[k]).1.contains(id) {
                        let k = choose|k: int|
                            i <= k < j + 1 && (#[trigger] sel[k]).1.contains(id);
                        if k < j {
                            assert(before.contains(id));
                            let q = before.index_of(id);
                            assert(group_ids@[q] == id);
                        } else {
                            let q = more.index_of(id);
                            assert(group_ids@[before.len() + q] == id);
                        }
                    }
                }
                assert(sel.take(j + 1) =~= sel.take(j as int).push(sel[j as int]));
                totals_push(sel.take(j as int), sel[j as int]);
            }
            j = j + 1;
        }
        assert(j > i) by {
            if j == i {
                assert(key_ok(all, order@[j as int]));
            }
        }
        assert(j < order@.len() ==> sel[j as int].0 != sel[i as int].0) by {
            if j < order@.len() {
                assert(key_ok(all, order@[j as int]));
            }
        }
        if group_ids.len() == 0 {
            proof {
                idless_group(sel, i as int, j as int);
            }
            return Err(empty_token_ids());
        }
        let ghost unsorted = group_ids@;
        sort_ids_from(&mut group_ids, 0);
        proof {
            assert(group_ids@.skip(0) =~= group_ids@);
            assert(unsorted.skip(0) =~= unsorted);
            group_ids@.to_multiset_ensures();
            unsorted.to_multiset_ensures();
            assert forall|id: u32| #[trigger] group_ids@.contains(id) == unsorted.contains(id) by {
                assert(group_ids@.contains(id) <==> group_ids@.to_multiset().count(id) > 0);
                assert(unsorted.contains(id) <==> unsorted.to_multiset().count(id) > 0);
            }
        }
        dedup_sorted(&mut group_ids);
        proof {
            assert(unsorted.contains(unsorted[0]));
            assert(group_ids@.contains(unsorted[0]));
            group_step(sel, out, i as int, j as int, group_ids@);
            totals_monotone(sel, j as int);
            totals_push(out, (bytes@, group_ids@));
            layout_totals(blob@, records@, ids@, records@.len() as int);
            assert(out.take(records@.len() as int) =~= out);
            layout_push(blob@, records@, ids@, bytes@, group_ids@);
            assert forall|k: int| 0 <= k < j implies has_id(sel, (#[trigger] sel[k]).0) by {
                if k >= i {
                    let id = unsorted[0];
                    let q = choose|q: int| i <= q < j && (#[trigger] sel[q]).1.contains(id);
                    assert(assigns_at(sel, q, sel[k].0, id));
                    assert(assigns(sel, sel[k].0, id));
                }
            }
        }
        match push_record(&mut blob, bytes, &mut ids, group_ids.as_slice(), &mut records) {
            Ok(()) => {},
            Err(e) => {
                return Err(e);
            },
        }
        proof {
            let grown = out.push((bytes@, group_ids@));
            if j < order@.len() {
                assert forall|k: int| 0 <= k < j implies (#[trigger] sel[k]).0
                    != sel[j as int].0 by {
                    if k < i && sel[k].0 == sel[j as int].0 {
                        assert(lex_le(sel[k].0, sel[i as int].0));
                        assert(lex_le(sel[i as int].0, sel[j as int].0));
                        lex_le_antisymmetric(sel[k].0, sel[i as int].0);
                    }
                }
            }
            out = grown;
        }
        i = j;
    }
    assert(sel.take(i as int) =~= sel);
    Ok(PreparedVocabulary { blob, records, ids })
}

/// The tokens of a packed vocabulary, each with its ids.
pub open spec fn packed_entries(
    token_bytes: Seq<u8>,
    byte_offsets: Seq<u32>,
    token_ids: Seq<u32>,
    id_offsets: Seq<u32>,
) -> Seq<(Seq<u8>, Seq<u32>)> {
    Seq::new(
        (byte_offsets.len() - 1) as nat,
        |i: int|
            (csr_item(token_bytes, byte_offsets, i), csr_item(token_ids, id_offsets, i)),
    )
}

/// Four packed buffers: token bytes and ids, each cut into items by offsets.
struct PackedTokens<'a> {
    token_bytes: &'a [u8],
    byte_offsets: &'a [u32],
    token_ids: &'a [u32],
    id_offsets: &'a [u32],
}

impl<'a> TokenEntries for PackedTokens<'a> {
    closed spec fn entries(&self) -> Seq<(Seq<u8>, Seq<u32>)> {
        packed_entries(
            self.token_bytes@,
            self.byte_offsets@,
            self.token_ids@,
            self.id_offsets@,
        )
    }

    closed spec fn valid(&self) -> bool {
        &&& csr_ok(self.byte_offsets@, self.token_bytes@.len() as int)
        &&& csr_ok(self.id_offsets@, self.token_ids@.len() as int)
        &&& self.byte_offsets@.len() == self.id_offsets@.len()
    }

    fn key_at(&self, index: u32) -> (key: &[u8]) {
        csr_slice(self.token_bytes, self.byte_offsets, index)
    }

    fn append_ids(&self, index: u32, out: &mut Vec<u32>) {
        let ids: &[u32] = csr_slice(self.token_ids, self.id_offsets, index);
        let ghost before = out@;
        out.extend_from_slice(ids);
        assert(out@ =~= before + ids@);
    }
}

/// Every slot of a dense vocabulary, present or not, with its index as its id.
pub open spec fn dense_entries(token_bytes: Seq<u8>, byte_offsets: Seq<u32>) -> Seq<
    (Seq<u8>, Seq<u32>),
> {
    Seq::new(
        (byte_offsets.len() - 1) as nat,
        |i: int| (csr_item(token_bytes, byte_offsets, i), seq![i as u32]),
    )
}

/// A dense vocabulary gives the byte string of a present slot the slot's index as its id.
pub open spec fn dense_assigns(
    token_bytes: Seq<u8>,
    byte_offsets: Seq<u32>,
    present: Seq<bool>,
    key: Seq<u8>,
    id: u32,
) -> bool {
    id < present.len() && present[id as int] && key == csr_item(
        token_bytes,
        byte_offsets,
        id as int,
    )
}

/// Token bytes cut into one item per id.
struct DenseTokens<'a> {
    token_bytes: &'a [u8],
    byte_offsets: &'a [u32],
}

impl<'a> TokenEntries for DenseTokens<'a> {
    closed spec fn entries(&self) -> Seq<(Seq<u8>, Seq<u32>)> {
        dense_entries(self.token_bytes@, self.byte_offsets@)
    }

    closed spec fn valid(&self) -> bool {
        csr_ok(self.byte_offsets@, self.token_bytes@.len() as int)
    }

    fn key_at(&self, index: u32) -> (key: &[u8]) {
        csr_slice(self.token_bytes, self.byte_offsets, index)
    }

    fn append_ids(&self, index: u32, out: &mut Vec<u32>) {
        let ghost before = out@;
        out.push(index);
        assert(out@ =~= before + seq![index]);
    }
}

/// Every packed token, as a sort key, in the order of the buffers.
fn packed_order(tokens: &PackedTokens<'_>, count: u32, order: Vec<PackedSortKey>) -> (keys: Vec<
    PackedSortKey,
>)
    requires
        tokens.valid(),
        tokens.byte_offsets@.len() == count + 1,
        order@.len() == 0,
    ensures
        keys_ok(tokens.entries(), keys@),
        selected(tokens.entries(), keys@) == tokens.entries(),
        bytes_total(tokens.entries()) == tokens.token_bytes@.len(),
        ids_total(tokens.entries()) == tokens.token_ids@.len(),
{
    let mut keys: Vec<PackedSortKey> = order;
    let ghost all = tokens.entries();
    let ghost bo = tokens.byte_offsets@;
    let ghost io = tokens.id_offsets@;
    let mut index: u32 = 0;
    while index < count
        invariant
            tokens.valid(),
            all == tokens.entries(),
            bo == tokens.byte_offsets@,
            io == tokens.id_offsets@,
            bo.len() == count + 1,
            index <= count,
            keys@.len() == index,
            keys_ok(all, keys@),
            selected(all, keys@) =~= all.take(index as int),
            bytes_total(all.take(index as int)) == bo[index as int],
            ids_total(all.take(index as int)) == io[index as int],
        decreases count - index,
    {
        let key: &[u8] = tokens.key_at(index);
        keys.push(PackedSortKey { prefix: lexical_prefix(key), index });
        proof {
            csr_monotone(bo, tokens.token_bytes@.len() as int, index as int, index + 1);
            csr_monotone(io, tokens.token_ids@.len() as int, index as int, index + 1);
            assert(all.take(index + 1) =~= all.take(index as int).push(all[index as int]));
            totals_push(all.take(index as int), all[index as int]);
        }
        index = index + 1;
    }
    assert(all.take(index as int) =~= all);
    keys
}

/// The sort keys of the first `n` slots that are present: every one, and no other.
spec fn lists_present(order: Seq<PackedSortKey>, present: Seq<bool>, n: int) -> bool {
    &&& forall|k: int|
        0 <= k < order.len() ==> (#[trigger] order[k]).index < n
            && present[order[k].index as int]
    &&& forall|s: int|
        0 <= s < n && #[trigger] present[s] ==> exists|k: int|
            0 <= k < order.len() && (#[trigger] order[k]).index == s
}

/// Every present slot, as a sort key, in the order of the slots.
fn dense_order(tokens: &DenseTokens<'_>, present: &[bool], order: Vec<PackedSortKey>) -> (keys: Vec<
    PackedSortKey,
>)
    requires
        tokens.valid(),
        tokens.byte_offsets@.len() == present@.len() + 1,
        present@.len() <= MAX_PACKED_TOKENS,
        order@.len() == 0,
    ensures
        keys_ok(tokens.entries(), keys@),
        lists_present(keys@, present@, present@.len() as int),
        bytes_total(selected(tokens.entries(), keys@)) <= tokens.token_bytes@.len(),
        ids_total(selected(tokens.entries(), keys@)) <= present@.len(),
{
    let mut keys: Vec<PackedSortKey> = order;
    let ghost all = tokens.entries();
    let ghost bo = tokens.byte_offsets@;
    let mut i: usize = 0;
    while i < present.len()
        invariant
            tokens.valid(),
            all == tokens.entries(),
            bo == tokens.byte_offsets@,
            bo.len() == present@.len() + 1,
            present@.len() <= MAX_PACKED_TOKENS,
            i <= present@.len(),
            keys_ok(all, keys@),
            lists_present(keys@, present@, i as int),
            bytes_total(selected(all, keys@)) <= bo[i as int],
            ids_total(selected(all, keys@)) <= i,
        decreases present@.len() - i,
    {
        let ghost before = keys@;
        proof {
            csr_monotone(bo, tokens.token_bytes@.len() as int, i as int, i + 1);
        }
        if present[i] {
            let index: u32 = i as u32;
            let key: &[u8] = tokens.key_at(index);
            keys.push(PackedSortKey { prefix: lexical_prefix(key), index });
            proof {
                let new_key = keys@[before.len() as int];
                assert(key_ok(all, new_key));
                assert(selected(all, keys@) =~= selected(all, before).push(all[i as int]));
                totals_push(selected(all, before), all[i as int]);
                assert forall|s: int| 0 <= s < i + 1 && #[trigger] present@[s] implies exists|
                    k: int,
                |
                    0 <= k < keys@.len() && (#[trigger] keys@[k]).index == s by {
                    if s < i {
                        let k = choose|k: int|
                            0 <= k < before.len() && (#[trigger] before[k]).index == s;
                        assert(keys@[k].index == s);
                    } else {
                        assert(new_key.index == s);
                    }
                }
            }
        } else {
            assert(selected(all, keys@) =~= selected(all, before));
        }
        i = i + 1;
    }
    keys
}

/// What the sort keys of the present slots assign is what the dense vocabulary assigns.
proof fn dense_selection(
    token_bytes: Seq<u8>,
    byte_offsets: Seq<u32>,
    present: Seq<bool>,
    order: Seq<PackedSortKey>,
)
    requires
        byte_offsets.len() == present.len() + 1,
        present.len() <= MAX_PACKED_TOKENS,
        keys_ok(dense_entries(token_bytes, byte_offsets), order),
        lists_present(order, present, present.len() as int),
    ensures
        every_key_has_id(selected(dense_entries(token_bytes, byte_offsets), order)),
        forall|key: Seq<u8>, id: u32| #[trigger]
            assigns(selected(dense_entries(token_bytes, byte_offsets), order), key, id)
                == dense_assigns(token_bytes, byte_offsets, present, key, id),
{
    let all = dense_entries(token_bytes, byte_offsets);
    let sel = selected(all, order);
    assert forall|key: Seq<u8>, id: u32| #[trigger] assigns(sel, key, id) == dense_assigns(
        token_bytes,
        byte_offsets,
        present,
        key,
        id,
    ) by {
        if assigns(sel, key, id) {
            let k = choose|k: int| assigns_at(sel, k, key, id);
            assert(key_ok(all, order[k]));
            assert(order[k].index == id);
        }
        if dense_assigns(token_bytes, byte_offsets, present, key, id) {
            let k = choose|k: int| 0 <= k < order.len() && (#[trigger] order[k]).index == id;
            assert(sel[k].1[0] == id);
            assert(assigns_at(sel, k, key, id));
        }
    }
    assert forall|i: int| 0 <= i < sel.len() implies has_id(sel, (#[trigger] sel[i]).0) by {
        let id = order[i].index;
        assert(key_ok(all, order[i]));
        assert(sel[i].1[0] == id);
        assert(assigns_at(sel, i, sel[i].0, id));
        assert(assigns(sel, sel[i].0, id));
    }
}

impl PreparedVocabulary {
    /// Sorts the vocabulary's token map by byte key once, then copies it into one owned blob/id
    /// arrays pair.
    #[verifier::rlimit(40)]
    pub fn build(vocab: &Vocabulary) -> (r: Result<PreparedVocabulary, CompileError>)
        ensures
            built_from_map(vocab.contents(), r),
    {
        proof {
            use_type_invariant(vocab);
        }
        let ghost contents = vocab.contents();
        let count: usize = token_map_len(vocab.tokens());
        let scratch: Vec<(&[u8], &[u32])> = match try_alloc(count, "sort-pair scratch") {
            Ok(v) => v,
            Err(e) => {
                return Err(e);
            },
        };
        let pairs: Vec<(&[u8], &[u32])> = token_map_entries(vocab.tokens(), scratch);
        let ghost listed = pairs_view(pairs@);
        proof {
            listing_totals(listed, contents);
            assert forall|i: int| 0 <= i < listed.len() implies (#[trigger] listed[i]).0.len()
                > 0 by {
                assert(contents.contains_key(listed[i].0));
            }
            nonempty_keys_count(listed);
        }
        if pairs.len() > u32::MAX as usize {
            return Self::from_sorted_pairs(pairs.as_slice());
        }
        let order: Vec<PackedSortKey> = match try_alloc(pairs.len(), "sort-pair scratch") {
            Ok(v) => v,
            Err(e) => {
                return Err(e);
            },
        };
        let sorted_pairs: Vec<(&[u8], &[u32])> = match try_alloc(
            pairs.len(),
            "sort-pair scratch",
        ) {
            Ok(v) => v,
            Err(e) => {
                return Err(e);
            },
        };
        let sorted_pairs: Vec<(&[u8], &[u32])> = sort_pairs(&pairs, order, sorted_pairs);
        proof {
            rearranged_pairs_list(listed, pairs_view(sorted_pairs@), contents);
            listing_totals(pairs_view(sorted_pairs@), contents);
        }
        let r = Self::from_sorted_pairs(sorted_pairs.as_slice());
        proof {
            if r is Ok {
                sorted_listing_is_canonical(
                    pairs_view(sorted_pairs@),
                    r->Ok_0@,
                    vocab.eos(),
                    contents,
                );
            }
        }
        r
    }

    /// Copies `pairs` into one owned blob/id arrays pair, in their order, each with its ids
    /// sorted.
    pub fn from_sorted_pairs(pairs: &[(&[u8], &[u32])]) -> (r: Result<
        PreparedVocabulary,
        CompileError,
    >)
        ensures
            match listing_fault(bytes_total(pairs_view(pairs@)), ids_total(pairs_view(pairs@))) {
                Some(fault) => r is Err && r->Err_0@ == fault,
                None => match r {
                    Ok(p) => copied(pairs_view(pairs@), p@),
                    Err(e) => pairs@.len() > 0 && prepared_allocation_failed(e@),
                },
            },
    {
        let ghost view = pairs_view(pairs@);
        let mut total_bytes: usize = 0;
        let mut i: usize = 0;
        while i < pairs.len()
            invariant
                i <= pairs@.len(),
                view == pairs_view(pairs@),
                total_bytes == bytes_total(view.take(i as int)),
            decreases pairs@.len() - i,
        {
            proof {
                assert(view.take(i + 1) =~= view.take(i as int).push(view[i as int]));
                totals_push(view.take(i as int), view[i as int]);
                totals_monotone(view, i + 1);
            }
            total_bytes = match total_bytes.checked_add(pairs[i].0.len()) {
                Some(n) => n,
                None => {
                    return Err(overflow("prepared vocabulary byte total overflows"));
                },
            };
            i = i + 1;
        }
        assert(view.take(view.len() as int) =~= view);
        let mut total_ids: usize = 0;
        let mut j: usize = 0;
        while j < pairs.len()
            invariant
                j <= pairs@.len(),
                view == pairs_view(pairs@),
                bytes_total(view) == total_bytes,
                total_ids == ids_total(view.take(j as int)),
            decreases pairs@.len() - j,
        {
            proof {
                assert(view.take(j + 1) =~= view.take(j as int).push(view[j as int]));
                totals_push(view.take(j as int), view[j as int]);
                totals_monotone(view, j + 1);
            }
            total_ids = match total_ids.checked_add(pairs[j].1.len()) {
                Some(n) => n,
                None => {
                    return Err(overflow("prepared vocabulary id total overflows"));
                },
            };
            j = j + 1;
        }
        let (blob_cap, ids_cap) = match check_addressable_totals(total_bytes, total_ids) {
            Ok(caps) => caps,
            Err(e) => {
                return Err(e);
            },
        };
        let blob: Vec<u8> = match try_alloc(blob_cap as usize, "prepared vocabulary blob") {
            Ok(v) => v,
            Err(e) => {
                return Err(e);
            },
        };
        let ids: Vec<u32> = match try_alloc(ids_cap as usize, "prepared vocabulary id array") {
            Ok(v) => v,
            Err(e) => {
                return Err(e);
            },
        };
        let records: Vec<TokenRecord> = match try_alloc(
            pairs.len(),
            "prepared vocabulary records",
        ) {
            Ok(v) => v,
            Err(e) => {
                return Err(e);
            },
        };
        Ok(Self::copy_pairs(pairs, blob, ids, records))
    }

    /// Copies `pairs` into buffers that the caller has reserved, in their order, each with its ids
    /// sorted.
    #[verifier::rlimit(40)]
    pub fn copy_pairs(
        pairs: &[(&[u8], &[u32])],
        blob: Vec<u8>,
        ids: Vec<u32>,
        records: Vec<TokenRecord>,
    ) -> (p: PreparedVocabulary)
        requires
            bytes_total(pairs_view(pairs@)) <= u32::MAX,
            ids_total(pairs_view(pairs@)) <= u32::MAX,
            blob@.len() == 0,
            ids@.len() == 0,
            records@.len() == 0,
        ensures
            copied(pairs_view(pairs@), p@),
    {
        let ghost view = pairs_view(pairs@);
        let mut blob: Vec<u8> = blob;
        let mut ids: Vec<u32> = ids;
        let mut records: Vec<TokenRecord> = records;
        let ghost mut out: Seq<(Seq<u8>, Seq<u32>)> = Seq::empty();
        assert(layout_view(blob@, records@, ids@) =~= out);
        let mut k: usize = 0;
        while k < pairs.len()
            invariant
                k <= pairs@.len(),
                view == pairs_view(pairs@),
                bytes_total(view) <= u32::MAX,
                ids_total(view) <= u32::MAX,
                layout_ok(blob@, records@, ids@),
                out == layout_view(blob@, records@, ids@),
                copied(view.take(k as int), out),
                blob@.len() == bytes_total(view.take(k as int)),
                ids@.len() == ids_total(view.take(k as int)),
            decreases pairs@.len() - k,
        {
            let ghost blob0 = blob@;
            let ghost ids0 = ids@;
            let ghost records0 = records@;
            let start: usize = ids.len();
            proof {
                assert(view.take(k + 1) =~= view.take(k as int).push(view[k as int]));
                totals_push(view.take(k as int), view[k as int]);
                totals_monotone(view, k + 1);
                layout_push(blob0, records0, ids0, pairs@[k as int].0@, pairs@[k as int].1@);
            }
            let _ = push_record(&mut blob, pairs[k].0, &mut ids, pairs[k].1, &mut records);
            let ghost pushed = ids@;
            sort_ids_from(&mut ids, start);
            proof {
                let key = view[k as int].0;
                let raw = view[k as int].1;
                let tail = ids@.skip(start as int);
                assert(pushed.skip(start as int) =~= raw);
                assert(pushed.take(start as int) =~= ids0);
                assert(ids@ =~= ids0 + tail);
                assert(tail.len() == raw.len());
                layout_push(blob0, records0, ids0, key, tail);
                let grown = out.push((key, tail));
                assert(layout_view(blob@, records@, ids@) == grown);
                assert(copied(view.take(k + 1), grown)) by {
                    assert forall|q: int| 0 <= q < grown.len() implies (#[trigger] grown[q]).0
                        == view.take(k + 1)[q].0 && sorted(grown[q].1)
                        && grown[q].1.to_multiset() == view.take(k + 1)[q].1.to_multiset() by {
                        if q < out.len() {
                            assert(out[q].0 == view.take(k as int)[q].0);
                        }
                    }
                }
                out = grown;
            }
            k = k + 1;
        }
        assert(view.take(k as int) =~= view);
        PreparedVocabulary { blob, records, ids }
    }

    /// Builds directly from validated packed CSR buffers.
    /// Duplicate byte keys merge under normal vocabulary validation rules.
    pub fn build_from_packed(
        token_bytes: &[u8],
        byte_offsets: &[u32],
        token_ids: &[u32],
        id_offsets: &[u32],
        eos_token_id: u32,
    ) -> (r: Result<PreparedVocabulary, CompileError>)
        ensures
            built_from_packed(
                token_bytes@,
                byte_offsets@,
                token_ids@,
                id_offsets@,
                eos_token_id,
                MAX_PACKED_PROJECTED_PEAK_BYTES as int,
                r,
            ),
    {
        Self::build_from_packed_budgeted(
            token_bytes,
            byte_offsets,
            token_ids,
            id_offsets,
            eos_token_id,
            MAX_PACKED_PROJECTED_PEAK_BYTES,
        )
    }

    /// `build_from_packed` with an explicit projected-peak budget.
    pub fn build_from_packed_budgeted(
        token_bytes: &[u8],
        byte_offsets: &[u32],
        token_ids: &[u32],
        id_offsets: &[u32],
        eos_token_id: u32,
        peak_budget: usize,
    ) -> (r: Result<PreparedVocabulary, CompileError>)
        ensures
            built_from_packed(
                token_bytes@,
                byte_offsets@,
                token_ids@,
                id_offsets@,
                eos_token_id,
                peak_budget as int,
                r,
            ),
    {
        match admit_packed(
            token_bytes,
            byte_offsets,
            token_ids,
            id_offsets,
            eos_token_id,
            peak_budget,
        ) {
            Ok(()) => {},
            Err(e) => {
                return Err(e);
            },
        }
        let token_count: usize = byte_offsets.len() - 1;
        proof {
            csr_monotone(byte_offsets@, token_bytes@.len() as int, 0, byte_offsets@.len() - 1);
            csr_monotone(id_offsets@, token_ids@.len() as int, 0, id_offsets@.len() - 1);
        }
        match BuildBuffers::reserve(
            token_count,
            token_bytes.len(),
            token_ids.len(),
            "packed sort-order",
            "packed group-id scratch allocation failed",
        ) {
            Ok(buffers) => Self::assemble_packed(
                token_bytes,
                byte_offsets,
                token_ids,
                id_offsets,
                buffers,
            ),
            Err(e) => Err(e),
        }
    }

    /// Merges the tokens of admitted packed buffers into canonical records, in buffers that the
    /// caller has reserved.
    #[verifier::rlimit(40)]
    pub fn assemble_packed(
        token_bytes: &[u8],
        byte_offsets: &[u32],
        token_ids: &[u32],
        id_offsets: &[u32],
        buffers: BuildBuffers,
    ) -> (r: Result<PreparedVocabulary, CompileError>)
        requires
            csr_ok(byte_offsets@, token_bytes@.len() as int),
            csr_ok(id_offsets@, token_ids@.len() as int),
            byte_offsets@.len() == id_offsets@.len(),
            byte_offsets@.len() - 1 <= MAX_PACKED_TOKENS,
            buffers.is_empty(),
        ensures
            merged_outcome(
                packed_entries(token_bytes@, byte_offsets@, token_ids@, id_offsets@),
                r,
            ),
    {
        let tokens = PackedTokens { token_bytes, byte_offsets, token_ids, id_offsets };
        let mut order: Vec<PackedSortKey> = packed_order(
            &tokens,
            (byte_offsets.len() - 1) as u32,
            buffers.order,
        );
        let ghost listed = order@;
        sort_order(&mut order, &tokens);
        proof {
            rearranged(tokens.entries(), listed, order@);
            rearranged_assigns(tokens.entries(), listed, order@);
            csr_monotone(byte_offsets@, token_bytes@.len() as int, 0, byte_offsets@.len() - 1);
            csr_monotone(id_offsets@, token_ids@.len() as int, 0, id_offsets@.len() - 1);
        }
        let r: Result<PreparedVocabulary, CompileError> = merge_sorted(
            &tokens,
            &order,
            buffers.blob,
            buffers.ids,
            buffers.records,
            buffers.group_ids,
        );
        proof {
            outcome_of_same_assignments(
                selected(tokens.entries(), order@),
                packed_entries(token_bytes@, byte_offsets@, token_ids@, id_offsets@),
                r,
            );
        }
        r
    }

    /// Builds directly from a dense, id-ordered tokenizer decode.
    /// Absent slots are skipped and duplicate byte ranges merge.
    pub fn build_from_dense_id_ordered(
        token_bytes: &[u8],
        byte_offsets: &[u32],
        present: &[bool],
        eos_token_id: u32,
    ) -> (r: Result<PreparedVocabulary, CompileError>)
        ensures
            built_from_dense(
                token_bytes@,
                byte_offsets@,
                present@,
                eos_token_id,
                MAX_PACKED_PROJECTED_PEAK_BYTES as int,
                r,
            ),
    {
        Self::build_from_dense_id_ordered_budgeted(
            token_bytes,
            byte_offsets,
            present,
            eos_token_id,
            MAX_PACKED_PROJECTED_PEAK_BYTES,
        )
    }

    /// `build_from_dense_id_ordered` with an explicit projected-peak budget.
    pub fn build_from_dense_id_ordered_budgeted(
        token_bytes: &[u8],
        byte_offsets: &[u32],
        present: &[bool],
        eos_token_id: u32,
        peak_budget: usize,
    ) -> (r: Result<PreparedVocabulary, CompileError>)
        ensures
            built_from_dense(
                token_bytes@,
                byte_offsets@,
                present@,
                eos_token_id,
                peak_budget as int,
                r,
            ),
    {
        match admit_dense(token_bytes, byte_offsets, present, eos_token_id, peak_budget) {
            Ok(()) => {},
            Err(e) => {
                return Err(e);
            },
        }
        let present_count: usize = count_present(present);
        proof {
            csr_monotone(byte_offsets@, token_bytes@.len() as int, 0, byte_offsets@.len() - 1);
        }
        match BuildBuffers::reserve(
            present_count,
            token_bytes.len(),
            present_count,
            "dense sort-order",
            "dense group-id scratch allocation failed",
        ) {
            Ok(buffers) => Ok(Self::assemble_dense(token_bytes, byte_offsets, present, buffers)),
            Err(e) => Err(e),
        }
    }

    /// Merges the present slots of admitted dense buffers into canonical records, in buffers that
    /// the caller has reserved.
    #[verifier::rlimit(40)]
    pub fn assemble_dense(
        token_bytes: &[u8],
        byte_offsets: &[u32],
        present: &[bool],
        buffers: BuildBuffers,
    ) -> (p: PreparedVocabulary)
        requires
            csr_ok(byte_offsets@, token_bytes@.len() as int),
            byte_offsets@.len() == present@.len() + 1,
            present@.len() <= MAX_PACKED_TOKENS,
            buffers.is_empty(),
        ensures
            is_canonical(p@),
            forall|key: Seq<u8>, id: u32| #[trigger]
                assigns(p@, key, id) == dense_assigns(
                    token_bytes@,
                    byte_offsets@,
                    present@,
                    key,
                    id,
                ),
    {
        let tokens = DenseTokens { token_bytes, byte_offsets };
        let mut order: Vec<PackedSortKey> = dense_order(&tokens, present, buffers.order);
        let ghost listed = order@;
        sort_order(&mut order, &tokens);
        proof {
            rearranged(tokens.entries(), listed, order@);
            rearranged_assigns(tokens.entries(), listed, order@);
            dense_selection(token_bytes@, byte_offsets@, present@, listed);
            csr_monotone(byte_offsets@, token_bytes@.len() as int, 0, byte_offsets@.len() - 1);
        }
        let merged: Result<PreparedVocabulary, CompileError> = merge_sorted(
            &tokens,
            &order,
            buffers.blob,
            buffers.ids,
            buffers.records,
            buffers.group_ids,
        );
        match merged {
            Ok(p) => {
                proof {
                    let from = selected(tokens.entries(), listed);
                    let to = selected(tokens.entries(), order@);
                    assert forall|key: Seq<u8>, id: u32| #[trigger]
                        assigns(p@, key, id) == dense_assigns(
                            token_bytes@,
                            byte_offsets@,
                            present@,
                            key,
                            id,
                        ) by {
                        assert(assigns(p@, key, id) == assigns(to, key, id));
                        assert(assigns(from, key, id) == assigns(to, key, id));
                    }
                }
                p
            },
            Err(_) => unreached(),
        }
    }

    /// The number of distinct token byte-strings.
    pub fn len(&self) -> (n: usize)
        ensures
            n == self@.len(),
    {
        self.records.len()
    }

    /// The total ordinary token ids across every record (not the distinct byte-string count: a
    /// record with two ids counts twice).
    pub fn total_ids(&self) -> (n: usize)
        ensures
            n == ids_total(self@),
            n <= u32::MAX,
    {
        proof {
            use_type_invariant(self);
            layout_totals(self.blob@, self.records@, self.ids@, self.records@.len() as int);
            assert(self@.take(self@.len() as int) =~= self@);
        }
        self.ids.len()
    }

    /// The total token bytes across every record (the blob's exact length, known for free).
    pub fn total_bytes(&self) -> (n: usize)
        ensures
            n == bytes_total(self@),
            n <= u32::MAX,
    {
        proof {
            use_type_invariant(self);
            layout_totals(self.blob@, self.records@, self.ids@, self.records@.len() as int);
            assert(self@.take(self@.len() as int) =~= self@);
        }
        self.blob.len()
    }

    /// Record `i`'s byte string, sorted-order indexed.
    pub fn record_bytes(&self, i: usize) -> (bytes: &[u8])
        requires
            i < self@.len(),
        ensures
            bytes@ == self@[i as int].0,
    {
        proof {
            use_type_invariant(self);
        }
        let r: TokenRecord = self.records[i];
        slice_subrange(self.blob.as_slice(), r.byte_start as usize, r.byte_end as usize)
    }

    /// Record `i`'s token ids, sorted ascending (not insertion order).
    pub fn record_ids(&self, i: usize) -> (ids: &[u32])
        requires
            i < self@.len(),
        ensures
            ids@ == self@[i as int].1,
    {
        proof {
            use_type_invariant(self);
        }
        let r: TokenRecord = self.records[i];
        slice_subrange(self.ids.as_slice(), r.id_start as usize, r.id_end as usize)
    }

    /// Every record as `(bytes, ids)`, in sorted order.
    pub fn iter(&self) -> (items: Vec<(&[u8], &[u32])>)
        ensures
            items@.len() == self@.len(),
            forall|i: int|
                0 <= i < items@.len() ==> (#[trigger] items@[i]).0@ == self@[i].0 && items@[i].1@
                    == self@[i].1,
    {
        let mut items: Vec<(&[u8], &[u32])> = Vec::with_capacity(self.len());
        let mut i: usize = 0;
        while i < self.len()
            invariant
                i <= self@.len(),
                items@.len() == i,
                forall|k: int|
                    0 <= k < i ==> (#[trigger] items@[k]).0@ == self@[k].0 && items@[k].1@
                        == self@[k].1,
            decreases self@.len() - i,
        {
            items.push((self.record_bytes(i), self.record_ids(i)));
            i = i + 1;
        }
        items
    }
}

/// `to` holds the byte strings of `from` in their order, each with its ids sorted.
pub open spec fn copied(from: Seq<(Seq<u8>, Seq<u32>)>, to: Seq<(Seq<u8>, Seq<u32>)>) -> bool {
    &&& from.len() == to.len()
    &&& forall|i: int|
        0 <= i < to.len() ==> (#[trigger] to[i]).0 == from[i].0 && sorted(to[i].1)
            && to[i].1.to_multiset() == from[i].1.to_multiset()
}

/// Why so many bytes and ids cannot be addressed, if they cannot.
pub open spec fn listing_fault(bytes: nat, ids: nat) -> Option<ErrorView> {
    if bytes > usize::MAX {
        Some(overflow_error("prepared vocabulary byte total overflows"@))
    } else if ids > usize::MAX {
        Some(overflow_error("prepared vocabulary id total overflows"@))
    } else if bytes > u32::MAX {
        Some(overflow_error("prepared vocabulary blob exceeds the addressable range"@))
    } else if ids > u32::MAX {
        Some(overflow_error("prepared vocabulary id array exceeds the addressable range"@))
    } else {
        None
    }
}

/// The error of a build that the allocator refused memory for.
pub open spec fn prepared_allocation_failed(e: ErrorView) -> bool {
    ||| e == overflow_error("prepared vocabulary blob"@)
    ||| e == overflow_error("prepared vocabulary id array"@)
    ||| e == overflow_error("prepared vocabulary records"@)
}

/// What a build from a token map returns: the fault of a map that cannot be addressed; else the
/// canonical records of the map, or the error of memory that could not be had.
pub open spec fn built_from_map(
    contents: Map<Seq<u8>, Seq<u32>>,
    r: Result<PreparedVocabulary, CompileError>,
) -> bool {
    let fault = listing_fault(map_bytes_total(contents), map_ids_total(contents));
    match r {
        Ok(p) => fault is None && is_canonical(p@) && forall|key: Seq<u8>, id: u32| #[trigger]
            assigns(p@, key, id) == map_assigns(contents, key, id),
        Err(e) => {
            &&& contents != Map::<Seq<u8>, Seq<u32>>::empty()
            &&& {
                ||| fault is Some && e@ == fault->Some_0
                ||| e@ == overflow_error("sort-pair scratch"@)
                ||| fault is None && prepared_allocation_failed(e@)
            }
        },
    }
}

/// Borrowed pairs of a byte string and its ids.
pub struct PairTokens<'a> {
    pub pairs: &'a Vec<(&'a [u8], &'a [u32])>,
}

impl<'a> TokenEntries for PairTokens<'a> {
    open spec fn entries(&self) -> Seq<(Seq<u8>, Seq<u32>)> {
        pairs_view(self.pairs@)
    }

    open spec fn valid(&self) -> bool {
        true
    }

    fn key_at(&self, index: u32) -> (key: &[u8]) {
        self.pairs[index as usize].0
    }

    fn append_ids(&self, index: u32, out: &mut Vec<u32>) {
        let ids: &[u32] = self.pairs[index as usize].1;
        let ghost before = out@;
        out.extend_from_slice(ids);
        assert(out@ =~= before + ids@);
    }
}

/// Every pair, as a sort key, in the order of the pairs.
fn pair_order(tokens: &PairTokens<'_>, order: Vec<PackedSortKey>) -> (keys: Vec<PackedSortKey>)
    requires
        tokens.pairs@.len() <= u32::MAX,
        order@.len() == 0,
    ensures
        keys_ok(tokens.entries(), keys@),
        keys@.len() == tokens.pairs@.len(),
        forall|i: int| 0 <= i < keys@.len() ==> (#[trigger] keys@[i]).index == i,
{
    let mut keys: Vec<PackedSortKey> = order;
    let ghost all = tokens.entries();
    let mut i: usize = 0;
    while i < tokens.pairs.len()
        invariant
            tokens.pairs@.len() <= u32::MAX,
            all == tokens.entries(),
            i <= tokens.pairs@.len(),
            keys@.len() == i,
            keys_ok(all, keys@),
            forall|k: int| 0 <= k < i ==> (#[trigger] keys@[k]).index == k,
        decreases tokens.pairs@.len() - i,
    {
        let index: u32 = i as u32;
        let key: &[u8] = tokens.key_at(index);
        keys.push(PackedSortKey { prefix: lexical_prefix(key), index });
        i = i + 1;
    }
    keys
}

/// There are no more non-empty byte strings than bytes in them.
proof fn nonempty_keys_count(records: Seq<(Seq<u8>, Seq<u32>)>)
    requires
        forall|i: int| 0 <= i < records.len() ==> (#[trigger] records[i]).0.len() > 0,
    ensures
        records.len() <= bytes_total(records),
    decreases records.len(),
{
    if records.len() > 0 {
        let rest = records.drop_last();
        assert forall|i: int| 0 <= i < rest.len() implies (#[trigger] rest[i]).0.len() > 0 by {
            assert(records[i].0.len() > 0);
        }
        nonempty_keys_count(rest);
        assert(records[records.len() - 1].0.len() > 0);
    }
}

/// `b` holds what `a` holds, in another order.
pub open spec fn is_rearranged(
    a: Seq<(Seq<u8>, Seq<u32>)>,
    b: Seq<(Seq<u8>, Seq<u32>)>,
) -> bool {
    exists|places: Seq<int>| rearranged_by(a, b, places)
}

/// The place `i` of `b` holds what the place `places[i]` of `a` does, each place once.
pub open spec fn rearranged_by(
    a: Seq<(Seq<u8>, Seq<u32>)>,
    b: Seq<(Seq<u8>, Seq<u32>)>,
    places: Seq<int>,
) -> bool {
    &&& a.len() == b.len()
    &&& places.len() == b.len()
    &&& places.no_duplicates()
    &&& forall|i: int|
        0 <= i < b.len() ==> 0 <= (#[trigger] places[i]) < a.len() && b[i] == a[places[i]]
    &&& forall|k: int| 0 <= k < a.len() ==> #[trigger] places.contains(k)
}

/// Sorts pairs by their byte strings, into lists that the caller has reserved.
#[verifier::rlimit(40)]
pub fn sort_pairs<'a>(
    pairs: &Vec<(&'a [u8], &'a [u32])>,
    order: Vec<PackedSortKey>,
    sorted_pairs: Vec<(&'a [u8], &'a [u32])>,
) -> (out: Vec<(&'a [u8], &'a [u32])>)
    requires
        pairs@.len() <= u32::MAX,
        order@.len() == 0,
        sorted_pairs@.len() == 0,
    ensures
        in_byte_order(pairs_view(out@)),
        is_rearranged(pairs_view(pairs@), pairs_view(out@)),
{
    let tokens = PairTokens { pairs };
    let ghost listed = pairs_view(pairs@);
    let mut order: Vec<PackedSortKey> = pair_order(&tokens, order);
    let ghost unsorted = order@;
    sort_order(&mut order, &tokens);
    let ghost sel = selected(listed, order@);
    proof {
        rearranged(listed, unsorted, order@);
        rearranged_assigns(listed, unsorted, order@);
    }
    let mut out: Vec<(&[u8], &[u32])> = sorted_pairs;
    let mut i: usize = 0;
    while i < order.len()
        invariant
            i <= order@.len(),
            listed == pairs_view(pairs@),
            keys_ok(listed, order@),
            sel == selected(listed, order@),
            out@.len() == i,
            pairs_view(out@) =~= sel.take(i as int),
        decreases order@.len() - i,
    {
        assert(key_ok(listed, order@[i as int]));
        out.push(pairs[order[i].index as usize]);
        i = i + 1;
    }
    proof {
        assert(sel.take(i as int) =~= sel);
        let places = Seq::new(order@.len(), |k: int| order@[k].index as int);
        assert(unsorted.no_duplicates());
        unsorted.lemma_multiset_has_no_duplicates();
        order@.lemma_multiset_has_no_duplicates_conv();
        assert forall|a: int, b: int| 0 <= a < b < places.len() implies places[a] != places[b] by {
            assert(key_ok(listed, order@[a]) && key_ok(listed, order@[b]));
            assert(order@[a] != order@[b]);
        }
        assert forall|k: int| 0 <= k < sel.len() implies 0 <= (#[trigger] places[k]) < listed.len()
            && sel[k] == listed[places[k]] by {
            assert(key_ok(listed, order@[k]));
        }
        assert forall|k: int| 0 <= k < listed.len() implies #[trigger] places.contains(k) by {
            assert(unsorted.contains(unsorted[k]));
            assert(order@.contains(unsorted[k]));
            let q = order@.index_of(unsorted[k]);
            assert(places[q] == k);
        }
        assert(rearranged_by(listed, sel, places));
    }
    out
}

/// A rearranged list of a map lists it too.
proof fn rearranged_pairs_list(
    a: Seq<(Seq<u8>, Seq<u32>)>,
    b: Seq<(Seq<u8>, Seq<u32>)>,
    contents: Map<Seq<u8>, Seq<u32>>,
)
    requires
        is_rearranged(a, b),
        lists(a, contents),
    ensures
        lists(b, contents),
{
    let places = choose|places: Seq<int>| rearranged_by(a, b, places);
    assert forall|i: int| 0 <= i < b.len() implies contents.contains_key((#[trigger] b[i]).0)
        && contents[b[i].0] == b[i].1 by {
        assert(b[i] == a[places[i]]);
    }
    assert forall|i: int, j: int| 0 <= i < j < b.len() implies (#[trigger] b[i]).0
        != (#[trigger] b[j]).0 by {
        assert(b[i] == a[places[i]] && b[j] == a[places[j]]);
        assert(places[i] != places[j]);
        assert(a[places[i]].0 != a[places[j]].0);
    }
    assert forall|key: Seq<u8>| #[trigger] contents.contains_key(key) implies exists|i: int|
        0 <= i < b.len() && (#[trigger] b[i]).0 == key by {
        let x = choose|x: int| 0 <= x < a.len() && (#[trigger] a[x]).0 == key;
        assert(places.contains(x));
        let i = places.index_of(x);
        assert(b[i] == a[x]);
    }
}

/// Ids that are sorted and occur once are in strictly ascending order.
proof fn sorted_distinct_is_ascending(from: Seq<u32>, to: Seq<u32>)
    requires
        from.no_duplicates(),
        sorted(to),
        to.to_multiset() == from.to_multiset(),
    ensures
        ascending(to),
        to.len() == from.len(),
        forall|id: u32| #[trigger] to.contains(id) == from.contains(id),
{
    from.to_multiset_ensures();
    to.to_multiset_ensures();
    from.lemma_multiset_has_no_duplicates();
    to.lemma_multiset_has_no_duplicates_conv();
    assert forall|id: u32| #[trigger] to.contains(id) == from.contains(id) by {
        assert(to.contains(id) <==> to.to_multiset().count(id) > 0);
        assert(from.contains(id) <==> from.to_multiset().count(id) > 0);
    }
    assert forall|i: int, j: int| 0 <= i < j < to.len() implies to[i] < to[j] by {
        assert(to[i] <= to[j]);
        assert(to[i] != to[j]);
    }
}

/// The copy of a byte-sorted list of a valid token map is canonical, and assigns what the map
/// does.
proof fn sorted_listing_is_canonical(
    sel: Seq<(Seq<u8>, Seq<u32>)>,
    out: Seq<(Seq<u8>, Seq<u32>)>,
    eos: u32,
    contents: Map<Seq<u8>, Seq<u32>>,
)
    requires
        lists(sel, contents),
        in_byte_order(sel),
        valid_contents(eos, contents),
        copied(sel, out),
    ensures
        is_canonical(out),
        forall|key: Seq<u8>, id: u32| #[trigger]
            assigns(out, key, id) == map_assigns(contents, key, id),
{
    assert forall|i: int| 0 <= i < out.len() implies (#[trigger] out[i]).1.len() > 0 && ascending(
        out[i].1,
    ) by {
        assert(contents.contains_key(sel[i].0));
        assert(valid_entry(eos, sel[i].0, sel[i].1));
        sorted_distinct_is_ascending(sel[i].1, out[i].1);
    }
    assert forall|i: int, j: int| 0 <= i < j < out.len() implies lex_lt(
        #[trigger] out[i].0,
        #[trigger] out[j].0,
    ) by {
        assert(lex_le(sel[i].0, sel[j].0));
    }
    assert forall|key: Seq<u8>, id: u32| #[trigger] assigns(out, key, id) == map_assigns(
        contents,
        key,
        id,
    ) by {
        listing_assigns(sel, contents, key, id);
        if assigns(out, key, id) {
            let i = choose|i: int| assigns_at(out, i, key, id);
            assert(contents.contains_key(sel[i].0));
            assert(valid_entry(eos, sel[i].0, sel[i].1));
            sorted_distinct_is_ascending(sel[i].1, out[i].1);
            assert(assigns_at(sel, i, key, id));
        }
        if assigns(sel, key, id) {
            let i = choose|i: int| assigns_at(sel, i, key, id);
            assert(contents.contains_key(sel[i].0));
            assert(valid_entry(eos, sel[i].0, sel[i].1));
            sorted_distinct_is_ascending(sel[i].1, out[i].1);
            assert(assigns_at(out, i, key, id));
        }
    }
}

/// What a packed build returns: the rejection of buffers that are refused; else the canonical
/// records of the packed tokens, the error of a token that no entry gives an id, or the error of
/// memory that could not be had.
pub open spec fn built_from_packed(
    token_bytes: Seq<u8>,
    byte_offsets: Seq<u32>,
    token_ids: Seq<u32>,
    id_offsets: Seq<u32>,
    eos_token_id: u32,
    peak_budget: int,
    r: Result<PreparedVocabulary, CompileError>,
) -> bool {
    let entries = packed_entries(token_bytes, byte_offsets, token_ids, id_offsets);
    match packed_rejection(
        token_bytes,
        byte_offsets,
        token_ids,
        id_offsets,
        eos_token_id,
        peak_budget,
    ) {
        Some(rejection) => r is Err && r->Err_0@ == rejection,
        None => merged_outcome(entries, r) || (r is Err && entries.len() > 0
            && packed_allocation_failed(r->Err_0@)),
    }
}

/// What a dense build returns: the rejection of buffers that are refused; else the canonical
/// records of the present slots, or the error of memory that could not be had.
pub open spec fn built_from_dense(
    token_bytes: Seq<u8>,
    byte_offsets: Seq<u32>,
    present: Seq<bool>,
    eos_token_id: u32,
    peak_budget: int,
    r: Result<PreparedVocabulary, CompileError>,
) -> bool {
    match dense_rejection(token_bytes, byte_offsets, present, eos_token_id, peak_budget) {
        Some(rejection) => r is Err && r->Err_0@ == rejection,
        None => match r {
            Ok(p) => is_canonical(p@) && forall|key: Seq<u8>, id: u32| #[trigger]
                assigns(p@, key, id) == dense_assigns(token_bytes, byte_offsets, present, key, id),
            Err(e) => (present_total(present) > 0 || token_bytes.len() > 0)
                && dense_allocation_failed(e@),
        },
    }
}

} // verus!
