//! What buffers are accepted and what is built of them, said of the buffers themselves.

use vstd::prelude::*;

use crate::admission::{
    MAX_MASK_TOKENS, MAX_PACKED_PROJECTED_PEAK_BYTES, MAX_PACKED_TOKENS, csr_fault, csr_ok,
    dense_allocation_failed, dense_rejection, full_peak, largest_id, packed_allocation_failed,
    packed_rejection, present_total,
};
use crate::byte_order::{lex_le, lex_lt, prefix_value};
use crate::canonical::{
    CanonicalVocabulary, ambiguous, ambiguous_id_error, canonical_valid, canonicalised, dense_pays,
    doubly_held, index_allocation_failed, largest_of_all, mask_width, width_fault,
};
use crate::digest::blake3_hash;
use crate::error::{CompileError, ErrorCode, ErrorView, Stage};
use crate::fingerprint::{
    fingerprint_input, fingerprint_input_is_injective, is_ordinary_max, lengths_fit,
};
use crate::prepared::{
    PreparedVocabulary, built_from_dense, built_from_map, built_from_packed, copied, dense_assigns,
    listing_fault, packed_entries,
};
use crate::records::{ascending, assigns, assigns_at, has_id, is_canonical, sorted};
use crate::token_map::{map_assigns, map_bytes_total, map_ids_total};

verus! {

/// `a` stands before `b`: they agree up to a place where `a` ends and `b` does not, or where the
/// byte of `a` is the smaller one.
pub open spec fn stands_before(a: Seq<u8>, b: Seq<u8>) -> bool {
    exists|d: int| #[trigger] parts_at(a, b, d)
}

/// The place `d` is where `a` parts from `b`, and goes before it.
pub open spec fn parts_at(a: Seq<u8>, b: Seq<u8>, d: int) -> bool {
    &&& 0 <= d <= a.len()
    &&& d < b.len()
    &&& forall|i: int| 0 <= i < d ==> a[i] == b[i]
    &&& d == a.len() || a[d] < b[d]
}

/// The order of byte strings is the order at the first place where they differ, and a beginning
/// stands before what it begins.
pub proof fn byte_order_is_decided_at_the_first_difference(a: Seq<u8>, b: Seq<u8>)
    ensures
        lex_lt(a, b) <==> stands_before(a, b),
        lex_le(a, b) <==> a == b || stands_before(a, b),
    decreases a.len(),
{
    if a.len() == 0 {
        if b.len() > 0 {
            assert(parts_at(a, b, 0));
        } else {
            assert(a =~= b);
        }
    } else if b.len() == 0 {
    } else if a[0] != b[0] {
        if a[0] < b[0] {
            assert(parts_at(a, b, 0));
        }
        if stands_before(a, b) {
            let d = choose|d: int| #[trigger] parts_at(a, b, d);
            assert(d == 0);
        }
    } else {
        let x = a.drop_first();
        let y = b.drop_first();
        byte_order_is_decided_at_the_first_difference(x, y);
        if a == b {
            assert(x == y);
        }
        if x == y {
            assert(a =~= seq![a[0]] + x);
            assert(b =~= seq![b[0]] + y);
        }
        if stands_before(x, y) {
            let d = choose|d: int| #[trigger] parts_at(x, y, d);
            assert forall|i: int| 0 <= i < d + 1 implies a[i] == b[i] by {
                if i > 0 {
                    assert(x[i - 1] == y[i - 1]);
                }
            }
            assert(parts_at(a, b, d + 1));
        }
        if stands_before(a, b) {
            let d = choose|d: int| #[trigger] parts_at(a, b, d);
            assert(d > 0);
            assert forall|i: int| 0 <= i < d - 1 implies x[i] == y[i] by {
                assert(a[i + 1] == b[i + 1]);
            }
            assert(parts_at(x, y, d - 1));
        }
        if a == b && stands_before(a, b) {
            let d = choose|d: int| #[trigger] parts_at(a, b, d);
        }
    }
}

/// The sort prefix is the number that the first eight bytes spell, the first byte weighing most
/// and missing bytes counting as zero.
pub proof fn sort_prefixes_weigh_the_first_bytes(s: Seq<u8>)
    ensures
        ({
            let at = |i: int|
                if i < s.len() {
                    s[i] as int
                } else {
                    0
                };
            prefix_value(s, 8) == ((((((at(0) * 256 + at(1)) * 256 + at(2)) * 256 + at(3)) * 256
                + at(4)) * 256 + at(5)) * 256 + at(6)) * 256 + at(7)
        }),
{
    reveal_with_fuel(prefix_value, 9);
}

/// Offsets bound items exactly where there is one at least, the first is 0, none is less than one
/// before it and the last is the length of the buffer.
pub open spec fn bounds_items(offsets: Seq<u32>, len: int) -> bool {
    &&& offsets.len() > 0
    &&& offsets[0] == 0
    &&& forall|i: int, j: int| 0 <= i < j < offsets.len() ==> offsets[i] <= offsets[j]
    &&& offsets[offsets.len() - 1] == len
}

/// Offsets are accepted exactly where they bound the items of the buffer, and else refused for the
/// first of: none at all, a first that is not 0, one that is less than the one before it, a last
/// that is not the length.
pub proof fn offsets_are_refused_in_order(offsets: Seq<u32>, len: int)
    ensures
        csr_ok(offsets, len) <==> bounds_items(offsets, len),
        ({
            let fault = csr_fault(offsets, len);
            let a = offsets.len() > 0;
            let b = a && offsets[0] == 0;
            let c = b && forall|i: int, j: int|
                0 <= i < j < offsets.len() ==> offsets[i] <= offsets[j];
            &&& !a ==> fault == Some("offsets must have at least one element"@)
            &&& a && !b ==> fault == Some("offsets must start at 0"@)
            &&& b && !c ==> fault == Some("offsets must be non-decreasing"@)
            &&& c && offsets.last() != len ==> fault == Some(
                "offsets' final entry must equal the buffer length"@,
            )
        }),
{
    if offsets.len() > 0 && offsets[0] == 0 {
        let falls = exists|i: int|
            0 <= i < offsets.len() - 1 && #[trigger] offsets[i] > offsets[i + 1];
        if falls {
            let i = choose|i: int|
                0 <= i < offsets.len() - 1 && #[trigger] offsets[i] > offsets[i + 1];
            assert(!(offsets[i] <= offsets[i + 1]));
        } else {
            assert forall|i: int, j: int| 0 <= i < j < offsets.len() implies offsets[i]
                <= offsets[j] by {
                steps_do_not_fall(offsets, i, j);
            }
        }
    }
}

proof fn steps_do_not_fall(offsets: Seq<u32>, i: int, j: int)
    requires
        0 <= i <= j < offsets.len(),
        !(exists|k: int| 0 <= k < offsets.len() - 1 && #[trigger] offsets[k] > offsets[k + 1]),
    ensures
        offsets[i] <= offsets[j],
    decreases j - i,
{
    if i < j {
        steps_do_not_fall(offsets, i, j - 1);
        assert(!(offsets[j - 1] > offsets[j - 1 + 1]));
    }
}

/// The memory that a build of so many bytes, ids and tokens is charged for: the bytes, eight for
/// each id, 32 for each token, and for the index the larger of 8 MiB and 24 for each id.
pub open spec fn charged(bytes: int, ids: int, tokens: int) -> int {
    bytes + 8 * ids + 32 * tokens + if 24 * ids > 8_388_608 {
        24 * ids
    } else {
        8_388_608
    }
}

/// The projected peak is the charge for all buffers that are live at once.
pub proof fn peaks_are_charges(bytes: int, ids: int, tokens: int)
    ensures
        full_peak(bytes, ids, tokens) == charged(bytes, ids, tokens),
{
}

/// A charge fits a budget: what is charged, as far as a length can say, is at most the budget.
pub open spec fn affords(charge: int, budget: int) -> bool {
    charge <= budget || usize::MAX <= budget
}

/// The largest of the ids and the end-of-sequence id bounds them all and is one of them.
proof fn largest_bounds(ids: Seq<u32>, floor: u32)
    ensures
        floor <= largest_id(ids, floor),
        forall|k: int| 0 <= k < ids.len() ==> (#[trigger] ids[k]) <= largest_id(ids, floor),
        largest_id(ids, floor) == floor || exists|k: int|
            0 <= k < ids.len() && #[trigger] ids[k] == largest_id(ids, floor),
    decreases ids.len(),
{
    if ids.len() > 0 {
        let front = ids.drop_last();
        let n = ids.len() - 1;
        largest_bounds(front, floor);
        let most = largest_id(ids, floor);
        assert(ids[n] == ids.last());
        assert forall|k: int| 0 <= k < ids.len() implies (#[trigger] ids[k]) <= most by {
            if k < n {
                assert(front[k] == ids[k]);
            }
        }
        if most != ids.last() && most != floor {
            let k = choose|k: int| 0 <= k < front.len() && #[trigger] front[k] == most;
            assert(ids[k] == most);
        }
    }
}

/// What packed buffers are refused for before anything is built of them, in order: lists of
/// offsets of different lengths, offsets that bound no items, more than 2^24 tokens, a charge over
/// the budget, a token without bytes, the end-of-sequence id among the ids, and an id of 2^21 or
/// more. Buffers with none of these faults are accepted. (Where lengths have 32 bits, the largest
/// id of all has an error of its own.)
pub proof fn packed_buffers_are_refused_in_order(
    token_bytes: Seq<u8>,
    byte_offsets: Seq<u32>,
    token_ids: Seq<u32>,
    id_offsets: Seq<u32>,
    eos: u32,
    budget: int,
)
    requires
        0 <= budget,
        token_bytes.len() <= usize::MAX,
        token_ids.len() <= usize::MAX,
    ensures
        ({
            let fault = packed_rejection(
                token_bytes,
                byte_offsets,
                token_ids,
                id_offsets,
                eos,
                budget,
            );
            let n = byte_offsets.len() - 1;
            let a = byte_offsets.len() == id_offsets.len();
            let b = a && bounds_items(byte_offsets, token_bytes.len() as int);
            let c = b && bounds_items(id_offsets, token_ids.len() as int);
            let d = c && n <= 16_777_216;
            let e = d && affords(
                charged(token_bytes.len() as int, token_ids.len() as int, n),
                budget,
            );
            let f = e && forall|i: int|
                0 <= i < n ==> (#[trigger] byte_offsets[i]) < byte_offsets[i + 1];
            let g = f && forall|k: int| 0 <= k < token_ids.len() ==> #[trigger] token_ids[k] != eos;
            let h = g && eos < 2_097_152 && forall|k: int|
                0 <= k < token_ids.len() ==> (#[trigger] token_ids[k]) < 2_097_152;
            &&& !a ==> fault == Some(
                bad_buffers("byte_offsets and id_offsets must have the same length"@),
            )
            &&& a && !b ==> fault is Some && fault->Some_0.code == ErrorCode::Unsupported
                && fault->Some_0.stage == Stage::VocabBuild
            &&& b && !c ==> fault is Some && fault->Some_0.code == ErrorCode::Unsupported
                && fault->Some_0.stage == Stage::VocabBuild
            &&& c && !d ==> fault == Some(bad_buffers("packed token count exceeds the cap"@))
            &&& d && !e ==> fault == Some(
                bad_buffers("projected peak memory for this packed build exceeds the cap"@),
            )
            &&& e && !f ==> fault == Some(no_bytes())
            &&& f && !g ==> fault == Some(eos_among_ids())
            &&& g && !h ==> fault == Some(mask_too_wide()) || (usize::MAX == 0xffff_ffff && fault
                == Some(mask_overflows()))
            &&& h ==> fault is None
        }),
{
    offsets_are_refused_in_order(byte_offsets, token_bytes.len() as int);
    offsets_are_refused_in_order(id_offsets, token_ids.len() as int);
    largest_bounds(token_ids, eos);
    let n = byte_offsets.len() - 1;
    peaks_are_charges(token_bytes.len() as int, token_ids.len() as int, n);
    if bounds_items(byte_offsets, token_bytes.len() as int) {
        assert forall|i: int| 0 <= i < n implies #[trigger] byte_offsets[i]
            <= byte_offsets[i + 1] by {}
        if exists|i: int| 0 <= i < n && #[trigger] byte_offsets[i] == byte_offsets[i + 1] {
            let i = choose|i: int|
                0 <= i < n && #[trigger] byte_offsets[i] == byte_offsets[i + 1];
            assert(!(byte_offsets[i] < byte_offsets[i + 1]));
        } else {
            assert forall|i: int| 0 <= i < n implies (#[trigger] byte_offsets[i]) < byte_offsets[i
                + 1] by {
                assert(byte_offsets[i] != byte_offsets[i + 1]);
            }
        }
    }
    if token_ids.contains(eos) {
        let k = token_ids.index_of(eos);
        assert(token_ids[k] == eos);
    } else {
        assert forall|k: int| 0 <= k < token_ids.len() implies #[trigger] token_ids[k] != eos by {
            if token_ids[k] == eos {
                assert(token_ids.contains(eos));
            }
        }
    }
}

pub open spec fn build_error(code: ErrorCode, stage: Stage, message: Seq<char>) -> ErrorView {
    ErrorView {
        code,
        stage,
        message,
        json_pointer_path: None,
        keyword: None,
        observed: None,
        limit: None,
    }
}

pub open spec fn bad_buffers(message: Seq<char>) -> ErrorView {
    build_error(ErrorCode::Unsupported, Stage::VocabBuild, message)
}

pub open spec fn no_bytes() -> ErrorView {
    build_error(ErrorCode::EmptyToken, Stage::VocabBuild, "vocabulary token has zero bytes"@)
}

pub open spec fn no_ids() -> ErrorView {
    build_error(ErrorCode::MalformedTokenizer, Stage::VocabBuild, "token has an empty id list"@)
}

pub open spec fn eos_among_ids() -> ErrorView {
    build_error(
        ErrorCode::MalformedTokenizer,
        Stage::VocabBuild,
        "EOS token id present in the token map"@,
    )
}

pub open spec fn mask_too_wide() -> ErrorView {
    build_error(
        ErrorCode::InternalLimitExceeded,
        Stage::L4Bind,
        "mask width exceeds the token-id cap"@,
    )
}

pub open spec fn mask_overflows() -> ErrorView {
    build_error(
        ErrorCode::InternalLimitExceeded,
        Stage::L4Bind,
        "max token id overflows the mask width"@,
    )
}

/// One more slot counts exactly where it is present.
pub proof fn present_slots_are_counted(present: Seq<bool>, last: bool)
    ensures
        present_total(Seq::<bool>::empty()) == 0,
        present_total(present.push(last)) == present_total(present) + if last {
            1nat
        } else {
            0nat
        },
{
    assert(present.push(last).drop_last() =~= present);
}

/// What dense buffers are refused for before anything is built of them, in order: offsets that are
/// not one more than the slots, offsets that bound no items, more than 2^24 slots, a charge over
/// the budget, a present slot without bytes, and a present slot of the end-of-sequence id. Buffers
/// with none of these faults are accepted. Absent slots are charged for and checked in nothing.
pub proof fn dense_buffers_are_refused_in_order(
    token_bytes: Seq<u8>,
    byte_offsets: Seq<u32>,
    present: Seq<bool>,
    eos: u32,
    budget: int,
)
    requires
        0 <= budget,
        token_bytes.len() <= usize::MAX,
        present.len() < usize::MAX,
    ensures
        ({
            let fault = dense_rejection(token_bytes, byte_offsets, present, eos, budget);
            let held = present_total(present) as int;
            let a = byte_offsets.len() == present.len() + 1;
            let b = a && bounds_items(byte_offsets, token_bytes.len() as int);
            let c = b && present.len() <= 16_777_216;
            let d = c && affords(charged(token_bytes.len() as int, held, held), budget);
            let e = d && forall|i: int|
                0 <= i < present.len() && #[trigger] present[i] ==> byte_offsets[i]
                    < byte_offsets[i + 1];
            let f = e && !(eos < present.len() && present[eos as int]);
            &&& !a ==> fault == Some(
                bad_buffers("byte_offsets must have exactly one more entry than present"@),
            )
            &&& a && !b ==> fault is Some && fault->Some_0.code == ErrorCode::Unsupported
                && fault->Some_0.stage == Stage::VocabBuild
            &&& b && !c ==> fault == Some(bad_buffers("dense token count exceeds the cap"@))
            &&& c && !d ==> fault == Some(
                bad_buffers("projected peak memory for this dense build exceeds the cap"@),
            )
            &&& d && !e ==> fault == Some(no_bytes())
            &&& e && !f ==> fault == Some(eos_among_ids())
            &&& f ==> fault is None
        }),
{
    offsets_are_refused_in_order(byte_offsets, token_bytes.len() as int);
    let held = present_total(present) as int;
    peaks_are_charges(token_bytes.len() as int, held, held);
    if bounds_items(byte_offsets, token_bytes.len() as int) && byte_offsets.len() == present.len()
        + 1 {
        assert forall|i: int| 0 <= i < present.len() implies #[trigger] byte_offsets[i]
            <= byte_offsets[i + 1] by {}
        if exists|i: int|
            0 <= i < present.len() && #[trigger] present[i] && byte_offsets[i] == byte_offsets[i
                + 1] {
            let i = choose|i: int|
                0 <= i < present.len() && #[trigger] present[i] && byte_offsets[i]
                    == byte_offsets[i + 1];
            assert(!(byte_offsets[i] < byte_offsets[i + 1]));
        } else {
            assert forall|i: int| 0 <= i < present.len() && #[trigger] present[i] implies
                byte_offsets[i] < byte_offsets[i + 1] by {
                assert(byte_offsets[i] <= byte_offsets[i + 1]);
            }
        }
    }
}

/// Some record has the byte string `key` and lists `id`.
pub open spec fn holds(records: Seq<(Seq<u8>, Seq<u32>)>, key: Seq<u8>, id: u32) -> bool {
    exists|r: int, p: int|
        {
            &&& 0 <= r < records.len()
            &&& 0 <= p < records[r].1.len()
            &&& records[r].0 == key
            &&& #[trigger] records[r].1[p] == id
        }
}

/// The records are in the order of their byte strings, each of which stands once, and each lists
/// at least one id, in ascending order.
pub open spec fn in_form(records: Seq<(Seq<u8>, Seq<u32>)>) -> bool {
    &&& forall|i: int, j: int|
        0 <= i < j < records.len() ==> stands_before(
            #[trigger] records[i].0,
            #[trigger] records[j].0,
        )
    &&& forall|i: int| 0 <= i < records.len() ==> (#[trigger] records[i]).1.len() > 0
    &&& forall|i: int, p: int, q: int|
        0 <= i < records.len() && 0 <= p < q < records[i].1.len() ==> (
        #[trigger] records[i].1[p]) < (#[trigger] records[i].1[q])
}

/// Canonical records are in form, and records in form are canonical.
pub proof fn canonical_is_in_form(records: Seq<(Seq<u8>, Seq<u32>)>)
    ensures
        is_canonical(records) <==> in_form(records),
{
    if is_canonical(records) {
        assert forall|i: int, j: int| 0 <= i < j < records.len() implies stands_before(
            #[trigger] records[i].0,
            #[trigger] records[j].0,
        ) by {
            byte_order_is_decided_at_the_first_difference(records[i].0, records[j].0);
        }
        assert forall|i: int, p: int, q: int|
            0 <= i < records.len() && 0 <= p < q < records[i].1.len() implies (
        #[trigger] records[i].1[p]) < (#[trigger] records[i].1[q]) by {
            assert(ascending(records[i].1));
        }
    }
    if in_form(records) {
        assert forall|i: int, j: int| 0 <= i < j < records.len() implies lex_lt(
            #[trigger] records[i].0,
            #[trigger] records[j].0,
        ) by {
            byte_order_is_decided_at_the_first_difference(records[i].0, records[j].0);
        }
        assert forall|i: int| 0 <= i < records.len() implies ascending(
            (#[trigger] records[i]).1,
        ) by {
            assert forall|p: int, q: int| 0 <= p < q < records[i].1.len() implies records[i].1[p]
                < records[i].1[q] by {
                assert(records[i].1[p] < records[i].1[q]);
            }
        }
    }
}

proof fn assigning_is_holding(records: Seq<(Seq<u8>, Seq<u32>)>, key: Seq<u8>, id: u32)
    ensures
        assigns(records, key, id) <==> holds(records, key, id),
{
    if assigns(records, key, id) {
        let r = choose|r: int| assigns_at(records, r, key, id);
        let p = records[r].1.index_of(id);
        assert(records[r].1[p] == id);
    }
    if holds(records, key, id) {
        let (r, p) = choose|r: int, p: int|
            {
                &&& 0 <= r < records.len()
                &&& 0 <= p < records[r].1.len()
                &&& records[r].0 == key
                &&& #[trigger] records[r].1[p] == id
            };
        assert(records[r].1.contains(id));
        assert(assigns_at(records, r, key, id));
    }
}

/// Some item of packed buffers has the bytes `key` and `id` among its ids.
pub open spec fn packs(
    token_bytes: Seq<u8>,
    byte_offsets: Seq<u32>,
    token_ids: Seq<u32>,
    id_offsets: Seq<u32>,
    key: Seq<u8>,
    id: u32,
) -> bool {
    exists|n: int, q: int|
        {
            &&& 0 <= n < byte_offsets.len() - 1
            &&& token_bytes.subrange(byte_offsets[n] as int, byte_offsets[n + 1] as int) == key
            &&& #[trigger] id_offsets[n] <= q < id_offsets[n + 1]
            &&& #[trigger] token_ids[q] == id
        }
}

/// Some item that has the bytes of the item `n` has an id.
pub open spec fn packs_an_id(
    token_bytes: Seq<u8>,
    byte_offsets: Seq<u32>,
    token_ids: Seq<u32>,
    id_offsets: Seq<u32>,
    n: int,
) -> bool {
    exists|id: u32| #[trigger]
        packs(
            token_bytes,
            byte_offsets,
            token_ids,
            id_offsets,
            token_bytes.subrange(byte_offsets[n] as int, byte_offsets[n + 1] as int),
            id,
        )
}

proof fn packing_is_assigning(
    token_bytes: Seq<u8>,
    byte_offsets: Seq<u32>,
    token_ids: Seq<u32>,
    id_offsets: Seq<u32>,
    key: Seq<u8>,
    id: u32,
)
    requires
        byte_offsets.len() == id_offsets.len(),
        bounds_items(id_offsets, token_ids.len() as int),
    ensures
        assigns(packed_entries(token_bytes, byte_offsets, token_ids, id_offsets), key, id)
            <==> packs(token_bytes, byte_offsets, token_ids, id_offsets, key, id),
{
    let all = packed_entries(token_bytes, byte_offsets, token_ids, id_offsets);
    if assigns(all, key, id) {
        let n = choose|n: int| assigns_at(all, n, key, id);
        let p = all[n].1.index_of(id);
        assert(id_offsets[n] <= id_offsets[n + 1]);
        assert(id_offsets[n + 1] <= token_ids.len()) by {
            if n + 1 < id_offsets.len() - 1 {
                assert(id_offsets[n + 1] <= id_offsets[id_offsets.len() - 1]);
            }
        }
        assert(token_ids[id_offsets[n] + p] == id);
    }
    if packs(token_bytes, byte_offsets, token_ids, id_offsets, key, id) {
        let (n, q) = choose|n: int, q: int|
            {
                &&& 0 <= n < byte_offsets.len() - 1
                &&& token_bytes.subrange(byte_offsets[n] as int, byte_offsets[n + 1] as int) == key
                &&& #[trigger] id_offsets[n] <= q < id_offsets[n + 1]
                &&& #[trigger] token_ids[q] == id
            };
        assert(id_offsets[n + 1] <= token_ids.len()) by {
            if n + 1 < id_offsets.len() - 1 {
                assert(id_offsets[n + 1] <= id_offsets[id_offsets.len() - 1]);
            }
        }
        let p = q - id_offsets[n];
        assert(all[n].1[p] == id);
        assert(all[n].1.contains(id));
        assert(assigns_at(all, n, key, id));
    }
}

/// A packed build that succeeds holds records in form, and they give a byte string an id exactly
/// where some item of the buffers does.
pub proof fn packed_builds_hold_the_items(
    token_bytes: Seq<u8>,
    byte_offsets: Seq<u32>,
    token_ids: Seq<u32>,
    id_offsets: Seq<u32>,
    eos: u32,
    budget: int,
    p: PreparedVocabulary,
    key: Seq<u8>,
    id: u32,
)
    requires
        0 <= budget,
        token_bytes.len() <= usize::MAX,
        token_ids.len() <= usize::MAX,
        built_from_packed(
            token_bytes,
            byte_offsets,
            token_ids,
            id_offsets,
            eos,
            budget,
            Ok(p),
        ),
    ensures
        in_form(p@),
        holds(p@, key, id) <==> packs(
            token_bytes,
            byte_offsets,
            token_ids,
            id_offsets,
            key,
            id,
        ),
{
    packed_buffers_are_refused_in_order(
        token_bytes,
        byte_offsets,
        token_ids,
        id_offsets,
        eos,
        budget,
    );
    canonical_is_in_form(p@);
    assigning_is_holding(p@, key, id);
    packing_is_assigning(token_bytes, byte_offsets, token_ids, id_offsets, key, id);
    let all = packed_entries(token_bytes, byte_offsets, token_ids, id_offsets);
    assert(assigns(p@, key, id) == assigns(all, key, id));
}

/// A packed build of buffers that are not refused, and that have memory, fails exactly where some
/// item's bytes have no id in any item, and then says so.
pub proof fn packed_builds_need_an_id_for_each_token(
    token_bytes: Seq<u8>,
    byte_offsets: Seq<u32>,
    token_ids: Seq<u32>,
    id_offsets: Seq<u32>,
    eos: u32,
    budget: int,
    r: Result<PreparedVocabulary, CompileError>,
)
    requires
        0 <= budget,
        token_bytes.len() <= usize::MAX,
        token_ids.len() <= usize::MAX,
        built_from_packed(token_bytes, byte_offsets, token_ids, id_offsets, eos, budget, r),
        packed_rejection(token_bytes, byte_offsets, token_ids, id_offsets, eos, budget) is None,
        r matches Err(e) ==> !packed_allocation_failed(e@),
    ensures
        r is Ok <==> forall|n: int|
            0 <= n < byte_offsets.len() - 1 ==> #[trigger] packs_an_id(
                token_bytes,
                byte_offsets,
                token_ids,
                id_offsets,
                n,
            ),
        r is Err ==> r->Err_0@ == no_ids(),
{
    packed_buffers_are_refused_in_order(
        token_bytes,
        byte_offsets,
        token_ids,
        id_offsets,
        eos,
        budget,
    );
    let all = packed_entries(token_bytes, byte_offsets, token_ids, id_offsets);
    if r is Ok {
        assert forall|n: int| 0 <= n < byte_offsets.len() - 1 implies #[trigger] packs_an_id(
            token_bytes,
            byte_offsets,
            token_ids,
            id_offsets,
            n,
        ) by {
            assert(has_id(all, all[n].0));
            let id = choose|id: u32| assigns(all, all[n].0, id);
            packing_is_assigning(
                token_bytes,
                byte_offsets,
                token_ids,
                id_offsets,
                all[n].0,
                id,
            );
        }
    } else {
        let n = choose|n: int| 0 <= n < all.len() && !has_id(all, (#[trigger] all[n]).0);
        let key = token_bytes.subrange(byte_offsets[n] as int, byte_offsets[n + 1] as int);
        assert(all[n].0 == key);
        assert forall|id: u32| !packs(
            token_bytes,
            byte_offsets,
            token_ids,
            id_offsets,
            key,
            id,
        ) by {
            packing_is_assigning(token_bytes, byte_offsets, token_ids, id_offsets, key, id);
            assert(!assigns(all, key, id));
        }
        assert(!packs_an_id(token_bytes, byte_offsets, token_ids, id_offsets, n));
    }
}

/// A dense build that succeeds holds records in form, and they give a byte string an id exactly
/// where the slot of that index is present and has these bytes.
pub proof fn dense_builds_hold_the_slots(
    token_bytes: Seq<u8>,
    byte_offsets: Seq<u32>,
    present: Seq<bool>,
    eos: u32,
    budget: int,
    p: PreparedVocabulary,
    key: Seq<u8>,
    id: u32,
)
    requires
        built_from_dense(token_bytes, byte_offsets, present, eos, budget, Ok(p)),
    ensures
        in_form(p@),
        holds(p@, key, id) <==> id < present.len() && present[id as int] && token_bytes.subrange(
            byte_offsets[id as int] as int,
            byte_offsets[id + 1] as int,
        ) == key,
{
    canonical_is_in_form(p@);
    assigning_is_holding(p@, key, id);
    assert(assigns(p@, key, id) == dense_assigns(token_bytes, byte_offsets, present, key, id));
}

/// A build of a token map that succeeds holds records in form, and they give a byte string an id
/// exactly where the map does.
pub proof fn map_builds_hold_the_map(
    contents: Map<Seq<u8>, Seq<u32>>,
    p: PreparedVocabulary,
    key: Seq<u8>,
    id: u32,
)
    requires
        built_from_map(contents, Ok(p)),
    ensures
        in_form(p@),
        holds(p@, key, id) <==> contents.contains_key(key) && exists|q: int|
            0 <= q < contents[key].len() && #[trigger] contents[key][q] == id,
{
    canonical_is_in_form(p@);
    assigning_is_holding(p@, key, id);
    assert(assigns(p@, key, id) == map_assigns(contents, key, id));
    if contents.contains_key(key) {
        if contents[key].contains(id) {
            let q = contents[key].index_of(id);
            assert(contents[key][q] == id);
        }
    }
}

/// A vocabulary that is made of records has their byte strings and ids, the end-of-sequence id
/// that was given, and the width that was asked for; where none was, the least that covers every
/// id. No id is held by two records, and the end-of-sequence id by none.
pub proof fn canonical_vocabularies_cover_their_ids(
    records: Seq<(Seq<u8>, Seq<u32>)>,
    eos: u32,
    width: Option<usize>,
    c: CanonicalVocabulary,
)
    requires
        canonicalised(records, eos, width, Ok(c)),
    ensures
        c@.records == records,
        c@.eos_token_id == eos,
        width matches Some(w) ==> c@.mask_vocab_size == w,
        width is None ==> c@.mask_vocab_size == eos + 1 || exists|r: int, p: int|
            0 <= r < records.len() && 0 <= p < records[r].1.len() && c@.mask_vocab_size == (
            #[trigger] records[r].1[p]) + 1,
        eos < c@.mask_vocab_size <= 2_097_152,
        forall|r: int, p: int|
            0 <= r < records.len() && 0 <= p < records[r].1.len() ==> (
            #[trigger] records[r].1[p]) < c@.mask_vocab_size && records[r].1[p] != eos,
        forall|q: int, p: int, r: int, s: int|
            0 <= q < r < records.len() && 0 <= p < records[q].1.len() && 0 <= s < records[r].1.len()
                ==> #[trigger] records[q].1[p] != #[trigger] records[r].1[s],
{
    let v = c@;
    assert forall|r: int, p: int| 0 <= r < records.len() && 0 <= p < records[r].1.len() implies (
    #[trigger] records[r].1[p]) < v.mask_vocab_size && records[r].1[p] != eos by {
        let id = records[r].1[p];
        assert(records[r].1.contains(id));
        assert(assigns_at(records, r, records[r].0, id));
        assert(assigns(records, records[r].0, id));
    }
    assert forall|q: int, p: int, r: int, s: int|
        0 <= q < r < records.len() && 0 <= p < records[q].1.len() && 0 <= s
            < records[r].1.len() implies #[trigger] records[q].1[p] != #[trigger] records[r].1[s] by {
        let id = records[q].1[p];
        if id == records[r].1[s] {
            assert(records[q].1.contains(id));
            assert(records[r].1.contains(id));
            assert(doubly_held(records, q, r, id));
        }
    }
    if width is None {
        let most = choose|most: Option<u32>|
            {
                let max_id = largest_of_all(most, eos);
                &&& #[trigger] is_ordinary_max(records, most)
                &&& width_fault(max_id, width) is None
                &&& c@.mask_vocab_size == mask_width(max_id, width)
            };
        if v.mask_vocab_size != eos + 1 {
            let m = most->Some_0;
            let key = choose|key: Seq<u8>| assigns(records, key, m);
            let r = choose|r: int| assigns_at(records, r, key, m);
            let p = records[r].1.index_of(m);
            assert(v.mask_vocab_size == records[r].1[p] + 1);
        }
    }
}

/// What keeps records from a vocabulary, in order: a width that is asked for and does not cover
/// every id, a width of more than 2^21, and an id that two records hold. Where there is none of
/// these, and memory, the vocabulary is made.
pub proof fn canonical_vocabularies_are_refused_in_order(
    records: Seq<(Seq<u8>, Seq<u32>)>,
    eos: u32,
    width: Option<usize>,
    r: Result<CanonicalVocabulary, CompileError>,
)
    requires
        canonicalised(records, eos, width, r),
        r matches Err(e) ==> !index_allocation_failed(e@),
        usize::MAX > 0xffff_ffff,
    ensures
        ({
            let covers = |w: int|
                eos < w && forall|i: int, p: int|
                    0 <= i < records.len() && 0 <= p < records[i].1.len() ==> (
                    #[trigger] records[i].1[p]) < w;
            let a = width matches Some(w) ==> covers(w as int);
            let b = a && match width {
                Some(w) => w <= 2_097_152,
                None => covers(2_097_152),
            };
            let c = b && forall|q: int, p: int, i: int, s: int|
                0 <= q < i < records.len() && 0 <= p < records[q].1.len() && 0 <= s
                    < records[i].1.len() ==> #[trigger] records[q].1[p]
                    != #[trigger] records[i].1[s];
            &&& !a ==> r is Err && r->Err_0@ == build_error(
                ErrorCode::InternalLimitExceeded,
                Stage::L4Bind,
                "explicit logits vocab size is smaller than the largest token/EOS id"@,
            )
            &&& a && !b ==> r is Err && r->Err_0@ == mask_too_wide()
            &&& b && !c ==> r is Err && r->Err_0@ == build_error(
                ErrorCode::MalformedTokenizer,
                Stage::ArtifactValidate,
                "one token id maps to two different byte sequences"@,
            )
            &&& c ==> r is Ok
        }),
{
    let most = choose|most: Option<u32>|
        {
            let max_id = largest_of_all(most, eos);
            &&& #[trigger] is_ordinary_max(records, most)
            &&& match width_fault(max_id, width) {
                Some(fault) => r is Err && r->Err_0@ == fault,
                None => match r {
                    Ok(c) => canonical_valid(c@) && c@.records == records,
                    Err(e) => ambiguous(records) && e@ == ambiguous_id_error(),
                },
            }
        };
    let max_id = largest_of_all(most, eos);
    assert forall|i: int, p: int| 0 <= i < records.len() && 0 <= p < records[i].1.len() implies (
    #[trigger] records[i].1[p]) <= max_id by {
        let id = records[i].1[p];
        assert(records[i].1.contains(id));
        assert(assigns_at(records, i, records[i].0, id));
        assert(assigns(records, records[i].0, id));
    }
    if max_id != eos {
        let key = choose|key: Seq<u8>| assigns(records, key, max_id);
        let i = choose|i: int| assigns_at(records, i, key, max_id);
        let p = records[i].1.index_of(max_id);
        assert(records[i].1[p] == max_id);
    }
    if ambiguous(records) {
        let (i, j, id) = choose|i: int, j: int, id: u32| doubly_held(records, i, j, id);
        let p = records[i].1.index_of(id);
        let s = records[j].1.index_of(id);
        assert(records[i].1[p] == records[j].1[s]);
    } else {
        assert forall|q: int, p: int, i: int, s: int|
            0 <= q < i < records.len() && 0 <= p < records[q].1.len() && 0 <= s
                < records[i].1.len() implies #[trigger] records[q].1[p]
            != #[trigger] records[i].1[s] by {
            let id = records[q].1[p];
            if id == records[i].1[s] {
                assert(records[q].1.contains(id));
                assert(records[i].1.contains(id));
                assert(doubly_held(records, q, i, id));
            }
        }
    }
}

/// A table over all ids pays exactly where its four bytes for each of them are no more than 24 for
/// each id that is held.
pub proof fn tables_pay_where_they_are_smaller(max_id: u32, total_ids: int)
    requires
        0 <= total_ids,
        24 * total_ids <= usize::MAX,
        4 * (max_id + 1) <= usize::MAX,
    ensures
        dense_pays(max_id, total_ids) <==> 4 * (max_id + 1) <= 24 * total_ids,
{
}

/// The caps of a build: 2^24 tokens, a charge of 2^31 bytes, and masks of 2^21 ids.
pub proof fn caps_of_a_build()
    ensures
        MAX_PACKED_TOKENS == 16_777_216,
        MAX_PACKED_PROJECTED_PEAK_BYTES == 2_147_483_648,
        MAX_MASK_TOKENS == 2_097_152,
{
}

/// The error of memory that could not be had is one of an internal limit, at the bind.
pub proof fn refused_memory_is_an_internal_limit(e: ErrorView)
    ensures
        packed_allocation_failed(e) || dense_allocation_failed(e) || index_allocation_failed(e)
            ==> e.code == ErrorCode::InternalLimitExceeded && e.stage == Stage::L4Bind,
        packed_allocation_failed(e) ==> e.message == "packed sort-order"@ || e.message
            == "prepared vocabulary blob"@ || e.message == "prepared vocabulary id array"@
            || e.message == "prepared vocabulary records"@ || e.message
            == "packed group-id scratch allocation failed"@,
        dense_allocation_failed(e) ==> e.message == "dense sort-order"@ || e.message
            == "prepared vocabulary blob"@ || e.message == "prepared vocabulary id array"@
            || e.message == "prepared vocabulary records"@ || e.message
            == "dense group-id scratch allocation failed"@,
        index_allocation_failed(e) ==> e.message == "id-index dense table"@ || e.message
            == "id-index sparse map allocation failed"@,
{
}

/// A packed build of no items, a dense build of absent slots without bytes and a build of an empty
/// map need no memory: where they are not refused, they give a vocabulary without records.
pub proof fn empty_builds_succeed(
    token_bytes: Seq<u8>,
    byte_offsets: Seq<u32>,
    token_ids: Seq<u32>,
    id_offsets: Seq<u32>,
    present: Seq<bool>,
    eos: u32,
    budget: int,
    packed: Result<PreparedVocabulary, CompileError>,
    dense: Result<PreparedVocabulary, CompileError>,
    mapped: Result<PreparedVocabulary, CompileError>,
)
    requires
        built_from_packed(token_bytes, byte_offsets, token_ids, id_offsets, eos, budget, packed),
        built_from_dense(token_bytes, byte_offsets, present, eos, budget, dense),
        built_from_map(Map::<Seq<u8>, Seq<u32>>::empty(), mapped),
    ensures
        byte_offsets.len() == 1 && packed_rejection(
            token_bytes,
            byte_offsets,
            token_ids,
            id_offsets,
            eos,
            budget,
        ) is None ==> packed is Ok && packed->Ok_0@.len() == 0,
        token_bytes.len() == 0 && (forall|i: int| 0 <= i < present.len() ==> !(
        #[trigger] present[i])) && dense_rejection(token_bytes, byte_offsets, present, eos, budget)
            is None ==> dense is Ok && dense->Ok_0@.len() == 0,
        mapped is Ok && mapped->Ok_0@.len() == 0,
{
    if byte_offsets.len() == 1 && packed is Ok {
        let p = packed->Ok_0@;
        if p.len() > 0 && packed_rejection(
            token_bytes,
            byte_offsets,
            token_ids,
            id_offsets,
            eos,
            budget,
        ) is None {
            let all = packed_entries(token_bytes, byte_offsets, token_ids, id_offsets);
            assert(all.len() == 0);
            let id = p[0].1[0];
            assert(p[0].1.contains(id));
            assert(assigns_at(p, 0, p[0].0, id));
            assert(assigns(p, p[0].0, id));
            assert(assigns(all, p[0].0, id));
        }
    }
    if forall|i: int| 0 <= i < present.len() ==> !(#[trigger] present[i]) {
        none_present(present);
        if dense is Ok && dense->Ok_0@.len() > 0 && dense_rejection(
            token_bytes,
            byte_offsets,
            present,
            eos,
            budget,
        ) is None {
            let p = dense->Ok_0@;
            let id = p[0].1[0];
            assert(p[0].1.contains(id));
            assert(assigns_at(p, 0, p[0].0, id));
            assert(assigns(p, p[0].0, id));
            assert(dense_assigns(token_bytes, byte_offsets, present, p[0].0, id));
        }
    }
    if mapped is Ok && mapped->Ok_0@.len() > 0 {
        let p = mapped->Ok_0@;
        let id = p[0].1[0];
        assert(p[0].1.contains(id));
        assert(assigns_at(p, 0, p[0].0, id));
        assert(assigns(p, p[0].0, id));
    }
}

proof fn none_present(present: Seq<bool>)
    requires
        forall|i: int| 0 <= i < present.len() ==> !(#[trigger] present[i]),
    ensures
        present_total(present) == 0,
    decreases present.len(),
{
    if present.len() > 0 {
        let front = present.drop_last();
        assert(!present[present.len() - 1]);
        assert forall|i: int| 0 <= i < front.len() implies !(#[trigger] front[i]) by {
            assert(front[i] == present[i]);
        }
        none_present(front);
    }
}

/// The digest of a vocabulary is that of its records and its end-of-sequence id, so two
/// vocabularies whose digests are taken of the same bytes have the same of both.
pub proof fn digests_are_of_records_and_eos(
    a_records: Seq<(Seq<u8>, Seq<u32>)>,
    a_eos: u32,
    a_width: Option<usize>,
    a: CanonicalVocabulary,
    b_records: Seq<(Seq<u8>, Seq<u32>)>,
    b_eos: u32,
    b_width: Option<usize>,
    b: CanonicalVocabulary,
)
    requires
        canonicalised(a_records, a_eos, a_width, Ok(a)),
        canonicalised(b_records, b_eos, b_width, Ok(b)),
    ensures
        a.digest() == blake3_hash(fingerprint_input(a_records, a_eos)),
        a_records == b_records && a_eos == b_eos ==> a.digest() == b.digest(),
        lengths_fit(a_records) && lengths_fit(b_records) && fingerprint_input(a_records, a_eos)
            == fingerprint_input(b_records, b_eos) ==> a_records == b_records && a_eos == b_eos,
{
    if lengths_fit(a_records) && lengths_fit(b_records) && fingerprint_input(a_records, a_eos)
        == fingerprint_input(b_records, b_eos) {
        fingerprint_input_is_injective(a_records, a_eos, b_records, b_eos);
    }
}

/// A listing can be prepared exactly where its bytes and its ids are each no more than 2^32 - 1;
/// else the first of: bytes or ids that overflow a length, bytes or ids that cannot be addressed.
pub proof fn listings_are_refused_in_order(bytes: nat, ids: nat)
    ensures
        ({
            let fault = listing_fault(bytes, ids);
            let over = |message: Seq<char>|
                build_error(ErrorCode::InternalLimitExceeded, Stage::L4Bind, message);
            let a = bytes <= usize::MAX;
            let b = a && ids <= usize::MAX;
            let c = b && bytes <= 0xffff_ffff;
            let d = c && ids <= 0xffff_ffff;
            &&& !a ==> fault == Some(over("prepared vocabulary byte total overflows"@))
            &&& a && !b ==> fault == Some(over("prepared vocabulary id total overflows"@))
            &&& b && !c ==> fault == Some(
                over("prepared vocabulary blob exceeds the addressable range"@),
            )
            &&& c && !d ==> fault == Some(
                over("prepared vocabulary id array exceeds the addressable range"@),
            )
            &&& d ==> fault is None
        }),
{
}

/// A build of a token map succeeds, where there is memory, exactly where its bytes and its ids can
/// be addressed.
pub proof fn map_builds_need_addressable_totals(
    contents: Map<Seq<u8>, Seq<u32>>,
    r: Result<PreparedVocabulary, CompileError>,
)
    requires
        built_from_map(contents, r),
        r matches Err(e) ==> e@.message != "sort-pair scratch"@ && e@.message
            != "prepared vocabulary blob"@ && e@.message != "prepared vocabulary id array"@
            && e@.message != "prepared vocabulary records"@,
    ensures
        r is Ok <==> map_bytes_total(contents) <= 0xffff_ffff && map_ids_total(contents)
            <= 0xffff_ffff,
{
    listings_are_refused_in_order(map_bytes_total(contents), map_ids_total(contents));
}

/// A copy of a listing has the listing's byte strings in their places, each with its ids in
/// ascending order and each as often as before.
pub proof fn copies_sort_each_list(
    from: Seq<(Seq<u8>, Seq<u32>)>,
    to: Seq<(Seq<u8>, Seq<u32>)>,
    i: int,
    p: int,
    q: int,
    id: u32,
)
    requires
        copied(from, to),
        0 <= i < from.len(),
    ensures
        to.len() == from.len(),
        to[i].0 == from[i].0,
        0 <= p < q < to[i].1.len() ==> to[i].1[p] <= to[i].1[q],
        to[i].1.to_multiset().count(id) == from[i].1.to_multiset().count(id),
{
    assert(sorted(to[i].1));
}

} // verus!
