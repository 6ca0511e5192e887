//! What buffers of tokens are let in and what they hold, said of lengths, words and items.

use vstd::prelude::*;

use crate::admission::{MAX_PACKED_PROJECTED_PEAK_BYTES, csr_item, csr_monotone};
use crate::build_laws::{
    bounds_items, holds, offsets_are_refused_in_order, packed_builds_hold_the_items, packs,
};
use crate::canonical::{CanonicalVocabulary, then_canonicalised};
use crate::error::CompileError;
use crate::ingest::{
    dense_decode_fault, lengths_of, lifted, packed_vocabulary, raw_outcome, read_outcome,
    token_list_fault, unrefused,
};
use crate::packing::{
    BuildPermit, DenseBuffers, MAX_PACKED_BUFFER_BYTES, PackedBuffers, dense_fault, dense_lengths,
    dense_outcome, le_words, length_total, lengths_fault, pack_fault, packed_outcome, prescan_fault,
    slot_bytes, slots_total, token_lengths,
};
use crate::prepared::{PreparedVocabulary, built_from_packed};
use crate::records::{bytes_total, ids_total, totals_push};
use crate::report::CoreError;
use crate::text::decimal_text;
use crate::wire_laws::{four_bytes, little_endian_numbers};

verus! {

/// Four buffers are let in exactly where each has at most 2^28 bytes and so do all together. The
/// first that has more is named with its length; else the total is.
pub proof fn lengths_are_capped(a: usize, b: usize, c: usize, d: usize)
    ensures
        ({
            let lens = seq![a, b, c, d];
            let cap = 268_435_456int;
            let total = a + b + c + d;
            let fault = lengths_fault(lens);
            let over = |n: usize|
                "packed buffer of "@ + decimal_text(n as nat) + " bytes exceeds the cap of "@
                    + decimal_text(268_435_456) + " (per buffer)"@;
            &&& fault is None <==> a <= cap && b <= cap && c <= cap && d <= cap && total <= cap
            &&& a > cap ==> fault == Some(over(a))
            &&& a <= cap && b > cap ==> fault == Some(over(b))
            &&& a <= cap && b <= cap && c > cap ==> fault == Some(over(c))
            &&& a <= cap && b <= cap && c <= cap && d > cap ==> fault == Some(over(d))
            &&& a <= cap && b <= cap && c <= cap && d <= cap && total > cap ==> fault == Some(
                "packed buffers total "@ + decimal_text(total as nat)
                    + " bytes, which exceeds the cap of "@ + decimal_text(268_435_456)
                    + " (aggregate)"@,
            )
        }),
{
    let lens = seq![a, b, c, d];
    reveal_with_fuel(length_total, 5);
    assert(lens.drop_last() =~= seq![a, b, c]);
    assert(seq![a, b, c].drop_last() =~= seq![a, b]);
    assert(seq![a, b].drop_last() =~= seq![a]);
    assert(seq![a].drop_last() =~= Seq::<usize>::empty());
    assert(length_total(lens) == a + b + c + d);
    assert(lens[0] == a && lens[1] == b && lens[2] == c && lens[3] == d);
    let cap = MAX_PACKED_BUFFER_BYTES;
    if a > cap || b > cap || c > cap || d > cap {
        let k: int = if a > cap {
            0
        } else if b > cap {
            1
        } else if c > cap {
            2
        } else {
            3
        };
        assert(0 <= k < lens.len() && lens[k] > cap && forall|q: int|
            0 <= q < k ==> #[trigger] lens[q] <= cap);
        let i = choose|i: int|
            0 <= i < lens.len() && #[trigger] lens[i] > cap && forall|q: int|
                0 <= q < i ==> #[trigger] lens[q] <= cap;
        assert(i == k) by {
            if i < k {
                assert(lens[i] <= cap);
            } else if k < i {
                assert(lens[k] <= cap);
            }
        }
    }
}

/// Words are read four bytes each, the low byte first.
pub proof fn words_are_four_bytes(bytes: Seq<u8>, i: int)
    requires
        0 <= i < bytes.len() / 4,
    ensures
        le_words(bytes).len() == bytes.len() / 4,
        le_words(bytes)[i] == four_bytes(bytes, 4 * i),
{
    little_endian_numbers(bytes, 4 * i);
}

/// The totals of a token list are the sums of its lengths, and are refused exactly where one does
/// not fit a length.
pub proof fn token_totals_are_sums(lens: Seq<(usize, usize)>, bytes: usize, ids: usize)
    ensures
        token_lengths(Seq::<(usize, usize)>::empty()) == (0nat, 0nat),
        token_lengths(lens.push((bytes, ids))).0 == token_lengths(lens).0 + bytes,
        token_lengths(lens.push((bytes, ids))).1 == token_lengths(lens).1 + ids,
        prescan_fault(lens) is None <==> token_lengths(lens).0 <= usize::MAX && token_lengths(
            lens,
        ).1 <= usize::MAX,
    decreases lens.len(),
{
    assert(lens.push((bytes, ids)).drop_last() =~= lens);
    if lens.len() > 0 {
        token_totals_are_sums(lens.drop_last(), bytes, ids);
    }
}

/// The totals of a dense decode are the sum of the lengths of its present slots, and their number.
pub proof fn slot_totals_are_sums(lens: Seq<Option<usize>>, n: usize)
    ensures
        dense_lengths(Seq::<Option<usize>>::empty()) == (0nat, 0nat),
        dense_lengths(lens.push(Some(n))).0 == dense_lengths(lens).0 + n,
        dense_lengths(lens.push(Some(n))).1 == dense_lengths(lens).1 + 1,
        dense_lengths(lens.push(None)) == dense_lengths(lens),
{
    assert(lens.push(Some(n)).drop_last() =~= lens);
    assert(lens.push(None).drop_last() =~= lens);
}

/// Tokens are packed exactly where their bytes and ids are within the totals that were counted,
/// and offsets can address them.
pub proof fn tokens_within_the_totals_are_packed(
    tokens: Seq<(Seq<u8>, Seq<u32>)>,
    total_bytes: usize,
    total_ids: usize,
)
    ensures
        pack_fault(tokens, total_bytes, total_ids) is None <==> {
            &&& bytes_total(tokens) <= total_bytes
            &&& ids_total(tokens) <= total_ids
            &&& bytes_total(tokens) <= 0xffff_ffff
            &&& ids_total(tokens) <= 0xffff_ffff
        },
    decreases tokens.len(),
{
    if tokens.len() > 0 {
        tokens_within_the_totals_are_packed(tokens.drop_last(), total_bytes, total_ids);
    }
}

/// Slots are packed exactly where their bytes are within the total that was counted, and offsets
/// can address them.
pub proof fn slots_within_the_total_are_packed(slots: Seq<Option<&[u8]>>, total_bytes: usize)
    ensures
        dense_fault(slots, total_bytes) is None <==> slots_total(slots) <= total_bytes
            && slots_total(slots) <= 0xffff_ffff,
    decreases slots.len(),
{
    if slots.len() > 0 {
        slots_within_the_total_are_packed(slots.drop_last(), total_bytes);
    }
}

/// The total of slots is the sum of the lengths of those that are present.
pub proof fn slot_bytes_add_up(slots: Seq<Option<&[u8]>>, more: Option<&[u8]>)
    ensures
        slots_total(Seq::<Option<&[u8]>>::empty()) == 0,
        slots_total(slots.push(more)) == slots_total(slots) + match more {
            Some(bytes) => bytes@.len(),
            None => 0,
        },
{
    let grown = slots.push(more);
    assert(grown.drop_last() =~= slots);
    assert(slot_bytes(grown).last() == slot_bytes(grown)[slots.len() as int]);
}

/// What is packed is item for item what was given: the offsets bound as many items as there are
/// tokens, and the item of each token has its bytes and its ids.
pub proof fn packed_items_are_the_tokens(
    tokens: Seq<(Seq<u8>, Seq<u32>)>,
    total_bytes: usize,
    total_ids: usize,
    p: PackedBuffers,
    n: int,
)
    requires
        packed_outcome(tokens, total_bytes, total_ids, Ok(p)),
        0 <= n < tokens.len(),
    ensures
        p.byte_offsets@.len() == tokens.len() + 1,
        p.id_offsets@.len() == tokens.len() + 1,
        bounds_items(p.byte_offsets@, p.token_bytes@.len() as int),
        bounds_items(p.id_offsets@, p.token_ids@.len() as int),
        p.token_bytes@.subrange(p.byte_offsets@[n] as int, p.byte_offsets@[n + 1] as int)
            == tokens[n].0,
        p.token_ids@.subrange(p.id_offsets@[n] as int, p.id_offsets@[n + 1] as int) == tokens[n].1,
{
    offsets_are_refused_in_order(p.byte_offsets@, p.token_bytes@.len() as int);
    offsets_are_refused_in_order(p.id_offsets@, p.token_ids@.len() as int);
    assert(p.entries()[n] == tokens[n]);
}

/// What is packed of a dense decode is slot for slot what was given: one item for each slot, which
/// is present where it was and has its bytes, and none where it is absent.
pub proof fn packed_items_are_the_slots(
    slots: Seq<Option<&[u8]>>,
    total_bytes: usize,
    p: DenseBuffers,
    n: int,
)
    requires
        dense_outcome(slots, total_bytes, Ok(p)),
        0 <= n < slots.len(),
    ensures
        p.byte_offsets@.len() == slots.len() + 1,
        p.present@.len() == slots.len(),
        bounds_items(p.byte_offsets@, p.token_bytes@.len() as int),
        p.present@[n] <==> slots[n] is Some,
        slots[n] matches Some(bytes) ==> p.token_bytes@.subrange(
            p.byte_offsets@[n] as int,
            p.byte_offsets@[n + 1] as int,
        ) == bytes@,
        slots[n] is None ==> p.byte_offsets@[n] == p.byte_offsets@[n + 1],
{
    offsets_are_refused_in_order(p.byte_offsets@, p.token_bytes@.len() as int);
    assert(p.present@[n] == (slots[n] is Some));
    assert(csr_item(p.token_bytes@, p.byte_offsets@, n) == slot_bytes(slots)[n]);
    csr_monotone(p.byte_offsets@, p.token_bytes@.len() as int, n, n + 1);
    if slots[n] is None {
        assert(csr_item(p.token_bytes@, p.byte_offsets@, n).len() == 0);
    }
}

/// An ingestion goes on exactly where its peak does not overflow and it is let in. An overflow is
/// said in the words given, and any other refusal is the budget's own.
pub proof fn permits_decide(permit: BuildPermit, words: Seq<char>, e: CoreError)
    ensures
        permit.admits() <==> permit.peak is Some && permit.granted is Ok,
        permit.refuses_with(words, e) && permit.peak is None ==> (e matches CoreError::Unsupported(
            w,
        ) && w@ == words),
        permit.refuses_with(words, e) && permit.peak is Some ==> permit.granted is Err && e
            == CoreError::Compile(permit.granted->Err_0),
{
}

/// Raw buffers reach the reading of words exactly where their lengths are within the caps, the
/// ingestion is permitted, and the byte offsets come out even.
pub proof fn raw_buffers_are_let_in(
    token_bytes: Seq<u8>,
    byte_offsets: Seq<u8>,
    token_ids: Seq<u8>,
    id_offsets: Seq<u8>,
    permit: BuildPermit,
)
    requires
        token_bytes.len() <= usize::MAX,
        byte_offsets.len() <= usize::MAX,
        token_ids.len() <= usize::MAX,
        id_offsets.len() <= usize::MAX,
    ensures
        unrefused(token_bytes, byte_offsets, token_ids, id_offsets, permit) <==> {
            &&& token_bytes.len() + byte_offsets.len() + token_ids.len() + id_offsets.len()
                <= 268_435_456
            &&& permit.peak is Some && permit.granted is Ok
            &&& byte_offsets.len() % 4 == 0
        },
{
    lengths_are_capped(
        token_bytes.len() as usize,
        byte_offsets.len() as usize,
        token_ids.len() as usize,
        id_offsets.len() as usize,
    );
}

/// Raw buffers that are read hold the words that their bytes spell, and come out even.
pub proof fn raw_buffers_are_read_as_words(
    token_bytes: Seq<u8>,
    byte_offsets: Seq<u8>,
    token_ids: Seq<u8>,
    id_offsets: Seq<u8>,
    permit: BuildPermit,
    p: PackedBuffers,
    i: int,
)
    requires
        raw_outcome(token_bytes, byte_offsets, token_ids, id_offsets, permit, Ok(p)),
    ensures
        p.token_bytes@ == token_bytes,
        4 * p.byte_offsets@.len() == byte_offsets.len(),
        4 * p.token_ids@.len() == token_ids.len(),
        4 * p.id_offsets@.len() == id_offsets.len(),
        0 <= i < p.byte_offsets@.len() ==> p.byte_offsets@[i] == four_bytes(byte_offsets, 4 * i),
        0 <= i < p.token_ids@.len() ==> p.token_ids@[i] == four_bytes(token_ids, 4 * i),
        0 <= i < p.id_offsets@.len() ==> p.id_offsets@[i] == four_bytes(id_offsets, 4 * i),
{
    if 0 <= i < byte_offsets.len() / 4 {
        words_are_four_bytes(byte_offsets, i);
    }
    if 0 <= i < token_ids.len() / 4 {
        words_are_four_bytes(token_ids, i);
    }
    if 0 <= i < id_offsets.len() / 4 {
        words_are_four_bytes(id_offsets, i);
    }
}

/// A token list can be packed exactly where its bytes and its ids are each no more than 2^32 - 1.
pub proof fn token_lists_that_can_be_packed(tokens: Seq<(Seq<u8>, Seq<u32>)>)
    requires
        forall|i: int|
            0 <= i < tokens.len() ==> (#[trigger] tokens[i]).0.len() <= usize::MAX
                && tokens[i].1.len() <= usize::MAX,
    ensures
        token_list_fault(tokens) is None <==> bytes_total(tokens) <= 0xffff_ffff && ids_total(
            tokens,
        ) <= 0xffff_ffff,
{
    list_lengths_add_up(tokens);
    token_totals_are_sums(lengths_of(tokens), 0, 0);
    tokens_within_the_totals_are_packed(
        tokens,
        bytes_total(tokens) as usize,
        ids_total(tokens) as usize,
    );
}

proof fn list_lengths_add_up(tokens: Seq<(Seq<u8>, Seq<u32>)>)
    requires
        forall|i: int|
            0 <= i < tokens.len() ==> (#[trigger] tokens[i]).0.len() <= usize::MAX
                && tokens[i].1.len() <= usize::MAX,
    ensures
        token_lengths(lengths_of(tokens)).0 == bytes_total(tokens),
        token_lengths(lengths_of(tokens)).1 == ids_total(tokens),
    decreases tokens.len(),
{
    if tokens.len() > 0 {
        let front = tokens.drop_last();
        assert forall|i: int| 0 <= i < front.len() implies (#[trigger] front[i]).0.len()
            <= usize::MAX && front[i].1.len() <= usize::MAX by {
            assert(front[i] == tokens[i]);
        }
        list_lengths_add_up(front);
        assert(lengths_of(tokens).drop_last() =~= lengths_of(front));
        assert(tokens[tokens.len() - 1] == tokens.last());
    }
}

/// A dense decode can be packed exactly where its bytes are no more than 2^32 - 1.
pub proof fn dense_decodes_that_can_be_packed(slots: Seq<Option<&[u8]>>)
    ensures
        dense_decode_fault(slots) is None <==> slots_total(slots) <= 0xffff_ffff,
        slots_total(slots) > usize::MAX ==> dense_decode_fault(slots) == Some(
            "token byte total overflows"@,
        ),
{
    if slots_total(slots) <= usize::MAX {
        slots_within_the_total_are_packed(slots, slots_total(slots) as usize);
    }
}

/// The totals of records count the bytes of every byte string and the ids of every list.
pub proof fn totals_count_every_record(
    records: Seq<(Seq<u8>, Seq<u32>)>,
    key: Seq<u8>,
    ids: Seq<u32>,
)
    ensures
        bytes_total(Seq::<(Seq<u8>, Seq<u32>)>::empty()) == 0,
        ids_total(Seq::<(Seq<u8>, Seq<u32>)>::empty()) == 0,
        bytes_total(records.push((key, ids))) == bytes_total(records) + key.len(),
        ids_total(records.push((key, ids))) == ids_total(records) + ids.len(),
{
    totals_push(records, (key, ids));
}

/// A build that fails is reported as the compile error that it failed with, and one that succeeds
/// is handed on as it is.
pub proof fn builds_are_handed_on(r: Result<CanonicalVocabulary, CompileError>)
    ensures
        r matches Ok(v) ==> lifted(r) == Ok::<CanonicalVocabulary, CoreError>(v),
        r matches Err(e) ==> lifted(r) == Err::<CanonicalVocabulary, CoreError>(
            CoreError::Compile(e),
        ),
{
}

/// Buffers that cannot be read are refused with what reading them gave, and buffers that were read
/// make a vocabulary that holds what their items say.
pub proof fn read_buffers_make_their_vocabulary(
    read: Result<PackedBuffers, CoreError>,
    eos: u32,
    width: Option<usize>,
    r: Result<CanonicalVocabulary, CoreError>,
    key: Seq<u8>,
    id: u32,
)
    requires
        read_outcome(read, eos, width, r),
    ensures
        read matches Err(e) ==> r == Err::<CanonicalVocabulary, CoreError>(e),
        read is Ok && r is Ok ==> r->Ok_0@.eos_token_id == eos,
        read is Ok && r is Ok && width is Some ==> r->Ok_0@.mask_vocab_size == width->Some_0,
        read is Ok && r is Ok ==> (holds(r->Ok_0@.records, key, id) <==> packs(
            read->Ok_0.token_bytes@,
            read->Ok_0.byte_offsets@,
            read->Ok_0.token_ids@,
            read->Ok_0.id_offsets@,
            key,
            id,
        )),
{
    if read is Ok && r is Ok {
        let buffers = read->Ok_0;
        let v = r->Ok_0;
        let built = choose|built: Result<CanonicalVocabulary, CompileError>| #[trigger]
            packed_vocabulary(buffers, eos, width, built) && r == lifted(built);
        assert(built == Ok::<CanonicalVocabulary, CompileError>(v));
        let b = choose|b: Result<PreparedVocabulary, CompileError>| #[trigger]
            built_from_packed(
                buffers.token_bytes@,
                buffers.byte_offsets@,
                buffers.token_ids@,
                buffers.id_offsets@,
                eos,
                MAX_PACKED_PROJECTED_PEAK_BYTES as int,
                b,
            ) && then_canonicalised(b, eos, width, built);
        packed_builds_hold_the_items(
            buffers.token_bytes@,
            buffers.byte_offsets@,
            buffers.token_ids@,
            buffers.id_offsets@,
            eos,
            MAX_PACKED_PROJECTED_PEAK_BYTES as int,
            b->Ok_0,
            key,
            id,
        );
    }
}

} // verus!
