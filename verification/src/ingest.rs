//! Vocabularies straight from what a caller hands over: raw buffers, token lists and dense
//! decodes.

use vstd::prelude::*;
use vstd::slice::slice_to_vec;

use crate::admission::{MAX_PACKED_PROJECTED_PEAK_BYTES, csr_item};
use crate::canonical::{CanonicalVocabulary, then_canonicalised};
use crate::error::CompileError;
use crate::packing::{
    BuildPermit, DenseBuffers, PackedBuffers, admit_and_pack_dense_tokens, admit_and_pack_tokens,
    admit_ingestion, allocation_text, buffer_to_u32_vec_le, check_packed_lengths, dense_fault,
    dense_lengths, is_unsupported, le_words, lengths_fault, pack_fault, packing_allocation_failed,
    prescan_dense_totals, prescan_fault, prescan_token_totals, slot_bytes,
    slot_packing_allocation_failed, slots_total, token_lengths,
};
use crate::prepared::{PreparedVocabulary, built_from_dense, built_from_packed};
use crate::records::{assigns, bytes_total, ids_total, same_assignments};
use crate::report::CoreError;
use crate::text::decimal_text;
use crate::token_map::pairs_view;

verus! {

/// What packed buffers make of themselves as a canonical vocabulary.
pub open spec fn packed_vocabulary(
    buffers: PackedBuffers,
    eos_token_id: u32,
    logits_vocab_size: Option<usize>,
    r: Result<CanonicalVocabulary, CompileError>,
) -> bool {
    exists|b: Result<PreparedVocabulary, CompileError>| #[trigger]
        built_from_packed(
            buffers.token_bytes@,
            buffers.byte_offsets@,
            buffers.token_ids@,
            buffers.id_offsets@,
            eos_token_id,
            MAX_PACKED_PROJECTED_PEAK_BYTES as int,
            b,
        ) && then_canonicalised(b, eos_token_id, logits_vocab_size, r)
}

/// What dense buffers make of themselves as a canonical vocabulary.
pub open spec fn dense_vocabulary(
    buffers: DenseBuffers,
    eos_token_id: u32,
    logits_vocab_size: Option<usize>,
    r: Result<CanonicalVocabulary, CompileError>,
) -> bool {
    exists|b: Result<PreparedVocabulary, CompileError>| #[trigger]
        built_from_dense(
            buffers.token_bytes@,
            buffers.byte_offsets@,
            buffers.present@,
            eos_token_id,
            MAX_PACKED_PROJECTED_PEAK_BYTES as int,
            b,
        ) && then_canonicalised(b, eos_token_id, logits_vocab_size, r)
}

/// A compile error as a bind error.
pub open spec fn lifted(r: Result<CanonicalVocabulary, CompileError>) -> Result<
    CanonicalVocabulary,
    CoreError,
> {
    match r {
        Ok(v) => Ok(v),
        Err(e) => Err(CoreError::Compile(e)),
    }
}

fn lift(r: Result<CanonicalVocabulary, CompileError>) -> (lift: Result<
    CanonicalVocabulary,
    CoreError,
>)
    ensures
        lift == lifted(r),
{
    match r {
        Ok(v) => Ok(v),
        Err(e) => Err(CoreError::Compile(e)),
    }
}

/// What is wrong with the length of a buffer of words.
pub open spec fn word_length_fault(len: nat, what: Seq<char>) -> Option<Seq<char>> {
    if len % 4 != 0 {
        Some(what + " byte length "@ + decimal_text(len) + " is not a multiple of 4"@)
    } else {
        None
    }
}

/// The lengths of four raw buffers.
pub open spec fn raw_lengths(
    token_bytes: Seq<u8>,
    byte_offsets: Seq<u8>,
    token_ids: Seq<u8>,
    id_offsets: Seq<u8>,
) -> Seq<usize> {
    seq![
        token_bytes.len() as usize,
        byte_offsets.len() as usize,
        token_ids.len() as usize,
        id_offsets.len() as usize,
    ]
}

/// What is wrong with the lengths of four raw buffers: first what the caps refuse, then a list of
/// words that does not come out even.
pub open spec fn raw_fault(
    token_bytes: Seq<u8>,
    byte_offsets: Seq<u8>,
    token_ids: Seq<u8>,
    id_offsets: Seq<u8>,
) -> Option<Seq<char>> {
    let lens = raw_lengths(token_bytes, byte_offsets, token_ids, id_offsets);
    if lengths_fault(lens) is Some {
        lengths_fault(lens)
    } else if word_length_fault(byte_offsets.len(), "byte_offsets"@) is Some {
        word_length_fault(byte_offsets.len(), "byte_offsets"@)
    } else if word_length_fault(token_ids.len(), "token_ids"@) is Some {
        word_length_fault(token_ids.len(), "token_ids"@)
    } else {
        word_length_fault(id_offsets.len(), "id_offsets"@)
    }
}

/// What reading four raw buffers comes to: the caps on their lengths come first, then the permit,
/// then the buffers themselves. Room for the words is up to the allocator.
pub open spec fn raw_outcome(
    token_bytes: Seq<u8>,
    byte_offsets: Seq<u8>,
    token_ids: Seq<u8>,
    id_offsets: Seq<u8>,
    permit: BuildPermit,
    r: Result<PackedBuffers, CoreError>,
) -> bool {
    let fault = raw_fault(token_bytes, byte_offsets, token_ids, id_offsets);
    match r {
        Ok(buffers) => {
            &&& permit.admits()
            &&& fault is None
            &&& buffers.token_bytes@ == token_bytes
            &&& buffers.byte_offsets@ == le_words(byte_offsets)
            &&& buffers.token_ids@ == le_words(token_ids)
            &&& buffers.id_offsets@ == le_words(id_offsets)
        },
        Err(e) => {
            ||| first_refusal(token_bytes, byte_offsets, token_ids, id_offsets, permit, e)
            ||| {
                &&& unrefused(token_bytes, byte_offsets, token_ids, id_offsets, permit)
                &&& {
                    ||| fault is Some && is_unsupported(e, fault->Some_0)
                    ||| words_allocation_failed(byte_offsets, token_ids, id_offsets, e)
                }
            }
        },
    }
}

/// Nothing refuses four raw buffers before words are allocated: neither the caps on their lengths,
/// nor the permit, nor byte offsets that do not come out even.
pub open spec fn unrefused(
    token_bytes: Seq<u8>,
    byte_offsets: Seq<u8>,
    token_ids: Seq<u8>,
    id_offsets: Seq<u8>,
    permit: BuildPermit,
) -> bool {
    &&& lengths_fault(raw_lengths(token_bytes, byte_offsets, token_ids, id_offsets)) is None
    &&& permit.admits()
    &&& word_length_fault(byte_offsets.len(), "byte_offsets"@) is None
}

/// `e` is what refuses four raw buffers before words are allocated.
pub open spec fn first_refusal(
    token_bytes: Seq<u8>,
    byte_offsets: Seq<u8>,
    token_ids: Seq<u8>,
    id_offsets: Seq<u8>,
    permit: BuildPermit,
    e: CoreError,
) -> bool {
    match lengths_fault(raw_lengths(token_bytes, byte_offsets, token_ids, id_offsets)) {
        Some(words) => is_unsupported(e, words),
        None => if permit.admits() {
            word_length_fault(byte_offsets.len(), "byte_offsets"@) matches Some(words)
                && is_unsupported(e, words)
        } else {
            permit.refuses_with("packed ingestion peak overflows"@, e)
        },
    }
}

/// The error of a list of words that the allocator refused memory for. A list is reached only
/// where those before it came out even.
pub open spec fn words_allocation_failed(
    byte_offsets: Seq<u8>,
    token_ids: Seq<u8>,
    id_offsets: Seq<u8>,
    e: CoreError,
) -> bool {
    ||| byte_offsets.len() > 0 && is_unsupported(e, allocation_text("byte_offsets"@))
    ||| {
        &&& word_length_fault(token_ids.len(), "token_ids"@) is None
        &&& {
            ||| token_ids.len() > 0 && is_unsupported(e, allocation_text("token_ids"@))
            ||| {
                &&& word_length_fault(id_offsets.len(), "id_offsets"@) is None
                &&& id_offsets.len() > 0
                &&& is_unsupported(e, allocation_text("id_offsets"@))
            }
        }
    }
}

/// Reads four raw buffers, each list of words little-endian, once their lengths are within the
/// caps and the ingestion is permitted.
pub fn bounded_buffers_to_vecs(
    token_bytes: &[u8],
    byte_offsets: &[u8],
    token_ids: &[u8],
    id_offsets: &[u8],
    permit: BuildPermit,
) -> (r: Result<PackedBuffers, CoreError>)
    ensures
        raw_outcome(token_bytes@, byte_offsets@, token_ids@, id_offsets@, permit, r),
        !unrefused(token_bytes@, byte_offsets@, token_ids@, id_offsets@, permit) ==> r is Err
            && first_refusal(
            token_bytes@,
            byte_offsets@,
            token_ids@,
            id_offsets@,
            permit,
            r->Err_0,
        ),
{
    let lens: [usize; 4] = [
        token_bytes.len(),
        byte_offsets.len(),
        token_ids.len(),
        id_offsets.len(),
    ];
    assert(lens@ =~= raw_lengths(token_bytes@, byte_offsets@, token_ids@, id_offsets@));
    match check_packed_lengths(lens) {
        Ok(()) => {},
        Err(e) => {
            return Err(e);
        },
    }
    match admit_ingestion(permit, "packed ingestion peak overflows") {
        Ok(()) => {},
        Err(e) => {
            return Err(e);
        },
    }
    let byte_offsets: Vec<u32> = match buffer_to_u32_vec_le(byte_offsets, "byte_offsets") {
        Ok(words) => words,
        Err(e) => {
            return Err(e);
        },
    };
    let token_ids: Vec<u32> = match buffer_to_u32_vec_le(token_ids, "token_ids") {
        Ok(words) => words,
        Err(e) => {
            return Err(e);
        },
    };
    let id_offsets: Vec<u32> = match buffer_to_u32_vec_le(id_offsets, "id_offsets") {
        Ok(words) => words,
        Err(e) => {
            return Err(e);
        },
    };
    Ok(
        PackedBuffers {
            token_bytes: slice_to_vec(token_bytes),
            byte_offsets,
            token_ids,
            id_offsets,
        },
    )
}

/// Builds from four packed little-endian buffers, if that is permitted.
pub fn from_packed_buffers(
    token_bytes: &[u8],
    byte_offsets: &[u8],
    token_ids: &[u8],
    id_offsets: &[u8],
    eos_token_id: u32,
    logits_vocab_size: Option<usize>,
    permit: BuildPermit,
) -> (r: Result<CanonicalVocabulary, CoreError>)
    ensures
        exists|read: Result<PackedBuffers, CoreError>|
            {
                &&& #[trigger] raw_outcome(
                    token_bytes@,
                    byte_offsets@,
                    token_ids@,
                    id_offsets@,
                    permit,
                    read,
                )
                &&& read_outcome(read, eos_token_id, logits_vocab_size, r)
            },
        !unrefused(token_bytes@, byte_offsets@, token_ids@, id_offsets@, permit) ==> r is Err
            && first_refusal(
            token_bytes@,
            byte_offsets@,
            token_ids@,
            id_offsets@,
            permit,
            r->Err_0,
        ),
{
    let read: Result<PackedBuffers, CoreError> = bounded_buffers_to_vecs(
        token_bytes,
        byte_offsets,
        token_ids,
        id_offsets,
        permit,
    );
    let ghost outcome = read;
    let r: Result<CanonicalVocabulary, CoreError> = match read {
        Ok(buffers) => from_buffers(&buffers, eos_token_id, logits_vocab_size),
        Err(e) => Err(e),
    };
    assert(read_outcome(outcome, eos_token_id, logits_vocab_size, r));
    r
}

/// What buffers that were read come to: the error of reading them, or their vocabulary.
pub open spec fn read_outcome(
    read: Result<PackedBuffers, CoreError>,
    eos_token_id: u32,
    logits_vocab_size: Option<usize>,
    r: Result<CanonicalVocabulary, CoreError>,
) -> bool {
    match read {
        Ok(buffers) => buffers_outcome(buffers, eos_token_id, logits_vocab_size, r),
        Err(e) => r == Err::<CanonicalVocabulary, CoreError>(e),
    }
}

/// What packed buffers come to.
pub open spec fn buffers_outcome(
    buffers: PackedBuffers,
    eos_token_id: u32,
    logits_vocab_size: Option<usize>,
    r: Result<CanonicalVocabulary, CoreError>,
) -> bool {
    exists|built: Result<CanonicalVocabulary, CompileError>| #[trigger]
        packed_vocabulary(buffers, eos_token_id, logits_vocab_size, built) && r == lifted(built)
}

/// Builds from packed buffers.
pub fn from_buffers(
    buffers: &PackedBuffers,
    eos_token_id: u32,
    logits_vocab_size: Option<usize>,
) -> (r: Result<CanonicalVocabulary, CoreError>)
    ensures
        buffers_outcome(*buffers, eos_token_id, logits_vocab_size, r),
{
    let built: Result<CanonicalVocabulary, CompileError> =
        CanonicalVocabulary::from_packed_with_logits_vocab_size(
        buffers.token_bytes.as_slice(),
        buffers.byte_offsets.as_slice(),
        buffers.token_ids.as_slice(),
        buffers.id_offsets.as_slice(),
        eos_token_id,
        logits_vocab_size,
    );
    assert(packed_vocabulary(*buffers, eos_token_id, logits_vocab_size, built));
    lift(built)
}

/// How many bytes and ids each token of a list has.
pub open spec fn lengths_of(tokens: Seq<(Seq<u8>, Seq<u32>)>) -> Seq<(usize, usize)> {
    Seq::new(
        tokens.len(),
        |i: int| (tokens[i].0.len() as usize, tokens[i].1.len() as usize),
    )
}

/// The lengths of byte strings and id lists that fit in memory add up as the lists do.
proof fn lengths_add_up(tokens: Seq<(Seq<u8>, Seq<u32>)>)
    requires
        forall|i: int|
            0 <= i < tokens.len() ==> (#[trigger] tokens[i]).0.len() <= usize::MAX
                && tokens[i].1.len() <= usize::MAX,
    ensures
        token_lengths(lengths_of(tokens)).0 == bytes_total(tokens),
        token_lengths(lengths_of(tokens)).1 == ids_total(tokens),
    decreases tokens.len(),
{
    if tokens.len() > 0 {
        let front = tokens.drop_last();
        assert forall|i: int| 0 <= i < front.len() implies (#[trigger] front[i]).0.len()
            <= usize::MAX && front[i].1.len() <= usize::MAX by {
            assert(front[i] == tokens[i]);
        }
        lengths_add_up(front);
        assert(lengths_of(tokens).drop_last() =~= lengths_of(front));
    }
}

/// Why a token list cannot be packed: totals that overflow, or that offsets cannot address.
pub open spec fn token_list_fault(tokens: Seq<(Seq<u8>, Seq<u32>)>) -> Option<Seq<char>> {
    if prescan_fault(lengths_of(tokens)) is Some {
        prescan_fault(lengths_of(tokens))
    } else {
        pack_fault(tokens, bytes_total(tokens) as usize, ids_total(tokens) as usize)
    }
}

/// What a token list comes to: why it cannot be packed, or the vocabulary of the buffers that hold
/// exactly its tokens. Room for the buffers is up to the allocator.
pub open spec fn token_list_outcome(
    tokens: Seq<(Seq<u8>, Seq<u32>)>,
    eos_token_id: u32,
    logits_vocab_size: Option<usize>,
    r: Result<CanonicalVocabulary, CoreError>,
) -> bool {
    let unallocated = r is Err && prescan_fault(lengths_of(tokens)) is None
        && packing_allocation_failed(bytes_total(tokens), ids_total(tokens), r->Err_0);
    match token_list_fault(tokens) {
        Some(words) => (r is Err && is_unsupported(r->Err_0, words)) || unallocated,
        None => {
            ||| unallocated
            ||| exists|buffers: PackedBuffers|
                {
                    &&& buffers.wf()
                    &&& buffers.entries() == tokens
                    &&& #[trigger] buffers_outcome(buffers, eos_token_id, logits_vocab_size, r)
                }
        },
    }
}

fn token_list_lengths(tokens: &[(&[u8], &[u32])]) -> (lens: Vec<(usize, usize)>)
    ensures
        lens@ == lengths_of(pairs_view(tokens@)),
        token_lengths(lens@).0 == bytes_total(pairs_view(tokens@)),
        token_lengths(lens@).1 == ids_total(pairs_view(tokens@)),
{
    let ghost all = pairs_view(tokens@);
    let mut lens: Vec<(usize, usize)> = Vec::new();
    let mut i: usize = 0;
    while i < tokens.len()
        invariant
            i <= tokens@.len(),
            all == pairs_view(tokens@),
            lens@ =~= lengths_of(all).take(i as int),
            forall|k: int|
                0 <= k < i ==> (#[trigger] all[k]).0.len() <= usize::MAX && all[k].1.len()
                    <= usize::MAX,
        decreases tokens@.len() - i,
    {
        lens.push((tokens[i].0.len(), tokens[i].1.len()));
        i = i + 1;
    }
    assert(lens@ =~= lengths_of(all));
    proof {
        lengths_add_up(all);
    }
    lens
}

/// Builds from a list of tokens, each with its ids. The totals are counted, and the permit is
/// asked for, before anything is copied.
pub fn from_tokens(
    tokens: &[(&[u8], &[u32])],
    eos_token_id: u32,
    logits_vocab_size: Option<usize>,
    permit: BuildPermit,
) -> (r: Result<CanonicalVocabulary, CoreError>)
    requires
        tokens@.len() < usize::MAX,
    ensures
        match prescan_fault(lengths_of(pairs_view(tokens@))) {
            Some(words) => r is Err && is_unsupported(r->Err_0, words),
            None => if permit.admits() {
                token_list_outcome(pairs_view(tokens@), eos_token_id, logits_vocab_size, r)
            } else {
                r is Err && permit.refuses_with("packed ingestion peak overflows"@, r->Err_0)
            },
        },
{
    let lens: Vec<(usize, usize)> = token_list_lengths(tokens);
    let (total_bytes, total_ids, _) = match prescan_token_totals(lens.as_slice()) {
        Ok(totals) => totals,
        Err(e) => {
            return Err(e);
        },
    };
    match admit_and_pack_tokens(tokens, total_bytes, total_ids, permit) {
        Ok(buffers) => {
            let r: Result<CanonicalVocabulary, CoreError> = from_buffers(
                &buffers,
                eos_token_id,
                logits_vocab_size,
            );
            assert(buffers_outcome(buffers, eos_token_id, logits_vocab_size, r));
            r
        },
        Err(e) => Err(e),
    }
}

/// A list of tokens that can be packed, and whose vocabulary is built, is held by it: a byte string
/// has an id in the vocabulary exactly where the list gives it that id.
pub proof fn listed_tokens_are_held(
    tokens: Seq<(Seq<u8>, Seq<u32>)>,
    eos_token_id: u32,
    logits_vocab_size: Option<usize>,
    v: CanonicalVocabulary,
)
    requires
        token_list_outcome(tokens, eos_token_id, logits_vocab_size, Ok(v)),
    ensures
        same_assignments(v@.records, tokens),
        v@.eos_token_id == eos_token_id,
        logits_vocab_size matches Some(width) ==> v@.mask_vocab_size == width,
{
    let r = Ok::<CanonicalVocabulary, CoreError>(v);
    let buffers = choose|buffers: PackedBuffers|
        {
            &&& buffers.wf()
            &&& buffers.entries() == tokens
            &&& #[trigger] buffers_outcome(buffers, eos_token_id, logits_vocab_size, r)
        };
    let built = choose|built: Result<CanonicalVocabulary, CompileError>| #[trigger]
        packed_vocabulary(buffers, eos_token_id, logits_vocab_size, built) && r == lifted(built);
    assert(built == Ok::<CanonicalVocabulary, CompileError>(v));
}

/// The lengths of the slots of a dense decode.
pub open spec fn slot_lengths(slots: Seq<Option<&[u8]>>) -> Seq<Option<usize>> {
    Seq::new(
        slots.len(),
        |i: int|
            match slots[i] {
                Some(bytes) => Some(bytes@.len() as usize),
                None => None,
            },
    )
}

/// The lengths of slots that fit in memory add up as the slots do.
proof fn slot_lengths_add_up(slots: Seq<Option<&[u8]>>)
    requires
        forall|i: int| 0 <= i < slots.len() ==> (#[trigger] slot_bytes(slots)[i]).len() <= usize::MAX,
    ensures
        dense_lengths(slot_lengths(slots)).0 == slots_total(slots),
    decreases slots.len(),
{
    if slots.len() > 0 {
        let front = slots.drop_last();
        assert forall|i: int| 0 <= i < front.len() implies (#[trigger] slot_bytes(front)[i]).len()
            <= usize::MAX by {
            assert(slot_bytes(front)[i] == slot_bytes(slots)[i]);
        }
        slot_lengths_add_up(front);
        assert(slot_lengths(slots).drop_last() =~= slot_lengths(front));
        assert(slot_bytes(slots).last() == slot_bytes(slots)[slots.len() - 1]);
    }
}

/// Why a dense decode cannot be packed: a total that overflows, or that offsets cannot address.
pub open spec fn dense_decode_fault(slots: Seq<Option<&[u8]>>) -> Option<Seq<char>> {
    if slots_total(slots) > usize::MAX {
        Some("token byte total overflows"@)
    } else {
        dense_fault(slots, slots_total(slots) as usize)
    }
}

/// What a dense decode comes to: why it cannot be packed, or the vocabulary of the buffers that
/// hold exactly its slots. Room for the buffers is up to the allocator.
pub open spec fn dense_decode_outcome(
    slots: Seq<Option<&[u8]>>,
    eos_token_id: u32,
    logits_vocab_size: Option<usize>,
    r: Result<CanonicalVocabulary, CoreError>,
) -> bool {
    let unallocated = r is Err && slots_total(slots) <= usize::MAX
        && slot_packing_allocation_failed(slots_total(slots), slots.len(), r->Err_0);
    match dense_decode_fault(slots) {
        Some(words) => (r is Err && is_unsupported(r->Err_0, words)) || unallocated,
        None => {
            ||| unallocated
            ||| exists|buffers: DenseBuffers|
                {
                    &&& buffers.holds(slots)
                    &&& #[trigger] dense_buffers_outcome(
                        buffers,
                        eos_token_id,
                        logits_vocab_size,
                        r,
                    )
                }
        },
    }
}

/// What dense buffers come to.
pub open spec fn dense_buffers_outcome(
    buffers: DenseBuffers,
    eos_token_id: u32,
    logits_vocab_size: Option<usize>,
    r: Result<CanonicalVocabulary, CoreError>,
) -> bool {
    exists|built: Result<CanonicalVocabulary, CompileError>| #[trigger]
        dense_vocabulary(buffers, eos_token_id, logits_vocab_size, built) && r == lifted(built)
}

fn dense_decode_lengths(slots: &[Option<&[u8]>]) -> (lens: Vec<Option<usize>>)
    ensures
        lens@ == slot_lengths(slots@),
        dense_lengths(lens@).0 == slots_total(slots@),
{
    let mut lens: Vec<Option<usize>> = Vec::new();
    let mut i: usize = 0;
    while i < slots.len()
        invariant
            i <= slots@.len(),
            lens@ =~= slot_lengths(slots@).take(i as int),
            forall|k: int| 0 <= k < i ==> (#[trigger] slot_bytes(slots@)[k]).len() <= usize::MAX,
        decreases slots@.len() - i,
    {
        match slots[i] {
            Some(bytes) => lens.push(Some(bytes.len())),
            None => lens.push(None),
        }
        i = i + 1;
    }
    assert(lens@ =~= slot_lengths(slots@));
    proof {
        slot_lengths_add_up(slots@);
    }
    lens
}

/// Builds from a dense decode, in which a present slot's index is the id of its bytes. The total
/// is counted, and the permit is asked for, before anything is copied.
pub fn from_id_ordered_tokens(
    slots: &[Option<&[u8]>],
    eos_token_id: u32,
    logits_vocab_size: Option<usize>,
    permit: BuildPermit,
) -> (r: Result<CanonicalVocabulary, CoreError>)
    requires
        slots@.len() < usize::MAX,
    ensures
        if slots_total(slots@) > usize::MAX {
            r is Err && is_unsupported(r->Err_0, "token byte total overflows"@)
        } else if permit.admits() {
            dense_decode_outcome(slots@, eos_token_id, logits_vocab_size, r)
        } else {
            r is Err && permit.refuses_with("dense ingestion peak overflows"@, r->Err_0)
        },
{
    let lens: Vec<Option<usize>> = dense_decode_lengths(slots);
    let (total_bytes, _, _) = match prescan_dense_totals(lens.as_slice()) {
        Ok(totals) => totals,
        Err(e) => {
            return Err(e);
        },
    };
    match admit_and_pack_dense_tokens(slots, total_bytes, permit) {
        Ok(buffers) => {
            let built: Result<CanonicalVocabulary, CompileError> =
                CanonicalVocabulary::from_dense_id_ordered_with_logits_vocab_size(
                buffers.token_bytes.as_slice(),
                buffers.byte_offsets.as_slice(),
                buffers.present.as_slice(),
                eos_token_id,
                logits_vocab_size,
            );
            assert(dense_vocabulary(buffers, eos_token_id, logits_vocab_size, built));
            let r: Result<CanonicalVocabulary, CoreError> = lift(built);
            assert(dense_buffers_outcome(buffers, eos_token_id, logits_vocab_size, r));
            r
        },
        Err(e) => Err(e),
    }
}

/// A dense decode whose vocabulary is built is held by it: a byte string has an id in the
/// vocabulary exactly where it stands in the slot of that index.
pub proof fn present_slots_are_held(
    slots: Seq<Option<&[u8]>>,
    eos_token_id: u32,
    logits_vocab_size: Option<usize>,
    v: CanonicalVocabulary,
    key: Seq<u8>,
    id: u32,
)
    requires
        dense_decode_outcome(slots, eos_token_id, logits_vocab_size, Ok(v)),
    ensures
        assigns(v@.records, key, id) <==> id < slots.len() && slots[id as int] is Some
            && slots[id as int]->Some_0@ == key,
        v@.eos_token_id == eos_token_id,
        logits_vocab_size matches Some(width) ==> v@.mask_vocab_size == width,
{
    let r = Ok::<CanonicalVocabulary, CoreError>(v);
    let buffers = choose|buffers: DenseBuffers|
        {
            &&& buffers.holds(slots)
            &&& #[trigger] dense_buffers_outcome(buffers, eos_token_id, logits_vocab_size, r)
        };
    let built = choose|built: Result<CanonicalVocabulary, CompileError>| #[trigger]
        dense_vocabulary(buffers, eos_token_id, logits_vocab_size, built) && r == lifted(built);
    assert(built == Ok::<CanonicalVocabulary, CompileError>(v));
    if id < slots.len() {
        assert(csr_item(buffers.token_bytes@, buffers.byte_offsets@, id as int) == slot_bytes(
            slots,
        )[id as int]);
        assert(buffers.present@[id as int] == (slots[id as int] is Some));
    }
}

} // verus!
