//! What a packed or dense vocabulary must satisfy before anything is built of it.

use std::collections::TryReserveError;

use vstd::layout::size_of;
use vstd::prelude::*;
use vstd::slice::slice_subrange;

use crate::error::{CompileError, ErrorCode, ErrorView, Stage, plain_error};

verus! {

/// Cap on packed token count, checked before any sort or allocation: two to the 24th.
pub const MAX_PACKED_TOKENS: usize = 16_777_216;

/// Caps projected peak memory before sorting or allocation: two to the 31st.
pub const MAX_PACKED_PROJECTED_PEAK_BYTES: usize = 2_147_483_648;

/// Mask-width cap: `max_token_id + 1` above this is rejected before any mask is allocated. A mask
/// is one bit per id, so this bounds a single row at two to the 21st bits, 256 KiB.
pub const MAX_MASK_TOKENS: usize = 2_097_152;

/// Conservative per-entry byte cost of a sparse id-index slot: the 8-byte payload plus the
/// table's control byte, load-factor slack, and transient resize overlap.
pub const CONSERVATIVE_SPARSE_SLOT_BYTES: usize = 24;

/// The size of a [`TokenRecord`].
pub const TOKEN_RECORD_BYTES: usize = 16;

/// The size of a [`PackedSortKey`].
pub const SORT_KEY_BYTES: usize = 16;

/// An arena that cannot be addressed, or memory that could not be had.
pub open spec fn overflow_error(message: Seq<char>) -> ErrorView {
    plain_error(ErrorCode::InternalLimitExceeded, Stage::L4Bind, message)
}

pub open spec fn empty_token_error() -> ErrorView {
    plain_error(ErrorCode::EmptyToken, Stage::VocabBuild, "vocabulary token has zero bytes"@)
}

pub open spec fn eos_as_ordinary_id_error() -> ErrorView {
    plain_error(
        ErrorCode::MalformedTokenizer,
        Stage::VocabBuild,
        "EOS token id present in the token map"@,
    )
}

pub open spec fn empty_token_ids_error() -> ErrorView {
    plain_error(ErrorCode::MalformedTokenizer, Stage::VocabBuild, "token has an empty id list"@)
}

pub open spec fn malformed_offsets_error(message: Seq<char>) -> ErrorView {
    plain_error(ErrorCode::Unsupported, Stage::VocabBuild, message)
}

pub fn overflow(msg: &'static str) -> (e: CompileError)
    ensures
        e@ == overflow_error(msg@),
{
    CompileError::new(ErrorCode::InternalLimitExceeded, Stage::L4Bind, msg)
}

pub fn empty_token() -> (e: CompileError)
    ensures
        e@ == empty_token_error(),
{
    CompileError::new(ErrorCode::EmptyToken, Stage::VocabBuild, "vocabulary token has zero bytes")
}

pub fn eos_as_ordinary_id() -> (e: CompileError)
    ensures
        e@ == eos_as_ordinary_id_error(),
{
    CompileError::new(
        ErrorCode::MalformedTokenizer,
        Stage::VocabBuild,
        "EOS token id present in the token map",
    )
}

pub fn empty_token_ids() -> (e: CompileError)
    ensures
        e@ == empty_token_ids_error(),
{
    CompileError::new(
        ErrorCode::MalformedTokenizer,
        Stage::VocabBuild,
        "token has an empty id list",
    )
}

pub fn malformed_offsets(msg: &'static str) -> (e: CompileError)
    ensures
        e@ == malformed_offsets_error(msg@),
{
    CompileError::new(ErrorCode::Unsupported, Stage::VocabBuild, msg)
}

pub open spec fn at_most(n: int, cap: int) -> int {
    if n < cap {
        n
    } else {
        cap
    }
}

pub open spec fn at_least(n: int, floor: int) -> int {
    if n > floor {
        n
    } else {
        floor
    }
}

/// The memory that one packed build holds at once, in full: the token bytes, the ids, a record and
/// a sort key per token, the scratch for one group of ids, and the larger of the two id indexes.
pub open spec fn full_peak(token_bytes_len: int, token_ids_len: int, token_count: int) -> int {
    token_bytes_len + token_ids_len * 4 + token_count * TOKEN_RECORD_BYTES + token_count
        * SORT_KEY_BYTES + token_ids_len * 4 + at_least(
        token_ids_len * CONSERVATIVE_SPARSE_SLOT_BYTES,
        MAX_MASK_TOKENS * 4,
    )
}

pub fn saturating_product(a: usize, b: usize) -> (p: usize)
    ensures
        p == at_most(a * b, usize::MAX as int),
{
    match a.checked_mul(b) {
        Some(p) => p,
        None => usize::MAX,
    }
}

/// Estimates peak memory for all simultaneously live packed-build allocations.
pub fn projected_peak_bytes(
    token_bytes_len: usize,
    token_ids_len: usize,
    token_count: usize,
) -> (peak: usize)
    ensures
        peak == at_most(
            full_peak(token_bytes_len as int, token_ids_len as int, token_count as int),
            usize::MAX as int,
        ),
{
    let ids_bytes: usize = saturating_product(token_ids_len, 4);
    let records_bytes: usize = saturating_product(token_count, TOKEN_RECORD_BYTES);
    let order_bytes: usize = saturating_product(token_count, SORT_KEY_BYTES);
    let group_scratch: usize = saturating_product(token_ids_len, 4);
    let dense_worst_case: usize = saturating_product(MAX_MASK_TOKENS, 4);
    let sparse_worst_case: usize = saturating_product(
        token_ids_len,
        CONSERVATIVE_SPARSE_SLOT_BYTES,
    );
    let id_index_worst_case: usize = if dense_worst_case > sparse_worst_case {
        dense_worst_case
    } else {
        sparse_worst_case
    };
    token_bytes_len.saturating_add(ids_bytes).saturating_add(records_bytes).saturating_add(
        order_bytes,
    ).saturating_add(group_scratch).saturating_add(id_index_worst_case)
}

/// What is wrong with `offsets` as the boundaries of items in a buffer of `len` elements.
pub open spec fn csr_fault(offsets: Seq<u32>, len: int) -> Option<Seq<char>> {
    if offsets.len() == 0 {
        Some("offsets must have at least one element"@)
    } else if offsets[0] != 0 {
        Some("offsets must start at 0"@)
    } else if exists|i: int| 0 <= i < offsets.len() - 1 && #[trigger] offsets[i] > offsets[i + 1] {
        Some("offsets must be non-decreasing"@)
    } else if offsets.last() != len {
        Some("offsets' final entry must equal the buffer length"@)
    } else {
        None
    }
}

/// `offsets` bound items that lie side by side and fill a buffer of `len` elements.
pub open spec fn csr_ok(offsets: Seq<u32>, len: int) -> bool {
    csr_fault(offsets, len) is None
}

pub proof fn csr_monotone(offsets: Seq<u32>, len: int, i: int, j: int)
    requires
        csr_ok(offsets, len),
        0 <= i <= j < offsets.len(),
    ensures
        offsets[i] <= offsets[j] <= len,
    decreases offsets.len() - i,
{
    if i < offsets.len() - 1 {
        assert(!(offsets[i] > offsets[i + 1]));
        csr_monotone(offsets, len, i + 1, if j > i { j } else { i + 1 });
    }
}

/// `offsets` must be non-empty, start at 0, be non-decreasing, and its last entry must equal `len`
/// (the buffer it indexes into).
pub fn validate_csr_offsets(offsets: &[u32], len: usize) -> (r: Result<(), CompileError>)
    ensures
        match csr_fault(offsets@, len as int) {
            Some(message) => r is Err && r->Err_0@ == malformed_offsets_error(message),
            None => r is Ok,
        },
{
    if offsets.len() == 0 {
        return Err(malformed_offsets("offsets must have at least one element"));
    }
    if offsets[0] != 0 {
        return Err(malformed_offsets("offsets must start at 0"));
    }
    let mut i: usize = 0;
    while i + 1 < offsets.len()
        invariant
            0 <= i < offsets@.len(),
            offsets@.len() <= usize::MAX,
            offsets@[0] == 0,
            forall|k: int| 0 <= k < i ==> #[trigger] offsets@[k] <= offsets@[k + 1],
        decreases offsets@.len() - i,
    {
        if offsets[i] > offsets[i + 1] {
            assert(offsets@[i as int] > offsets@[i + 1]);
            return Err(malformed_offsets("offsets must be non-decreasing"));
        }
        i = i + 1;
    }
    if offsets[offsets.len() - 1] as usize != len {
        return Err(
            malformed_offsets("offsets' final entry must equal the buffer length"),
        );
    }
    Ok(())
}

/// A vector can hold `n` elements of type `T`: together they are no larger than `isize::MAX` bytes.
pub open spec fn can_hold<T>(n: int) -> bool {
    n * size_of::<T>() <= isize::MAX
}

/// Asks the allocator for room, as `Vec::try_reserve_exact` does. The call leaves the elements as
/// they are. A request of no room is always met, and one that would take the vector over
/// `isize::MAX` bytes never is. Whether any other succeeds is up to the allocator, so nothing is
/// said of that.
#[verifier::external_body]
pub(crate) fn reserve_exact<T>(v: &mut Vec<T>, additional: usize) -> (r: Result<(), TryReserveError>)
    ensures
        final(v)@ == old(v)@,
        additional == 0 ==> r is Ok,
        r is Ok ==> can_hold::<T>(old(v)@.len() + additional),
{
    v.try_reserve_exact(additional)
}

/// An empty vector with room for `cap` elements, or a typed error where the memory cannot be had.
pub fn try_alloc<T>(cap: usize, what: &'static str) -> (r: Result<Vec<T>, CompileError>)
    ensures
        match r {
            Ok(v) => v@ == Seq::<T>::empty() && can_hold::<T>(cap as int),
            Err(e) => cap > 0 && e@ == overflow_error(what@),
        },
{
    let mut v: Vec<T> = Vec::new();
    match reserve_exact(&mut v, cap) {
        Ok(()) => Ok(v),
        Err(_) => Err(overflow(what)),
    }
}

/// `(total_bytes, total_ids)` narrowed to `u32`, or a typed error.
pub fn check_addressable_totals(total_bytes: usize, total_ids: usize) -> (r: Result<
    (u32, u32),
    CompileError,
>)
    ensures
        match r {
            Ok(caps) => caps.0 == total_bytes && caps.1 == total_ids,
            Err(e) => e@ == overflow_error(
                if total_bytes > u32::MAX {
                    "prepared vocabulary blob exceeds the addressable range"@
                } else {
                    "prepared vocabulary id array exceeds the addressable range"@
                },
            ),
        },
        r is Ok <==> total_bytes <= u32::MAX && total_ids <= u32::MAX,
{
    if total_bytes > u32::MAX as usize {
        return Err(overflow("prepared vocabulary blob exceeds the addressable range"));
    }
    if total_ids > u32::MAX as usize {
        return Err(overflow("prepared vocabulary id array exceeds the addressable range"));
    }
    Ok((total_bytes as u32, total_ids as u32))
}

/// The item `i` of a buffer that `offsets` cut into items.
pub open spec fn csr_item<T>(buffer: Seq<T>, offsets: Seq<u32>, i: int) -> Seq<T> {
    buffer.subrange(offsets[i] as int, offsets[i + 1] as int)
}

/// The item `index` of a buffer that `offsets` cut into items.
pub fn csr_slice<'a, T>(buffer: &'a [T], offsets: &[u32], index: u32) -> (item: &'a [T])
    requires
        csr_ok(offsets@, buffer@.len() as int),
        index + 1 < offsets@.len(),
    ensures
        item@ == csr_item(buffer@, offsets@, index as int),
{
    proof {
        csr_monotone(offsets@, buffer@.len() as int, index as int, index + 1);
    }
    let at: usize = index as usize;
    slice_subrange(buffer, offsets[at] as usize, offsets[at + 1] as usize)
}

/// The largest of `ids` and `floor`.
pub open spec fn largest_id(ids: Seq<u32>, floor: u32) -> u32
    decreases ids.len(),
{
    if ids.len() == 0 {
        floor
    } else {
        let rest = largest_id(ids.drop_last(), floor);
        if ids.last() > rest {
            ids.last()
        } else {
            rest
        }
    }
}

pub fn max_token_id(token_ids: &[u32], eos_token_id: u32) -> (max: u32)
    ensures
        max == largest_id(token_ids@, eos_token_id),
{
    let mut max: u32 = eos_token_id;
    let mut i: usize = 0;
    while i < token_ids.len()
        invariant
            i <= token_ids@.len(),
            max == largest_id(token_ids@.take(i as int), eos_token_id),
        decreases token_ids@.len() - i,
    {
        assert(token_ids@.take(i + 1).drop_last() =~= token_ids@.take(i as int));
        if token_ids[i] > max {
            max = token_ids[i];
        }
        i = i + 1;
    }
    assert(token_ids@.take(i as int) =~= token_ids@);
    max
}

/// Why no mask can cover the ids up to `max_id`, if none can.
pub open spec fn mask_fault(max_id: u32) -> Option<ErrorView> {
    if max_id + 1 > usize::MAX {
        Some(overflow_error("max token id overflows the mask width"@))
    } else if max_id + 1 > MAX_MASK_TOKENS {
        Some(overflow_error("mask width exceeds the token-id cap"@))
    } else {
        None
    }
}

/// Why the packed buffers are refused before anything is built of them, if they are.
pub open spec fn packed_rejection(
    token_bytes: Seq<u8>,
    byte_offsets: Seq<u32>,
    token_ids: Seq<u32>,
    id_offsets: Seq<u32>,
    eos_token_id: u32,
    peak_budget: int,
) -> Option<ErrorView> {
    let count = byte_offsets.len() - 1;
    if byte_offsets.len() != id_offsets.len() {
        Some(malformed_offsets_error("byte_offsets and id_offsets must have the same length"@))
    } else if csr_fault(byte_offsets, token_bytes.len() as int) is Some {
        Some(
            malformed_offsets_error(csr_fault(byte_offsets, token_bytes.len() as int)->Some_0),
        )
    } else if csr_fault(id_offsets, token_ids.len() as int) is Some {
        Some(malformed_offsets_error(csr_fault(id_offsets, token_ids.len() as int)->Some_0))
    } else if count > MAX_PACKED_TOKENS {
        Some(malformed_offsets_error("packed token count exceeds the cap"@))
    } else if at_most(
        full_peak(token_bytes.len() as int, token_ids.len() as int, count),
        usize::MAX as int,
    ) > peak_budget {
        Some(
            malformed_offsets_error(
                "projected peak memory for this packed build exceeds the cap"@,
            ),
        )
    } else if exists|i: int| 0 <= i < count && #[trigger] byte_offsets[i] == byte_offsets[i + 1] {
        Some(empty_token_error())
    } else if token_ids.contains(eos_token_id) {
        Some(eos_as_ordinary_id_error())
    } else {
        mask_fault(largest_id(token_ids, eos_token_id))
    }
}

/// The error of a packed build that the allocator refused memory for.
pub open spec fn packed_allocation_failed(e: ErrorView) -> bool {
    ||| e == overflow_error("packed sort-order"@)
    ||| e == overflow_error("prepared vocabulary blob"@)
    ||| e == overflow_error("prepared vocabulary id array"@)
    ||| e == overflow_error("prepared vocabulary records"@)
    ||| e == overflow_error("packed group-id scratch allocation failed"@)
}

/// Why the dense buffers are refused before anything is built of them, if they are.
pub open spec fn dense_rejection(
    token_bytes: Seq<u8>,
    byte_offsets: Seq<u32>,
    present: Seq<bool>,
    eos_token_id: u32,
    peak_budget: int,
) -> Option<ErrorView> {
    let held = present_total(present);
    if byte_offsets.len() != at_most(present.len() as int + 1, usize::MAX as int) {
        Some(
            malformed_offsets_error("byte_offsets must have exactly one more entry than present"@),
        )
    } else if csr_fault(byte_offsets, token_bytes.len() as int) is Some {
        Some(
            malformed_offsets_error(csr_fault(byte_offsets, token_bytes.len() as int)->Some_0),
        )
    } else if present.len() > MAX_PACKED_TOKENS {
        Some(malformed_offsets_error("dense token count exceeds the cap"@))
    } else if at_most(
        full_peak(token_bytes.len() as int, held as int, held as int),
        usize::MAX as int,
    ) > peak_budget {
        Some(
            malformed_offsets_error("projected peak memory for this dense build exceeds the cap"@),
        )
    } else if exists|i: int|
        0 <= i < present.len() && #[trigger] present[i] && byte_offsets[i] == byte_offsets[i
            + 1] {
        Some(empty_token_error())
    } else if eos_token_id < present.len() && present[eos_token_id as int] {
        Some(eos_as_ordinary_id_error())
    } else {
        None
    }
}

/// The error of a dense build that the allocator refused memory for.
pub open spec fn dense_allocation_failed(e: ErrorView) -> bool {
    ||| e == overflow_error("dense sort-order"@)
    ||| e == overflow_error("prepared vocabulary blob"@)
    ||| e == overflow_error("prepared vocabulary id array"@)
    ||| e == overflow_error("prepared vocabulary records"@)
    ||| e == overflow_error("dense group-id scratch allocation failed"@)
}

/// How many slots are present.
pub open spec fn present_total(present: Seq<bool>) -> nat
    decreases present.len(),
{
    if present.len() == 0 {
        0
    } else {
        present_total(present.drop_last()) + if present.last() {
            1nat
        } else {
            0nat
        }
    }
}

pub fn count_present(present: &[bool]) -> (n: usize)
    ensures
        n == present_total(present@),
        n <= present@.len(),
{
    let mut n: usize = 0;
    let mut i: usize = 0;
    while i < present.len()
        invariant
            n <= i <= present@.len(),
            n == present_total(present@.take(i as int)),
        decreases present@.len() - i,
    {
        assert(present@.take(i + 1).drop_last() =~= present@.take(i as int));
        if present[i] {
            n = n + 1;
        }
        i = i + 1;
    }
    assert(present@.take(i as int) =~= present@);
    n
}

/// Whether some item is empty.
pub fn has_empty_item(offsets: &[u32]) -> (r: bool)
    ensures
        r == exists|i: int| 0 <= i < offsets@.len() - 1 && #[trigger] offsets@[i] == offsets@[i + 1],
{
    if offsets.len() == 0 {
        return false;
    }
    let mut i: usize = 0;
    while i < offsets.len() - 1
        invariant
            i < offsets@.len(),
            forall|k: int| 0 <= k < i ==> #[trigger] offsets@[k] != offsets@[k + 1],
        decreases offsets@.len() - i,
    {
        if offsets[i] == offsets[i + 1] {
            assert(offsets@[i as int] == offsets@[i + 1]);
            return true;
        }
        i = i + 1;
    }
    false
}

/// Whether the item of some present slot is empty.
pub fn has_empty_slot(offsets: &[u32], present: &[bool]) -> (r: bool)
    requires
        offsets@.len() == present@.len() + 1,
    ensures
        r == exists|i: int|
            0 <= i < present@.len() && #[trigger] present@[i] && offsets@[i] == offsets@[i + 1],
{
    let mut i: usize = 0;
    while i < present.len()
        invariant
            i <= present@.len(),
            offsets@.len() == present@.len() + 1,
            forall|k: int|
                0 <= k < i && #[trigger] present@[k] ==> offsets@[k] != offsets@[k + 1],
        decreases present@.len() - i,
    {
        if present[i] && offsets[i] == offsets[i + 1] {
            assert(present@[i as int] && offsets@[i as int] == offsets@[i + 1]);
            return true;
        }
        i = i + 1;
    }
    false
}

/// Whether `ids` holds `id`.
pub fn contains_id(ids: &[u32], id: u32) -> (r: bool)
    ensures
        r == ids@.contains(id),
{
    let mut i: usize = 0;
    while i < ids.len()
        invariant
            i <= ids@.len(),
            forall|k: int| 0 <= k < i ==> ids@[k] != id,
        decreases ids@.len() - i,
    {
        if ids[i] == id {
            assert(ids@[i as int] == id);
            return true;
        }
        i = i + 1;
    }
    false
}

/// Checks packed buffers before anything is built of them.
pub fn admit_packed(
    token_bytes: &[u8],
    byte_offsets: &[u32],
    token_ids: &[u32],
    id_offsets: &[u32],
    eos_token_id: u32,
    peak_budget: usize,
) -> (r: Result<(), CompileError>)
    ensures
        match packed_rejection(
            token_bytes@,
            byte_offsets@,
            token_ids@,
            id_offsets@,
            eos_token_id,
            peak_budget as int,
        ) {
            Some(rejection) => r is Err && r->Err_0@ == rejection,
            None => r is Ok,
        },
{
    if byte_offsets.len() != id_offsets.len() {
        return Err(malformed_offsets("byte_offsets and id_offsets must have the same length"));
    }
    match validate_csr_offsets(byte_offsets, token_bytes.len()) {
        Ok(()) => {},
        Err(e) => {
            return Err(e);
        },
    }
    match validate_csr_offsets(id_offsets, token_ids.len()) {
        Ok(()) => {},
        Err(e) => {
            return Err(e);
        },
    }
    let token_count: usize = byte_offsets.len() - 1;
    if token_count > MAX_PACKED_TOKENS {
        return Err(malformed_offsets("packed token count exceeds the cap"));
    }
    let peak: usize = projected_peak_bytes(token_bytes.len(), token_ids.len(), token_count);
    if peak > peak_budget {
        return Err(
            malformed_offsets("projected peak memory for this packed build exceeds the cap"),
        );
    }
    if has_empty_item(byte_offsets) {
        return Err(empty_token());
    }
    if contains_id(token_ids, eos_token_id) {
        return Err(eos_as_ordinary_id());
    }
    let max_id: u32 = max_token_id(token_ids, eos_token_id);
    let mask_vocab_size: usize = match (max_id as usize).checked_add(1) {
        Some(width) => width,
        None => {
            return Err(overflow("max token id overflows the mask width"));
        },
    };
    if mask_vocab_size > MAX_MASK_TOKENS {
        return Err(overflow("mask width exceeds the token-id cap"));
    }
    Ok(())
}

/// Checks dense buffers before anything is built of them.
pub fn admit_dense(
    token_bytes: &[u8],
    byte_offsets: &[u32],
    present: &[bool],
    eos_token_id: u32,
    peak_budget: usize,
) -> (r: Result<(), CompileError>)
    ensures
        match dense_rejection(
            token_bytes@,
            byte_offsets@,
            present@,
            eos_token_id,
            peak_budget as int,
        ) {
            Some(rejection) => r is Err && r->Err_0@ == rejection,
            None => r is Ok,
        },
{
    if byte_offsets.len() != present.len().saturating_add(1) {
        return Err(
            malformed_offsets("byte_offsets must have exactly one more entry than present"),
        );
    }
    match validate_csr_offsets(byte_offsets, token_bytes.len()) {
        Ok(()) => {},
        Err(e) => {
            return Err(e);
        },
    }
    if present.len() > MAX_PACKED_TOKENS {
        return Err(malformed_offsets("dense token count exceeds the cap"));
    }
    let present_count: usize = count_present(present);
    let peak: usize = projected_peak_bytes(token_bytes.len(), present_count, present_count);
    if peak > peak_budget {
        return Err(
            malformed_offsets("projected peak memory for this dense build exceeds the cap"),
        );
    }
    if has_empty_slot(byte_offsets, present) {
        return Err(empty_token());
    }
    if (eos_token_id as usize) < present.len() && present[eos_token_id as usize] {
        return Err(eos_as_ordinary_id());
    }
    Ok(())
}

} // verus!
