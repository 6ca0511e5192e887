//! Packing tokens into the buffers that a vocabulary is built of, within what was
//! admitted before.

use vstd::prelude::*;
use vstd::string::StringExecFns;

use crate::admission::{csr_item, csr_monotone, csr_ok, try_alloc};
use crate::build_laws::holds;
use crate::error::CompileError;
use crate::little_endian::{le_limits, le_value, read_le};
use crate::prepared::packed_entries;
use crate::records::{bytes_total, ids_total};
use crate::report::CoreError;
use crate::text::{decimal, decimal_text};
use crate::token_map::pairs_view;

verus! {

/// Hard cap on any ONE packed buffer's byte length: two to the 28th.
pub const MAX_PACKED_BUFFER_BYTES: usize = 268_435_456;

/// Hard cap on the sum of all four packed buffers before decoding: two to the 28th.
pub const MAX_PACKED_AGGREGATE_BYTES: usize = 268_435_456;

pub open spec fn is_unsupported(e: CoreError, words: Seq<char>) -> bool {
    e matches CoreError::Unsupported(w) && w@ == words
}

fn unsupported(words: &str) -> (e: CoreError)
    ensures
        is_unsupported(e, words@),
{
    CoreError::Unsupported(words.to_owned())
}

/// The content of a token list changed between the admission scan and the copy.
pub open spec fn changed_content() -> Seq<char> {
    "token content changed between admission and copy"@
}

pub open spec fn allocation_text(what: Seq<char>) -> Seq<char> {
    what + " allocation failed"@
}

/// The error of memory that could not be had.
pub fn alloc_err(what: &'static str) -> (e: CoreError)
    ensures
        is_unsupported(e, allocation_text(what@)),
{
    CoreError::Unsupported(what.to_owned().concat(" allocation failed"))
}

/// A length as an offset, as far as offsets reach.
pub fn checked_u32(n: usize) -> (r: Result<u32, CoreError>)
    ensures
        match r {
            Ok(x) => x == n,
            Err(e) => n > u32::MAX && is_unsupported(
                e,
                "packed offset exceeds the addressable range"@,
            ),
        },
{
    if n > u32::MAX as usize {
        return Err(unsupported("packed offset exceeds the addressable range"));
    }
    Ok(n as u32)
}

/// Why a set of buffer lengths is refused: the first that is over the cap on one buffer, or else
/// their sum.
pub open spec fn lengths_fault(lens: Seq<usize>) -> Option<Seq<char>> {
    if exists|i: int| 0 <= i < lens.len() && #[trigger] lens[i] > MAX_PACKED_BUFFER_BYTES {
        let i = choose|i: int|
            0 <= i < lens.len() && #[trigger] lens[i] > MAX_PACKED_BUFFER_BYTES && forall|k: int|
                0 <= k < i ==> #[trigger] lens[k] <= MAX_PACKED_BUFFER_BYTES;
        Some(
            "packed buffer of "@ + decimal_text(lens[i] as nat) + " bytes exceeds the cap of "@
                + decimal_text(MAX_PACKED_BUFFER_BYTES as nat) + " (per buffer)"@,
        )
    } else if length_total(lens) > MAX_PACKED_AGGREGATE_BYTES {
        Some(
            "packed buffers total "@ + decimal_text(length_total(lens))
                + " bytes, which exceeds the cap of "@ + decimal_text(
                MAX_PACKED_AGGREGATE_BYTES as nat,
            ) + " (aggregate)"@,
        )
    } else {
        None
    }
}

pub open spec fn length_total(lens: Seq<usize>) -> nat
    decreases lens.len(),
{
    if lens.len() == 0 {
        0
    } else {
        length_total(lens.drop_last()) + lens.last() as nat
    }
}

/// Pure length check, no buffer/allocation involved - each length against the per-buffer cap, the
/// sum against the aggregate cap.
pub fn check_packed_lengths(lens: [usize; 4]) -> (r: Result<(), CoreError>)
    ensures
        match lengths_fault(lens@) {
            Some(words) => r is Err && is_unsupported(r->Err_0, words),
            None => r is Ok,
        },
{
    let mut total: usize = 0;
    let mut i: usize = 0;
    while i < 4
        invariant
            i <= 4,
            total <= i * MAX_PACKED_BUFFER_BYTES,
            total == length_total(lens@.take(i as int)),
            forall|k: int| 0 <= k < i ==> #[trigger] lens@[k] <= MAX_PACKED_BUFFER_BYTES,
        decreases 4 - i,
    {
        let len: usize = lens[i];
        if len > MAX_PACKED_BUFFER_BYTES {
            let text: String = decimal(len as u64);
            let cap: String = decimal(MAX_PACKED_BUFFER_BYTES as u64);
            let words: String = "packed buffer of ".to_owned().concat(text.as_str()).concat(
                " bytes exceeds the cap of ",
            ).concat(cap.as_str()).concat(" (per buffer)");
            proof {
                assert(lens@[i as int] > MAX_PACKED_BUFFER_BYTES);
                let j = choose|j: int|
                    0 <= j < lens@.len() && #[trigger] lens@[j] > MAX_PACKED_BUFFER_BYTES
                        && forall|k: int|
                        0 <= k < j ==> #[trigger] lens@[k] <= MAX_PACKED_BUFFER_BYTES;
                assert(j == i) by {
                    if j < i {
                        assert(lens@[j] <= MAX_PACKED_BUFFER_BYTES);
                    } else if i < j {
                        assert(lens@[i as int] <= MAX_PACKED_BUFFER_BYTES);
                    }
                }
            }
            return Err(CoreError::Unsupported(words));
        }
        assert(lens@.take(i + 1).drop_last() =~= lens@.take(i as int));
        total = total + len;
        i = i + 1;
    }
    assert(lens@.take(4) =~= lens@);
    if total > MAX_PACKED_AGGREGATE_BYTES {
        let text: String = decimal(total as u64);
        let cap: String = decimal(MAX_PACKED_AGGREGATE_BYTES as u64);
        let words: String = "packed buffers total ".to_owned().concat(text.as_str()).concat(
            " bytes, which exceeds the cap of ",
        ).concat(cap.as_str()).concat(" (aggregate)");
        return Err(CoreError::Unsupported(words));
    }
    Ok(())
}

/// The little-endian numbers in a byte string, four bytes each.
pub open spec fn le_words(bytes: Seq<u8>) -> Seq<u32> {
    Seq::new(
        bytes.len() / 4,
        |i: int| le_value(bytes.subrange(4 * i, 4 * i + 4)) as u32,
    )
}

/// Decodes little-endian `u32` data.
pub fn buffer_to_u32_vec_le(bytes: &[u8], what: &'static str) -> (r: Result<Vec<u32>, CoreError>)
    ensures
        match r {
            Ok(words) => bytes@.len() % 4 == 0 && words@ == le_words(bytes@),
            Err(e) => if bytes@.len() % 4 != 0 {
                is_unsupported(
                    e,
                    what@ + " byte length "@ + decimal_text(bytes@.len())
                        + " is not a multiple of 4"@,
                )
            } else {
                bytes@.len() > 0 && is_unsupported(e, allocation_text(what@))
            },
        },
{
    let len: usize = bytes.len();
    if len % 4 != 0 {
        let text: String = decimal(len as u64);
        let words: String = what.to_owned().concat(" byte length ").concat(text.as_str()).concat(
            " is not a multiple of 4",
        );
        return Err(CoreError::Unsupported(words));
    }
    match try_alloc(len / 4, what) {
        Ok(out) => Ok(decode_words(bytes, out)),
        Err(_) => Err(alloc_err(what)),
    }
}

/// Decodes little-endian `u32` data into an empty list that the caller has reserved.
pub fn decode_words(bytes: &[u8], out: Vec<u32>) -> (words: Vec<u32>)
    requires
        out@.len() == 0,
    ensures
        words@ == le_words(bytes@),
{
    let len: usize = bytes.len();
    let mut out: Vec<u32> = out;
    let mut i: usize = 0;
    while i < len / 4
        invariant
            len == bytes@.len(),
            i <= len / 4,
            out@ =~= le_words(bytes@).take(i as int),
        decreases len / 4 - i,
    {
        proof {
            le_limits();
        }
        let word: u64 = read_le(bytes, 4 * i, 4);
        out.push(word as u32);
        i = i + 1;
    }
    assert(le_words(bytes@).take(i as int) =~= le_words(bytes@));
    out
}

/// The lengths of a token list, counted before anything is copied.
pub open spec fn token_lengths(lens: Seq<(usize, usize)>) -> (nat, nat)
    decreases lens.len(),
{
    if lens.len() == 0 {
        (0, 0)
    } else {
        let rest = token_lengths(lens.drop_last());
        (rest.0 + lens.last().0 as nat, rest.1 + lens.last().1 as nat)
    }
}

/// The first total that overflows, as a message.
pub open spec fn prescan_fault(lens: Seq<(usize, usize)>) -> Option<Seq<char>>
    decreases lens.len(),
{
    if lens.len() == 0 {
        None
    } else if prescan_fault(lens.drop_last()) is Some {
        prescan_fault(lens.drop_last())
    } else if token_lengths(lens).0 > usize::MAX {
        Some("token byte total overflows"@)
    } else if token_lengths(lens).1 > usize::MAX {
        Some("token id total overflows"@)
    } else {
        None
    }
}

proof fn prescan_fault_stays(lens: Seq<(usize, usize)>, n: int)
    requires
        0 <= n <= lens.len(),
        prescan_fault(lens.take(n)) is Some,
    ensures
        prescan_fault(lens) == prescan_fault(lens.take(n)),
    decreases lens.len() - n,
{
    if n < lens.len() {
        assert(lens.take(n + 1).drop_last() =~= lens.take(n));
        prescan_fault_stays(lens, n + 1);
    } else {
        assert(lens.take(n) =~= lens);
    }
}

/// Length-only pre-scan of a token list, each token given as the number of its bytes and of its
/// ids: `(total_bytes, total_ids, token_count)`, without copying content - lets an admission peak
/// be computed before any allocation.
pub fn prescan_token_totals(lens: &[(usize, usize)]) -> (r: Result<
    (usize, usize, usize),
    CoreError,
>)
    ensures
        match r {
            Ok(totals) => {
                &&& totals.0 == token_lengths(lens@).0
                &&& totals.1 == token_lengths(lens@).1
                &&& totals.2 == lens@.len()
            },
            Err(e) => prescan_fault(lens@) is Some && is_unsupported(
                e,
                prescan_fault(lens@)->Some_0,
            ),
        },
        r is Ok <==> prescan_fault(lens@) is None,
{
    let mut total_bytes: usize = 0;
    let mut total_ids: usize = 0;
    let mut i: usize = 0;
    while i < lens.len()
        invariant
            i <= lens@.len(),
            total_bytes == token_lengths(lens@.take(i as int)).0,
            total_ids == token_lengths(lens@.take(i as int)).1,
            prescan_fault(lens@.take(i as int)) is None,
        decreases lens@.len() - i,
    {
        proof {
            assert(lens@.take(i + 1).drop_last() =~= lens@.take(i as int));
            if prescan_fault(lens@.take(i + 1)) is Some {
                prescan_fault_stays(lens@, i + 1);
            }
        }
        total_bytes = match total_bytes.checked_add(lens[i].0) {
            Some(n) => n,
            None => {
                return Err(unsupported("token byte total overflows"));
            },
        };
        total_ids = match total_ids.checked_add(lens[i].1) {
            Some(n) => n,
            None => {
                return Err(unsupported("token id total overflows"));
            },
        };
        i = i + 1;
    }
    assert(lens@.take(i as int) =~= lens@);
    Ok((total_bytes, total_ids, lens.len()))
}

/// Appends bytes only while the observed length stays within the admitted capacity.
pub fn append_bytes_component(bytes: &[u8], out: &mut Vec<u8>, budget: usize) -> (r: Result<
    (),
    CoreError,
>)
    ensures
        match r {
            Ok(()) => final(out)@ == old(out)@ + bytes@,
            Err(e) => final(out)@ == old(out)@ && is_unsupported(e, changed_content()),
        },
        r is Ok <==> bytes@.len() == 0 || old(out)@.len() + bytes@.len() <= budget,
{
    let remaining: usize = budget.saturating_sub(out.len());
    if bytes.len() > remaining {
        return Err(unsupported("token content changed between admission and copy"));
    }
    let ghost before = out@;
    out.extend_from_slice(bytes);
    assert(out@ =~= before + bytes@);
    Ok(())
}

/// Appends ids only while their number stays within the admitted capacity.
pub fn append_ids_component(ids: &[u32], out: &mut Vec<u32>, budget: usize) -> (r: Result<
    (),
    CoreError,
>)
    ensures
        match r {
            Ok(()) => final(out)@ == old(out)@ + ids@,
            Err(e) => final(out)@ == old(out)@ && is_unsupported(e, changed_content()),
        },
        r is Ok <==> ids@.len() == 0 || old(out)@.len() + ids@.len() <= budget,
{
    if ids.len() > budget.saturating_sub(out.len()) {
        return Err(unsupported("token content changed between admission and copy"));
    }
    let ghost before = out@;
    out.extend_from_slice(ids);
    assert(out@ =~= before + ids@);
    Ok(())
}

/// The four packed buffers of a vocabulary.
#[derive(Clone, Debug, PartialEq, Eq)]
pub struct PackedBuffers {
    pub token_bytes: Vec<u8>,
    pub byte_offsets: Vec<u32>,
    pub token_ids: Vec<u32>,
    pub id_offsets: Vec<u32>,
}

impl PackedBuffers {
    /// The offsets cut the buffers into as many byte strings as id lists.
    pub open spec fn wf(&self) -> bool {
        &&& csr_ok(self.byte_offsets@, self.token_bytes@.len() as int)
        &&& csr_ok(self.id_offsets@, self.token_ids@.len() as int)
        &&& self.byte_offsets@.len() == self.id_offsets@.len()
    }

    /// The tokens in the buffers.
    pub open spec fn entries(&self) -> Seq<(Seq<u8>, Seq<u32>)> {
        packed_entries(self.token_bytes@, self.byte_offsets@, self.token_ids@, self.id_offsets@)
    }
}

/// The error of a packing of so many bytes and ids that the allocator refused memory for. There is
/// always an offset to keep, so room for the offsets is always asked for.
pub open spec fn packing_allocation_failed(
    total_bytes: nat,
    total_ids: nat,
    e: CoreError,
) -> bool {
    ||| total_bytes > 0 && is_unsupported(e, allocation_text("token byte buffer"@))
    ||| is_unsupported(e, allocation_text("byte offsets"@))
    ||| total_ids > 0 && is_unsupported(e, allocation_text("token id buffer"@))
    ||| is_unsupported(e, allocation_text("id offsets"@))
}

/// The error of a packing of so many bytes and slots that the allocator refused memory for.
pub open spec fn slot_packing_allocation_failed(
    total_bytes: nat,
    slot_count: nat,
    e: CoreError,
) -> bool {
    ||| total_bytes > 0 && is_unsupported(e, allocation_text("token byte buffer"@))
    ||| is_unsupported(e, allocation_text("byte offsets"@))
    ||| slot_count > 0 && is_unsupported(e, allocation_text("present flags"@))
}

/// One more offset keeps a buffer cut into items, and leaves the items there were.
proof fn csr_grow<T>(buffer: Seq<T>, offsets: Seq<u32>, more: Seq<T>)
    requires
        csr_ok(offsets, buffer.len() as int),
        buffer.len() + more.len() <= u32::MAX,
    ensures
        csr_ok(
            offsets.push((buffer.len() + more.len()) as u32),
            (buffer.len() + more.len()) as int,
        ),
        forall|i: int|
            0 <= i < offsets.len() - 1 ==> #[trigger] csr_item(
                buffer + more,
                offsets.push((buffer.len() + more.len()) as u32),
                i,
            ) == csr_item(buffer, offsets, i),
        csr_item(
            buffer + more,
            offsets.push((buffer.len() + more.len()) as u32),
            offsets.len() - 1,
        ) == more,
{
    let grown = offsets.push((buffer.len() + more.len()) as u32);
    let both = buffer + more;
    assert forall|i: int| 0 <= i < grown.len() - 1 implies !(#[trigger] grown[i] > grown[i
        + 1]) by {
        if i < offsets.len() - 1 {
            assert(!(offsets[i] > offsets[i + 1]));
        }
    }
    assert forall|i: int| 0 <= i < offsets.len() - 1 implies #[trigger] csr_item(both, grown, i)
        == csr_item(buffer, offsets, i) by {
        csr_monotone(offsets, buffer.len() as int, i, i + 1);
        assert(csr_item(both, grown, i) =~= csr_item(buffer, offsets, i));
    }
    assert(csr_item(both, grown, offsets.len() - 1) =~= more);
}

/// The first component that is beyond what was admitted or beyond the reach of an offset, as a
/// message.
pub open spec fn pack_fault(
    tokens: Seq<(Seq<u8>, Seq<u32>)>,
    total_bytes: usize,
    total_ids: usize,
) -> Option<Seq<char>>
    decreases tokens.len(),
{
    let bytes = bytes_total(tokens);
    let ids = ids_total(tokens);
    if tokens.len() == 0 {
        None
    } else if pack_fault(tokens.drop_last(), total_bytes, total_ids) is Some {
        pack_fault(tokens.drop_last(), total_bytes, total_ids)
    } else if tokens.last().0.len() > 0 && bytes > total_bytes {
        Some(changed_content())
    } else if bytes > u32::MAX {
        Some("packed offset exceeds the addressable range"@)
    } else if tokens.last().1.len() > 0 && ids > total_ids {
        Some(changed_content())
    } else if ids > u32::MAX {
        Some("packed offset exceeds the addressable range"@)
    } else {
        None
    }
}

proof fn pack_fault_stays(
    tokens: Seq<(Seq<u8>, Seq<u32>)>,
    total_bytes: usize,
    total_ids: usize,
    n: int,
)
    requires
        0 <= n <= tokens.len(),
        pack_fault(tokens.take(n), total_bytes, total_ids) is Some,
    ensures
        pack_fault(tokens, total_bytes, total_ids) == pack_fault(
            tokens.take(n),
            total_bytes,
            total_ids,
        ),
    decreases tokens.len() - n,
{
    if n < tokens.len() {
        assert(tokens.take(n + 1).drop_last() =~= tokens.take(n));
        pack_fault_stays(tokens, total_bytes, total_ids, n + 1);
    } else {
        assert(tokens.take(n) =~= tokens);
    }
}

/// A token list that is copied as it was counted is packed without a fault, as long as offsets
/// reach that far.
pub proof fn unchanged_tokens_are_packed(
    tokens: Seq<(Seq<u8>, Seq<u32>)>,
    total_bytes: usize,
    total_ids: usize,
)
    requires
        bytes_total(tokens) <= total_bytes,
        ids_total(tokens) <= total_ids,
        bytes_total(tokens) <= u32::MAX,
        ids_total(tokens) <= u32::MAX,
    ensures
        pack_fault(tokens, total_bytes, total_ids) is None,
    decreases tokens.len(),
{
    if tokens.len() > 0 {
        unchanged_tokens_are_packed(tokens.drop_last(), total_bytes, total_ids);
    }
}

/// What packing a token list within the admitted totals returns: its fault if it has one; else the
/// buffers that hold the tokens.
pub open spec fn packed_outcome(
    tokens: Seq<(Seq<u8>, Seq<u32>)>,
    total_bytes: usize,
    total_ids: usize,
    r: Result<PackedBuffers, CoreError>,
) -> bool {
    match pack_fault(tokens, total_bytes, total_ids) {
        Some(words) => r is Err && is_unsupported(r->Err_0, words),
        None => r is Ok && r->Ok_0.wf() && r->Ok_0.entries() == tokens,
    }
}

/// What the budget of concurrent builds grants one ingestion: the peak memory that it is projected
/// to take, unless that overflows, and whether a build of that peak is let in.
#[derive(Debug, PartialEq, Eq)]
pub struct BuildPermit {
    pub peak: Option<usize>,
    pub granted: Result<(), CompileError>,
}

impl BuildPermit {
    /// The ingestion may go on.
    pub open spec fn admits(self) -> bool {
        self.peak is Some && self.granted is Ok
    }

    /// `e` is why it may not: `words`, where the peak overflows, else the budget's own error.
    pub open spec fn refuses_with(self, words: Seq<char>, e: CoreError) -> bool {
        match self.peak {
            None => is_unsupported(e, words),
            Some(_) => self.granted matches Err(own) && e == CoreError::Compile(own),
        }
    }
}

/// Lets an ingestion go on, or says why it may not.
pub fn admit_ingestion(permit: BuildPermit, words: &'static str) -> (r: Result<(), CoreError>)
    ensures
        match r {
            Ok(()) => permit.admits(),
            Err(e) => !permit.admits() && permit.refuses_with(words@, e),
        },
{
    if permit.peak.is_none() {
        return Err(unsupported(words));
    }
    match permit.granted {
        Ok(()) => Ok(()),
        Err(e) => Err(CoreError::Compile(e)),
    }
}

/// Packs tokens into buffers, within the totals that were counted, if that is permitted.
pub fn admit_and_pack_tokens(
    tokens: &[(&[u8], &[u32])],
    total_bytes: usize,
    total_ids: usize,
    permit: BuildPermit,
) -> (r: Result<PackedBuffers, CoreError>)
    requires
        tokens@.len() < usize::MAX,
    ensures
        if permit.admits() {
            packed_outcome(pairs_view(tokens@), total_bytes, total_ids, r) || (r is Err
                && packing_allocation_failed(total_bytes as nat, total_ids as nat, r->Err_0))
        } else {
            r is Err && permit.refuses_with("packed ingestion peak overflows"@, r->Err_0)
        },
{
    match admit_ingestion(permit, "packed ingestion peak overflows") {
        Ok(()) => {},
        Err(e) => {
            return Err(e);
        },
    }
    let token_bytes: Vec<u8> = match try_alloc(total_bytes, "token byte buffer") {
        Ok(v) => v,
        Err(_) => {
            return Err(alloc_err("token byte buffer"));
        },
    };
    let byte_offsets: Vec<u32> = match try_alloc(tokens.len() + 1, "byte offsets") {
        Ok(v) => v,
        Err(_) => {
            return Err(alloc_err("byte offsets"));
        },
    };
    let token_ids: Vec<u32> = match try_alloc(total_ids, "token id buffer") {
        Ok(v) => v,
        Err(_) => {
            return Err(alloc_err("token id buffer"));
        },
    };
    let id_offsets: Vec<u32> = match try_alloc(tokens.len() + 1, "id offsets") {
        Ok(v) => v,
        Err(_) => {
            return Err(alloc_err("id offsets"));
        },
    };
    pack_into(
        tokens,
        total_bytes,
        total_ids,
        PackedBuffers { token_bytes, byte_offsets, token_ids, id_offsets },
    )
}

/// Packs tokens into empty buffers that the caller has reserved.
#[verifier::rlimit(40)]
pub fn pack_into(
    tokens: &[(&[u8], &[u32])],
    total_bytes: usize,
    total_ids: usize,
    buffers: PackedBuffers,
) -> (r: Result<PackedBuffers, CoreError>)
    requires
        buffers.token_bytes@.len() == 0,
        buffers.byte_offsets@.len() == 0,
        buffers.token_ids@.len() == 0,
        buffers.id_offsets@.len() == 0,
    ensures
        packed_outcome(pairs_view(tokens@), total_bytes, total_ids, r),
{
    let ghost all = pairs_view(tokens@);
    let mut token_bytes: Vec<u8> = buffers.token_bytes;
    let mut byte_offsets: Vec<u32> = buffers.byte_offsets;
    let mut token_ids: Vec<u32> = buffers.token_ids;
    let mut id_offsets: Vec<u32> = buffers.id_offsets;
    byte_offsets.push(0);
    id_offsets.push(0);
    assert(packed_entries(token_bytes@, byte_offsets@, token_ids@, id_offsets@) =~= all.take(0));
    let mut i: usize = 0;
    while i < tokens.len()
        invariant
            all == pairs_view(tokens@),
            i <= tokens@.len(),
            csr_ok(byte_offsets@, token_bytes@.len() as int),
            csr_ok(id_offsets@, token_ids@.len() as int),
            byte_offsets@.len() == i + 1,
            id_offsets@.len() == i + 1,
            packed_entries(token_bytes@, byte_offsets@, token_ids@, id_offsets@) == all.take(
                i as int,
            ),
            token_bytes@.len() == bytes_total(all.take(i as int)),
            token_ids@.len() == ids_total(all.take(i as int)),
            token_bytes@.len() <= u32::MAX,
            token_ids@.len() <= u32::MAX,
            pack_fault(all.take(i as int), total_bytes, total_ids) is None,
        decreases tokens@.len() - i,
    {
        let ghost tb = token_bytes@;
        let ghost bo = byte_offsets@;
        let ghost ti = token_ids@;
        let ghost io = id_offsets@;
        let ghost entry = all[i as int];
        proof {
            assert(all.take(i + 1) =~= all.take(i as int).push(entry));
            assert(all.take(i + 1).drop_last() =~= all.take(i as int));
            if pack_fault(all.take(i + 1), total_bytes, total_ids) is Some {
                pack_fault_stays(all, total_bytes, total_ids, i + 1);
            }
        }
        match append_bytes_component(tokens[i].0, &mut token_bytes, total_bytes) {
            Ok(()) => {},
            Err(e) => {
                return Err(e);
            },
        }
        match checked_u32(token_bytes.len()) {
            Ok(end) => byte_offsets.push(end),
            Err(e) => {
                return Err(e);
            },
        }
        match append_ids_component(tokens[i].1, &mut token_ids, total_ids) {
            Ok(()) => {},
            Err(e) => {
                return Err(e);
            },
        }
        match checked_u32(token_ids.len()) {
            Ok(end) => id_offsets.push(end),
            Err(e) => {
                return Err(e);
            },
        }
        proof {
            csr_grow(tb, bo, entry.0);
            csr_grow(ti, io, entry.1);
            let before = packed_entries(tb, bo, ti, io);
            let after = packed_entries(token_bytes@, byte_offsets@, token_ids@, id_offsets@);
            assert forall|k: int| 0 <= k < after.len() implies after[k] == before.push(
                entry,
            )[k] by {
                if k < i {
                    assert(before[k] == (csr_item(tb, bo, k), csr_item(ti, io, k)));
                }
            }
            assert(after =~= all.take(i + 1));
        }
        i = i + 1;
    }
    assert(all.take(i as int) =~= all);
    Ok(PackedBuffers { token_bytes, byte_offsets, token_ids, id_offsets })
}

/// The bytes of the present slots of a dense decode, counted, and how many there are.
pub open spec fn dense_lengths(lens: Seq<Option<usize>>) -> (nat, nat)
    decreases lens.len(),
{
    if lens.len() == 0 {
        (0, 0)
    } else {
        let rest = dense_lengths(lens.drop_last());
        match lens.last() {
            Some(n) => (rest.0 + n as nat, rest.1 + 1),
            None => rest,
        }
    }
}

proof fn dense_lengths_monotone(lens: Seq<Option<usize>>, n: int)
    requires
        0 <= n <= lens.len(),
    ensures
        dense_lengths(lens.take(n)).0 <= dense_lengths(lens).0,
    decreases lens.len() - n,
{
    if n < lens.len() {
        dense_lengths_monotone(lens, n + 1);
        assert(lens.take(n + 1).drop_last() =~= lens.take(n));
    } else {
        assert(lens.take(n) =~= lens);
    }
}

/// Pre-scans a dense, id-ordered decode, each slot given as the number of its bytes or as absent:
/// `(total_bytes, present_count, token_count)`.
pub fn prescan_dense_totals(lens: &[Option<usize>]) -> (r: Result<
    (usize, usize, usize),
    CoreError,
>)
    ensures
        match r {
            Ok(totals) => {
                &&& totals.0 == dense_lengths(lens@).0
                &&& totals.1 == dense_lengths(lens@).1
                &&& totals.2 == lens@.len()
            },
            Err(e) => dense_lengths(lens@).0 > usize::MAX && is_unsupported(
                e,
                "token byte total overflows"@,
            ),
        },
{
    let mut total_bytes: usize = 0;
    let mut present_count: usize = 0;
    let mut i: usize = 0;
    while i < lens.len()
        invariant
            i <= lens@.len(),
            present_count <= i,
            total_bytes == dense_lengths(lens@.take(i as int)).0,
            present_count == dense_lengths(lens@.take(i as int)).1,
        decreases lens@.len() - i,
    {
        proof {
            assert(lens@.take(i + 1).drop_last() =~= lens@.take(i as int));
            dense_lengths_monotone(lens@, i + 1);
        }
        if let Some(n) = lens[i] {
            total_bytes = match total_bytes.checked_add(n) {
                Some(sum) => sum,
                None => {
                    return Err(unsupported("token byte total overflows"));
                },
            };
            present_count = present_count + 1;
        }
        i = i + 1;
    }
    assert(lens@.take(i as int) =~= lens@);
    Ok((total_bytes, present_count, lens.len()))
}

/// The dense buffers of a vocabulary: token bytes, their offsets, and which slots are present.
#[derive(Clone, Debug, PartialEq, Eq)]
pub struct DenseBuffers {
    pub token_bytes: Vec<u8>,
    pub byte_offsets: Vec<u32>,
    pub present: Vec<bool>,
}

/// The bytes of each slot, none for an absent one.
pub open spec fn slot_bytes(slots: Seq<Option<&[u8]>>) -> Seq<Seq<u8>> {
    Seq::new(
        slots.len(),
        |i: int|
            match slots[i] {
                Some(bytes) => bytes@,
                None => Seq::<u8>::empty(),
            },
    )
}

/// The bytes of all slots, counted.
pub open spec fn slots_total(slots: Seq<Option<&[u8]>>) -> nat
    decreases slots.len(),
{
    if slots.len() == 0 {
        0
    } else {
        slots_total(slots.drop_last()) + slot_bytes(slots).last().len()
    }
}

proof fn slots_total_step(slots: Seq<Option<&[u8]>>, n: int)
    requires
        0 <= n < slots.len(),
    ensures
        slots_total(slots.take(n + 1)) == slots_total(slots.take(n)) + slot_bytes(slots)[n].len(),
{
    assert(slots.take(n + 1).drop_last() =~= slots.take(n));
}

impl DenseBuffers {
    /// The buffers hold the slots.
    pub open spec fn holds(&self, slots: Seq<Option<&[u8]>>) -> bool {
        &&& csr_ok(self.byte_offsets@, self.token_bytes@.len() as int)
        &&& self.byte_offsets@.len() == slots.len() + 1
        &&& self.present@.len() == slots.len()
        &&& forall|i: int|
            0 <= i < slots.len() ==> (#[trigger] self.present@[i]) == (slots[i] is Some)
        &&& forall|i: int|
            0 <= i < slots.len() ==> #[trigger] csr_item(self.token_bytes@, self.byte_offsets@, i)
                == slot_bytes(slots)[i]
    }
}

/// The first slot that is beyond what was admitted or beyond the reach of an offset, as a message.
pub open spec fn dense_fault(slots: Seq<Option<&[u8]>>, total_bytes: usize) -> Option<Seq<char>>
    decreases slots.len(),
{
    if slots.len() == 0 {
        None
    } else if dense_fault(slots.drop_last(), total_bytes) is Some {
        dense_fault(slots.drop_last(), total_bytes)
    } else if slot_bytes(slots).last().len() > 0 && slots_total(slots) > total_bytes {
        Some(changed_content())
    } else if slots_total(slots) > u32::MAX {
        Some("packed offset exceeds the addressable range"@)
    } else {
        None
    }
}

proof fn dense_fault_stays(slots: Seq<Option<&[u8]>>, total_bytes: usize, n: int)
    requires
        0 <= n <= slots.len(),
        dense_fault(slots.take(n), total_bytes) is Some,
    ensures
        dense_fault(slots, total_bytes) == dense_fault(slots.take(n), total_bytes),
    decreases slots.len() - n,
{
    if n < slots.len() {
        assert(slots.take(n + 1).drop_last() =~= slots.take(n));
        dense_fault_stays(slots, total_bytes, n + 1);
    } else {
        assert(slots.take(n) =~= slots);
    }
}

/// A dense decode that is copied as it was counted is packed without a fault, as long as offsets
/// reach that far.
pub proof fn unchanged_slots_are_packed(slots: Seq<Option<&[u8]>>, total_bytes: usize)
    requires
        slots_total(slots) <= total_bytes,
        slots_total(slots) <= u32::MAX,
    ensures
        dense_fault(slots, total_bytes) is None,
    decreases slots.len(),
{
    if slots.len() > 0 {
        unchanged_slots_are_packed(slots.drop_last(), total_bytes);
    }
}

/// What packing a dense decode within the admitted total returns: its fault if it has one; else
/// the buffers that hold the slots.
pub open spec fn dense_outcome(
    slots: Seq<Option<&[u8]>>,
    total_bytes: usize,
    r: Result<DenseBuffers, CoreError>,
) -> bool {
    match dense_fault(slots, total_bytes) {
        Some(words) => r is Err && is_unsupported(r->Err_0, words),
        None => r is Ok && r->Ok_0.holds(slots),
    }
}

/// Packs a dense decode into buffers, within the total that was counted, if that is
/// permitted.
pub fn admit_and_pack_dense_tokens(
    slots: &[Option<&[u8]>],
    total_bytes: usize,
    permit: BuildPermit,
) -> (r: Result<DenseBuffers, CoreError>)
    requires
        slots@.len() < usize::MAX,
    ensures
        if permit.admits() {
            dense_outcome(slots@, total_bytes, r) || (r is Err && slot_packing_allocation_failed(
                total_bytes as nat,
                slots@.len(),
                r->Err_0,
            ))
        } else {
            r is Err && permit.refuses_with("dense ingestion peak overflows"@, r->Err_0)
        },
{
    match admit_ingestion(permit, "dense ingestion peak overflows") {
        Ok(()) => {},
        Err(e) => {
            return Err(e);
        },
    }
    let token_bytes: Vec<u8> = match try_alloc(total_bytes, "token byte buffer") {
        Ok(v) => v,
        Err(_) => {
            return Err(alloc_err("token byte buffer"));
        },
    };
    let byte_offsets: Vec<u32> = match try_alloc(slots.len() + 1, "byte offsets") {
        Ok(v) => v,
        Err(_) => {
            return Err(alloc_err("byte offsets"));
        },
    };
    let present: Vec<bool> = match try_alloc(slots.len(), "present flags") {
        Ok(v) => v,
        Err(_) => {
            return Err(alloc_err("present flags"));
        },
    };
    pack_dense_into(slots, total_bytes, DenseBuffers { token_bytes, byte_offsets, present })
}

/// Packs a dense decode into empty buffers that the caller has reserved.
pub fn pack_dense_into(slots: &[Option<&[u8]>], total_bytes: usize, buffers: DenseBuffers) -> (r:
    Result<DenseBuffers, CoreError>)
    requires
        buffers.token_bytes@.len() == 0,
        buffers.byte_offsets@.len() == 0,
        buffers.present@.len() == 0,
    ensures
        dense_outcome(slots@, total_bytes, r),
{
    let mut token_bytes: Vec<u8> = buffers.token_bytes;
    let mut byte_offsets: Vec<u32> = buffers.byte_offsets;
    let mut present: Vec<bool> = buffers.present;
    byte_offsets.push(0);
    let ghost all = slots@;
    let mut i: usize = 0;
    while i < slots.len()
        invariant
            all == slots@,
            i <= slots@.len(),
            csr_ok(byte_offsets@, token_bytes@.len() as int),
            byte_offsets@.len() == i + 1,
            present@.len() == i,
            forall|k: int| 0 <= k < i ==> (#[trigger] present@[k]) == (all[k] is Some),
            forall|k: int|
                0 <= k < i ==> #[trigger] csr_item(token_bytes@, byte_offsets@, k) == slot_bytes(
                    all,
                )[k],
            token_bytes@.len() == slots_total(all.take(i as int)),
            token_bytes@.len() <= u32::MAX,
            dense_fault(all.take(i as int), total_bytes) is None,
        decreases slots@.len() - i,
    {
        let ghost tb = token_bytes@;
        let ghost bo = byte_offsets@;
        let ghost more = slot_bytes(all)[i as int];
        proof {
            slots_total_step(all, i as int);
            assert(all.take(i + 1).drop_last() =~= all.take(i as int));
            if dense_fault(all.take(i + 1), total_bytes) is Some {
                dense_fault_stays(all, total_bytes, i + 1);
            }
        }
        match slots[i] {
            Some(bytes) => {
                match append_bytes_component(bytes, &mut token_bytes, total_bytes) {
                    Ok(()) => {},
                    Err(e) => {
                        return Err(e);
                    },
                }
                present.push(true);
            },
            None => {
                present.push(false);
            },
        }
        assert(token_bytes@ =~= tb + more);
        match checked_u32(token_bytes.len()) {
            Ok(end) => byte_offsets.push(end),
            Err(e) => {
                return Err(e);
            },
        }
        proof {
            csr_grow(tb, bo, more);
            assert forall|k: int| 0 <= k < i + 1 implies #[trigger] csr_item(
                token_bytes@,
                byte_offsets@,
                k,
            ) == slot_bytes(all)[k] by {
                if k < i {
                    assert(csr_item(tb, bo, k) == slot_bytes(all)[k]);
                }
            }
        }
        i = i + 1;
    }
    assert(all.take(i as int) =~= all);
    Ok(DenseBuffers { token_bytes, byte_offsets, present })
}

} // verus!
