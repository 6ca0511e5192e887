//! Records of byte strings and ids, laid side by side in two buffers.

use vstd::prelude::*;

use crate::admission::{overflow, overflow_error};
use crate::error::CompileError;
use crate::records::{bytes_total, ids_total, totals_push};

verus! {

/// One token's ranges into the byte blob and the id array of a prepared vocabulary.
#[derive(Copy, Clone, Debug, PartialEq, Eq, Structural)]
pub struct TokenRecord {
    pub byte_start: u32,
    pub byte_end: u32,
    pub id_start: u32,
    pub id_end: u32,
}

/// The record `i` read out of the buffers.
pub open spec fn record_at(blob: Seq<u8>, records: Seq<TokenRecord>, ids: Seq<u32>, i: int) -> (
    Seq<u8>,
    Seq<u32>,
) {
    (
        blob.subrange(records[i].byte_start as int, records[i].byte_end as int),
        ids.subrange(records[i].id_start as int, records[i].id_end as int),
    )
}

/// The records read out of the buffers.
pub open spec fn layout_view(blob: Seq<u8>, records: Seq<TokenRecord>, ids: Seq<u32>) -> Seq<
    (Seq<u8>, Seq<u32>),
> {
    Seq::new(records.len(), |i: int| record_at(blob, records, ids, i))
}

/// Where the bytes and ids of the first `n` records end.
pub open spec fn layout_end(records: Seq<TokenRecord>, n: int) -> (int, int) {
    if n == 0 {
        (0, 0)
    } else {
        (records[n - 1].byte_end as int, records[n - 1].id_end as int)
    }
}

/// The records lie side by side and fill both buffers.
pub open spec fn layout_ok(blob: Seq<u8>, records: Seq<TokenRecord>, ids: Seq<u32>) -> bool {
    &&& forall|i: int|
        0 <= i < records.len() ==> {
            &&& (#[trigger] records[i]).byte_start == layout_end(records, i).0
            &&& records[i].id_start == layout_end(records, i).1
            &&& records[i].byte_start <= records[i].byte_end <= blob.len()
            &&& records[i].id_start <= records[i].id_end <= ids.len()
        }
    &&& layout_end(records, records.len() as int) == (blob.len() as int, ids.len() as int)
}

/// What is left of the buffers after a record that did or did not fit.
pub open spec fn push_outcome(
    blob: Seq<u8>,
    bytes: Seq<u8>,
    ids: Seq<u32>,
    ids_slice: Seq<u32>,
) -> Option<Seq<char>> {
    if blob.len() + bytes.len() > u32::MAX {
        Some("prepared vocabulary blob exceeds the addressable range"@)
    } else if ids.len() + ids_slice.len() > u32::MAX {
        Some("prepared vocabulary id array exceeds the addressable range"@)
    } else {
        None
    }
}

/// Appends one byte-and-id record to canonical storage.
pub fn push_record(
    blob: &mut Vec<u8>,
    bytes: &[u8],
    ids: &mut Vec<u32>,
    ids_slice: &[u32],
    records: &mut Vec<TokenRecord>,
) -> (r: Result<(), CompileError>)
    ensures
        final(blob)@ == if old(blob)@.len() > u32::MAX {
            old(blob)@
        } else {
            old(blob)@ + bytes@
        },
        final(ids)@ == if old(blob)@.len() + bytes@.len() > u32::MAX || old(ids)@.len()
            > u32::MAX {
            old(ids)@
        } else {
            old(ids)@ + ids_slice@
        },
        match push_outcome(old(blob)@, bytes@, old(ids)@, ids_slice@) {
            Some(message) => r is Err && r->Err_0@ == overflow_error(message) && final(records)@
                == old(records)@,
            None => r is Ok && final(records)@ == old(records)@.push(
                TokenRecord {
                    byte_start: old(blob)@.len() as u32,
                    byte_end: (old(blob)@.len() + bytes@.len()) as u32,
                    id_start: old(ids)@.len() as u32,
                    id_end: (old(ids)@.len() + ids_slice@.len()) as u32,
                },
            ),
        },
{
    if blob.len() > u32::MAX as usize {
        return Err(overflow("prepared vocabulary blob exceeds the addressable range"));
    }
    let byte_start: u32 = blob.len() as u32;
    blob.extend_from_slice(bytes);
    assert(blob@ =~= old(blob)@ + bytes@);
    if blob.len() > u32::MAX as usize {
        return Err(overflow("prepared vocabulary blob exceeds the addressable range"));
    }
    let byte_end: u32 = blob.len() as u32;
    if ids.len() > u32::MAX as usize {
        return Err(overflow("prepared vocabulary id array exceeds the addressable range"));
    }
    let id_start: u32 = ids.len() as u32;
    ids.extend_from_slice(ids_slice);
    assert(ids@ =~= old(ids)@ + ids_slice@);
    if ids.len() > u32::MAX as usize {
        return Err(overflow("prepared vocabulary id array exceeds the addressable range"));
    }
    let id_end: u32 = ids.len() as u32;
    records.push(TokenRecord { byte_start, byte_end, id_start, id_end });
    Ok(())
}

/// A record that fits keeps the records side by side, and is the new last one.
pub proof fn layout_push(
    blob: Seq<u8>,
    records: Seq<TokenRecord>,
    ids: Seq<u32>,
    bytes: Seq<u8>,
    more: Seq<u32>,
)
    requires
        layout_ok(blob, records, ids),
        blob.len() + bytes.len() <= u32::MAX,
        ids.len() + more.len() <= u32::MAX,
    ensures
        ({
            let grown = records.push(
                TokenRecord {
                    byte_start: blob.len() as u32,
                    byte_end: (blob.len() + bytes.len()) as u32,
                    id_start: ids.len() as u32,
                    id_end: (ids.len() + more.len()) as u32,
                },
            );
            &&& layout_ok(blob + bytes, grown, ids + more)
            &&& layout_view(blob + bytes, grown, ids + more) == layout_view(
                blob,
                records,
                ids,
            ).push((bytes, more))
        }),
{
    let grown = records.push(
        TokenRecord {
            byte_start: blob.len() as u32,
            byte_end: (blob.len() + bytes.len()) as u32,
            id_start: ids.len() as u32,
            id_end: (ids.len() + more.len()) as u32,
        },
    );
    let b = blob + bytes;
    let d = ids + more;
    assert forall|i: int| 0 <= i < grown.len() implies {
        &&& (#[trigger] grown[i]).byte_start == layout_end(grown, i).0
        &&& grown[i].id_start == layout_end(grown, i).1
        &&& grown[i].byte_start <= grown[i].byte_end <= b.len()
        &&& grown[i].id_start <= grown[i].id_end <= d.len()
    } by {
        if i < records.len() {
            assert(records[i] == grown[i]);
            assert(layout_end(grown, i) == layout_end(records, i));
        } else {
            assert(layout_end(grown, i) == layout_end(records, i));
        }
    }
    let got = layout_view(b, grown, d);
    let want = layout_view(blob, records, ids).push((bytes, more));
    assert(got.len() == want.len());
    assert forall|i: int| 0 <= i < got.len() implies got[i] == want[i] by {
        if i < records.len() {
            assert(records[i] == grown[i]);
            let r = records[i];
            assert(b.subrange(r.byte_start as int, r.byte_end as int) =~= blob.subrange(
                r.byte_start as int,
                r.byte_end as int,
            ));
            assert(d.subrange(r.id_start as int, r.id_end as int) =~= ids.subrange(
                r.id_start as int,
                r.id_end as int,
            ));
        } else {
            assert(b.subrange(blob.len() as int, b.len() as int) =~= bytes);
            assert(d.subrange(ids.len() as int, d.len() as int) =~= more);
        }
    }
    assert(got =~= want);
}

/// Records that lie side by side and fill both buffers account for every byte and id.
pub proof fn layout_totals(blob: Seq<u8>, records: Seq<TokenRecord>, ids: Seq<u32>, n: int)
    requires
        layout_ok(blob, records, ids),
        0 <= n <= records.len(),
    ensures
        bytes_total(layout_view(blob, records, ids).take(n)) == layout_end(records, n).0,
        ids_total(layout_view(blob, records, ids).take(n)) == layout_end(records, n).1,
    decreases n,
{
    let v = layout_view(blob, records, ids);
    if n > 0 {
        layout_totals(blob, records, ids, n - 1);
        assert(v.take(n) =~= v.take(n - 1).push(v[n - 1]));
        totals_push(v.take(n - 1), v[n - 1]);
        assert(records[n - 1].byte_start == layout_end(records, n - 1).0);
    }
}

} // verus!
