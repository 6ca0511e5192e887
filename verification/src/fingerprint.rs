//! The content fingerprint of a prepared vocabulary.

use vstd::prelude::*;

use crate::digest::{blake3_digest, blake3_hash};
use crate::error::CompileError;
use crate::little_endian::{le_bytes, le_bytes_len, le_limits, le_round_trip, push_le};
use crate::prepared::{PreparedVocabulary, built_from_map};
use crate::records::{assigns, assigns_push, bytes_total, ids_total};
use crate::vocabulary::Vocabulary;

verus! {

/// A list of ids as bytes.
pub open spec fn ids_bytes(ids: Seq<u32>) -> Seq<u8>
    decreases ids.len(),
{
    if ids.len() == 0 {
        seq![]
    } else {
        le_bytes(ids[0] as int, 4) + ids_bytes(ids.drop_first())
    }
}

/// A record as bytes: the length of its byte string, the byte string, the number of its ids, and
/// the ids.
pub open spec fn record_bytes(record: (Seq<u8>, Seq<u32>)) -> Seq<u8> {
    le_bytes(record.0.len() as int, 4) + record.0 + le_bytes(record.1.len() as int, 4) + ids_bytes(
        record.1,
    )
}

/// A record list as bytes.
pub open spec fn records_bytes(records: Seq<(Seq<u8>, Seq<u32>)>) -> Seq<u8>
    decreases records.len(),
{
    if records.len() == 0 {
        seq![]
    } else {
        record_bytes(records[0]) + records_bytes(records.drop_first())
    }
}

/// What a fingerprint is the digest of: the end-of-sequence id and the records.
pub open spec fn fingerprint_input(records: Seq<(Seq<u8>, Seq<u32>)>, eos_token_id: u32) -> Seq<
    u8,
> {
    le_bytes(eos_token_id as int, 4) + records_bytes(records)
}

/// The lengths in a record list fit the four bytes that they are written in.
pub open spec fn lengths_fit(records: Seq<(Seq<u8>, Seq<u32>)>) -> bool {
    forall|i: int|
        0 <= i < records.len() ==> (#[trigger] records[i]).0.len() <= u32::MAX
            && records[i].1.len() <= u32::MAX
}

proof fn ids_bytes_append(ids: Seq<u32>, id: u32)
    ensures
        ids_bytes(ids.push(id)) == ids_bytes(ids) + le_bytes(id as int, 4),
    decreases ids.len(),
{
    if ids.len() == 0 {
        assert(ids.push(id).drop_first() =~= ids);
        assert(ids_bytes(ids.push(id)) =~= ids_bytes(ids) + le_bytes(id as int, 4));
    } else {
        ids_bytes_append(ids.drop_first(), id);
        assert(ids.push(id).drop_first() =~= ids.drop_first().push(id));
        assert(ids_bytes(ids.push(id)) =~= ids_bytes(ids) + le_bytes(id as int, 4));
    }
}

proof fn records_bytes_append(
    records: Seq<(Seq<u8>, Seq<u32>)>,
    record: (Seq<u8>, Seq<u32>),
)
    ensures
        records_bytes(records.push(record)) == records_bytes(records) + record_bytes(record),
    decreases records.len(),
{
    if records.len() == 0 {
        assert(records.push(record).drop_first() =~= records);
        assert(records_bytes(records.push(record)) =~= records_bytes(records) + record_bytes(
            record,
        ));
    } else {
        records_bytes_append(records.drop_first(), record);
        assert(records.push(record).drop_first() =~= records.drop_first().push(record));
        assert(records_bytes(records.push(record)) =~= records_bytes(records) + record_bytes(
            record,
        ));
    }
}

/// Two byte strings that start with the same number of bytes split there alike.
proof fn split_equal(a: Seq<u8>, b: Seq<u8>, x: Seq<u8>, y: Seq<u8>)
    requires
        a + x == b + y,
        a.len() == b.len(),
    ensures
        a == b,
        x == y,
{
    assert(a =~= (a + x).take(a.len() as int));
    assert(b =~= (b + y).take(b.len() as int));
    assert(x =~= (a + x).skip(a.len() as int));
    assert(y =~= (b + y).skip(b.len() as int));
}

/// A number of four bytes is read back from in front of anything.
proof fn le_prefix_equal(m: int, n: int, x: Seq<u8>, y: Seq<u8>)
    requires
        0 <= m <= u32::MAX,
        0 <= n <= u32::MAX,
        le_bytes(m, 4) + x == le_bytes(n, 4) + y,
    ensures
        m == n,
        x == y,
{
    le_limits();
    le_round_trip(m, 4);
    le_round_trip(n, 4);
    split_equal(le_bytes(m, 4), le_bytes(n, 4), x, y);
}

proof fn ids_bytes_len(ids: Seq<u32>)
    ensures
        ids_bytes(ids).len() == 4 * ids.len(),
    decreases ids.len(),
{
    if ids.len() > 0 {
        ids_bytes_len(ids.drop_first());
        le_bytes_len(ids[0] as int, 4);
    }
}

proof fn ids_bytes_injective(a: Seq<u32>, b: Seq<u32>)
    requires
        a.len() == b.len(),
        ids_bytes(a) == ids_bytes(b),
    ensures
        a == b,
    decreases a.len(),
{
    if a.len() > 0 {
        le_prefix_equal(
            a[0] as int,
            b[0] as int,
            ids_bytes(a.drop_first()),
            ids_bytes(b.drop_first()),
        );
        ids_bytes_injective(a.drop_first(), b.drop_first());
        assert(a =~= seq![a[0]] + a.drop_first());
        assert(b =~= seq![b[0]] + b.drop_first());
    } else {
        assert(a =~= b);
    }
}

proof fn record_prefix_equal(
    a: (Seq<u8>, Seq<u32>),
    b: (Seq<u8>, Seq<u32>),
    x: Seq<u8>,
    y: Seq<u8>,
)
    requires
        a.0.len() <= u32::MAX,
        a.1.len() <= u32::MAX,
        b.0.len() <= u32::MAX,
        b.1.len() <= u32::MAX,
        record_bytes(a) + x == record_bytes(b) + y,
    ensures
        a == b,
        x == y,
{
    let a_ids = ids_bytes(a.1) + x;
    let b_ids = ids_bytes(b.1) + y;
    let a_tail = le_bytes(a.1.len() as int, 4) + a_ids;
    let b_tail = le_bytes(b.1.len() as int, 4) + b_ids;
    assert(record_bytes(a) + x =~= le_bytes(a.0.len() as int, 4) + (a.0 + a_tail));
    assert(record_bytes(b) + y =~= le_bytes(b.0.len() as int, 4) + (b.0 + b_tail));
    le_prefix_equal(a.0.len() as int, b.0.len() as int, a.0 + a_tail, b.0 + b_tail);
    split_equal(a.0, b.0, a_tail, b_tail);
    le_prefix_equal(a.1.len() as int, b.1.len() as int, a_ids, b_ids);
    ids_bytes_len(a.1);
    ids_bytes_len(b.1);
    split_equal(ids_bytes(a.1), ids_bytes(b.1), x, y);
    ids_bytes_injective(a.1, b.1);
}

proof fn records_bytes_injective(
    a: Seq<(Seq<u8>, Seq<u32>)>,
    b: Seq<(Seq<u8>, Seq<u32>)>,
)
    requires
        lengths_fit(a),
        lengths_fit(b),
        records_bytes(a) == records_bytes(b),
    ensures
        a == b,
    decreases a.len(),
{
    if a.len() == 0 {
        if b.len() > 0 {
            le_bytes_len(b[0].0.len() as int, 4);
        }
        assert(a =~= b);
    } else if b.len() == 0 {
        le_bytes_len(a[0].0.len() as int, 4);
    } else {
        assert(a[0].0.len() <= u32::MAX && b[0].0.len() <= u32::MAX);
        record_prefix_equal(
            a[0],
            b[0],
            records_bytes(a.drop_first()),
            records_bytes(b.drop_first()),
        );
        assert forall|i: int| 0 <= i < a.drop_first().len() implies (
        #[trigger] a.drop_first()[i]).0.len() <= u32::MAX && a.drop_first()[i].1.len()
            <= u32::MAX by {
            assert(a[i + 1].0.len() <= u32::MAX);
        }
        assert forall|i: int| 0 <= i < b.drop_first().len() implies (
        #[trigger] b.drop_first()[i]).0.len() <= u32::MAX && b.drop_first()[i].1.len()
            <= u32::MAX by {
            assert(b[i + 1].0.len() <= u32::MAX);
        }
        records_bytes_injective(a.drop_first(), b.drop_first());
        assert(a =~= seq![a[0]] + a.drop_first());
        assert(b =~= seq![b[0]] + b.drop_first());
    }
}

/// What is digested tells vocabularies apart: it is the same for two vocabularies only where their
/// records and their end-of-sequence ids are.
pub proof fn fingerprint_input_is_injective(
    a: Seq<(Seq<u8>, Seq<u32>)>,
    a_eos: u32,
    b: Seq<(Seq<u8>, Seq<u32>)>,
    b_eos: u32,
)
    requires
        lengths_fit(a),
        lengths_fit(b),
        fingerprint_input(a, a_eos) == fingerprint_input(b, b_eos),
    ensures
        a == b,
        a_eos == b_eos,
{
    le_prefix_equal(a_eos as int, b_eos as int, records_bytes(a), records_bytes(b));
    records_bytes_injective(a, b);
}

/// The lengths of records are bounded by what they add up to.
proof fn totals_bound_lengths(records: Seq<(Seq<u8>, Seq<u32>)>, i: int)
    requires
        0 <= i < records.len(),
    ensures
        records[i].0.len() <= bytes_total(records),
        records[i].1.len() <= ids_total(records),
    decreases records.len(),
{
    if i < records.len() - 1 {
        totals_bound_lengths(records.drop_last(), i);
    }
}

/// The largest id that a record list assigns, if it assigns any.
pub open spec fn is_ordinary_max(records: Seq<(Seq<u8>, Seq<u32>)>, max: Option<u32>) -> bool {
    match max {
        Some(m) => {
            &&& exists|key: Seq<u8>| assigns(records, key, m)
            &&& forall|key: Seq<u8>, id: u32| #[trigger] assigns(records, key, id) ==> id <= m
        },
        None => forall|key: Seq<u8>, id: u32| !#[trigger] assigns(records, key, id),
    }
}

/// A content digest of a vocabulary: equal content, equal fingerprint.
#[derive(Clone, Copy, Debug, PartialEq, Eq)]
pub struct VocabFingerprint {
    bytes: [u8; 32],
}

impl VocabFingerprint {
    pub closed spec fn view(&self) -> [u8; 32] {
        self.bytes
    }

    /// The digest itself.
    pub fn as_bytes(&self) -> (bytes: &[u8; 32])
        ensures
            *bytes == self.view(),
    {
        &self.bytes
    }

    /// The fingerprint of a vocabulary.
    pub fn of(vocab: &Vocabulary) -> (r: Result<VocabFingerprint, CompileError>)
        ensures
            exists|b: Result<PreparedVocabulary, CompileError>|
                {
                    &&& #[trigger] built_from_map(vocab.contents(), b)
                    &&& match b {
                        Ok(p) => r is Ok && r->Ok_0.view() == blake3_hash(
                            fingerprint_input(p@, vocab.eos()),
                        ),
                        Err(e) => r is Err && r->Err_0@ == e@,
                    }
                },
    {
        let built: Result<PreparedVocabulary, CompileError> = PreparedVocabulary::build(vocab);
        let ghost b = built;
        assert(built_from_map(vocab.contents(), b));
        match built {
            Ok(prepared) => {
                let (fingerprint, _) = Self::of_prepared_with_ordinary_max(
                    &prepared,
                    vocab.eos_token_id(),
                );
                Ok(fingerprint)
            },
            Err(e) => Err(e),
        }
    }

    /// The fingerprint of a prepared vocabulary, and its largest ordinary id, in one pass.
    pub fn of_prepared_with_ordinary_max(prepared: &PreparedVocabulary, eos_token_id: u32) -> (r: (
        VocabFingerprint,
        Option<u32>,
    ))
        ensures
            r.0.view() == blake3_hash(fingerprint_input(prepared@, eos_token_id)),
            is_ordinary_max(prepared@, r.1),
            lengths_fit(prepared@),
    {
        let ghost all = prepared@;
        let total_bytes: usize = prepared.total_bytes();
        let total_ids: usize = prepared.total_ids();
        proof {
            assert forall|i: int| 0 <= i < all.len() implies (#[trigger] all[i]).0.len()
                <= u32::MAX && all[i].1.len() <= u32::MAX by {
                totals_bound_lengths(all, i);
            }
        }
        let mut out: Vec<u8> = Vec::new();
        push_le(&mut out, eos_token_id as u64, 4);
        let mut max: Option<u32> = None;
        let mut i: usize = 0;
        proof {
            assert(out@ =~= fingerprint_input(all.take(0), eos_token_id));
        }
        while i < prepared.len()
            invariant
                all == prepared@,
                lengths_fit(all),
                i <= all.len(),
                out@ == fingerprint_input(all.take(i as int), eos_token_id),
                is_ordinary_max(all.take(i as int), max),
            decreases all.len() - i,
        {
            let key: &[u8] = prepared.record_bytes(i);
            let ids: &[u32] = prepared.record_ids(i);
            let ghost before = out@;
            assert(all[i as int].0.len() <= u32::MAX);
            push_le(&mut out, key.len() as u64, 4);
            let ghost with_len = out@;
            out.extend_from_slice(key);
            assert(out@ =~= with_len + key@);
            push_le(&mut out, ids.len() as u64, 4);
            push_ids(&mut out, ids);
            max = larger_of(max, ids);
            proof {
                let front = all.take(i as int);
                let record = all[i as int];
                assert(all.take(i + 1) =~= front.push(record));
                records_bytes_append(front, record);
                assert(out@ =~= before + record_bytes(record));
                assert(out@ =~= fingerprint_input(all.take(i + 1), eos_token_id));
                assert forall|k: Seq<u8>, id: u32| #[trigger]
                    assigns(front.push(record), k, id) == (assigns(front, k, id) || (record.0 == k
                        && record.1.contains(id))) by {
                    assigns_push(front, record, k, id);
                }
                if let Some(m) = max {
                    if record.1.contains(m) {
                        assert(assigns(front.push(record), record.0, m));
                    } else {
                        let k = choose|k: Seq<u8>| assigns(front, k, m);
                        assert(assigns(front.push(record), k, m));
                    }
                }
            }
            i = i + 1;
        }
        assert(all.take(i as int) =~= all);
        let digest: [u8; 32] = blake3_digest(out.as_slice());
        (VocabFingerprint { bytes: digest }, max)
    }
}

/// Appends ids as bytes.
fn push_ids(out: &mut Vec<u8>, ids: &[u32])
    ensures
        final(out)@ == old(out)@ + ids_bytes(ids@),
{
    let ghost start = out@;
    let mut i: usize = 0;
    assert(out@ =~= start + ids_bytes(ids@.take(0)));
    while i < ids.len()
        invariant
            i <= ids@.len(),
            out@ == start + ids_bytes(ids@.take(i as int)),
        decreases ids@.len() - i,
    {
        let ghost before = out@;
        push_le(out, ids[i] as u64, 4);
        proof {
            assert(ids@.take(i + 1) =~= ids@.take(i as int).push(ids@[i as int]));
            ids_bytes_append(ids@.take(i as int), ids@[i as int]);
            assert(out@ =~= start + ids_bytes(ids@.take(i + 1)));
        }
        i = i + 1;
    }
    assert(ids@.take(i as int) =~= ids@);
}

/// The largest of `max` and `ids`.
fn larger_of(max: Option<u32>, ids: &[u32]) -> (r: Option<u32>)
    ensures
        match r {
            Some(m) => {
                &&& max == Some(m) || ids@.contains(m)
                &&& max is Some ==> max->Some_0 <= m
                &&& forall|id: u32| #[trigger] ids@.contains(id) ==> id <= m
            },
            None => max is None && ids@.len() == 0,
        },
{
    let mut best: Option<u32> = max;
    let mut i: usize = 0;
    while i < ids.len()
        invariant
            i <= ids@.len(),
            match best {
                Some(m) => {
                    &&& max == Some(m) || ids@.contains(m)
                    &&& max is Some ==> max->Some_0 <= m
                    &&& forall|k: int| 0 <= k < i ==> ids@[k] <= m
                },
                None => max is None && i == 0,
            },
        decreases ids@.len() - i,
    {
        let id: u32 = ids[i];
        assert(ids@.contains(ids@[i as int]));
        best = match best {
            Some(m) => if m < id {
                Some(id)
            } else {
                Some(m)
            },
            None => Some(id),
        };
        i = i + 1;
    }
    best
}

} // verus!
