//! The vocabulary's one canonical representation: byte-sorted records, a reverse
//! index from ids to records, the end-of-sequence id, the mask width and the
//! content fingerprint.

use rustc_hash::FxHashMap;
use vstd::prelude::*;

use crate::admission::{
    CONSERVATIVE_SPARSE_SLOT_BYTES, MAX_MASK_TOKENS, MAX_PACKED_PROJECTED_PEAK_BYTES, at_most,
    csr_item, csr_monotone, overflow_error, saturating_product, try_alloc,
};
use crate::byte_order::lex_lt;
use crate::digest::blake3_hash;
use crate::error::{CompileError, ErrorCode, ErrorView, Stage, plain_error};
use crate::fingerprint::{VocabFingerprint, fingerprint_input, is_ordinary_max};
use crate::hash_tables::{id_map_get, id_map_insert, id_map_new, id_map_try_reserve};
use crate::prepared::{
    PreparedVocabulary, built_from_dense, built_from_map, built_from_packed, dense_assigns,
    packed_entries,
};
use crate::records::{
    ascending, assigns, assigns_at, canonical_form_is_unique, canonical_record_ids, distinct_below,
    ids_total, is_canonical, same_assignments,
};
use crate::token_map::{listing_totals, lists, map_assigns, map_ids_total};
use crate::vocabulary::{Vocabulary, valid_contents, valid_entry};

verus! {

/// The mark of an id that no record holds.
pub const ABSENT: u32 = u32::MAX;

/// Token id to record index. Dense when ids are roughly contiguous (real tokenizers), sparse
/// otherwise - a dense array over a huge id range would waste more than it saves.
#[derive(Debug)]
pub enum IdIndex {
    Dense(Vec<u32>),
    Sparse(FxHashMap<u32, u32>),
}

/// Two records hold the id.
pub open spec fn doubly_held(records: Seq<(Seq<u8>, Seq<u32>)>, i: int, j: int, id: u32) -> bool {
    0 <= i < j < records.len() && records[i].1.contains(id) && records[j].1.contains(id)
}

/// One token id maps to two different byte sequences.
pub open spec fn ambiguous(records: Seq<(Seq<u8>, Seq<u32>)>) -> bool {
    exists|i: int, j: int, id: u32| doubly_held(records, i, j, id)
}

pub open spec fn ambiguous_id_error() -> ErrorView {
    plain_error(
        ErrorCode::MalformedTokenizer,
        Stage::ArtifactValidate,
        "one token id maps to two different byte sequences"@,
    )
}

pub open spec fn logits_vocab_size_error() -> ErrorView {
    plain_error(
        ErrorCode::InternalLimitExceeded,
        Stage::L4Bind,
        "explicit logits vocab size is smaller than the largest token/EOS id"@,
    )
}

/// The error of an index that the allocator refused memory for.
pub open spec fn index_allocation_failed(e: ErrorView) -> bool {
    ||| e == overflow_error("id-index dense table"@)
    ||| e == overflow_error("id-index sparse map allocation failed"@)
}

pub fn overflow(msg: &'static str) -> (e: CompileError)
    ensures
        e@ == overflow_error(msg@),
{
    CompileError::new(ErrorCode::InternalLimitExceeded, Stage::L4Bind, msg)
}

pub fn ambiguous_id() -> (e: CompileError)
    ensures
        e@ == ambiguous_id_error(),
{
    CompileError::new(
        ErrorCode::MalformedTokenizer,
        Stage::ArtifactValidate,
        "one token id maps to two different byte sequences",
    )
}

pub fn logits_vocab_size_too_small() -> (e: CompileError)
    ensures
        e@ == logits_vocab_size_error(),
{
    CompileError::new(
        ErrorCode::InternalLimitExceeded,
        Stage::L4Bind,
        "explicit logits vocab size is smaller than the largest token/EOS id",
    )
}

/// The index holds the record of every id of the first `n` records, and nothing else.
pub open spec fn indexes(index: IdIndex, records: Seq<(Seq<u8>, Seq<u32>)>, n: int) -> bool {
    &&& forall|id: u32|
        (#[trigger] index.held(id)) is Some ==> index.held(id)->Some_0 < n
            && records[index.held(id)->Some_0 as int].1.contains(id)
    &&& forall|i: int, id: u32|
        0 <= i < n && #[trigger] records[i].1.contains(id) ==> index.held(id) == Some(i as u32)
}

/// A table over all ids up to `max_id` takes no more room than a sparse one of `total_ids` slots is
/// charged for.
pub open spec fn dense_pays(max_id: u32, total_ids: int) -> bool {
    &&& at_most((max_id + 1) * 4, usize::MAX as int) <= at_most(
        total_ids * CONSERVATIVE_SPARSE_SLOT_BYTES,
        usize::MAX as int,
    )
    &&& max_id < usize::MAX
}

impl IdIndex {
    /// The record that the index holds for an id.
    pub open spec fn held(self, id: u32) -> Option<u32> {
        match self {
            IdIndex::Dense(table) => if id < table@.len() && table@[id as int] != ABSENT {
                Some(table@[id as int])
            } else {
                None
            },
            IdIndex::Sparse(table) => if table@.contains_key(id) {
                Some(table@[id])
            } else {
                None
            },
        }
    }

    /// The index has room for an id.
    pub open spec fn admits(self, id: u32) -> bool {
        match self {
            IdIndex::Dense(table) => id < table@.len(),
            IdIndex::Sparse(_) => true,
        }
    }

    fn get(&self, id: u32) -> (record: Option<u32>)
        ensures
            record == self.held(id),
    {
        match self {
            IdIndex::Dense(table) => if (id as usize) < table.len() && table[id as usize]
                != ABSENT {
                Some(table[id as usize])
            } else {
                None
            },
            IdIndex::Sparse(table) => id_map_get(table, id),
        }
    }

    fn set(self, id: u32, record: u32) -> (index: IdIndex)
        requires
            self.admits(id),
            record != ABSENT,
        ensures
            index.held(id) == Some(record),
            forall|other: u32| other != id ==> #[trigger] index.held(other) == self.held(other),
            forall|other: u32| #[trigger] index.admits(other) == self.admits(other),
            index is Dense <==> self is Dense,
    {
        match self {
            IdIndex::Dense(mut table) => {
                table.set(id as usize, record);
                IdIndex::Dense(table)
            },
            IdIndex::Sparse(mut table) => {
                id_map_insert(&mut table, id, record);
                IdIndex::Sparse(table)
            },
        }
    }

    /// An index with room for every id up to `max_id`, holding none.
    fn empty_for(max_id: u32, total_ids: usize) -> (r: Result<IdIndex, CompileError>)
        ensures
            match r {
                Ok(index) => {
                    &&& forall|id: u32| (#[trigger] index.held(id)) is None
                    &&& forall|id: u32| id <= max_id ==> #[trigger] index.admits(id)
                    &&& index is Dense <==> dense_pays(max_id, total_ids as int)
                },
                Err(e) => index_allocation_failed(e@),
            },
    {
        let dense_bytes: usize = saturating_product((max_id as usize).saturating_add(1), 4);
        let sparse_bytes: usize = saturating_product(total_ids, CONSERVATIVE_SPARSE_SLOT_BYTES);
        if dense_bytes <= sparse_bytes && (max_id as usize) < usize::MAX {
            let slots: usize = max_id as usize + 1;
            let mut table: Vec<u32> = match try_alloc(slots, "id-index dense table") {
                Ok(v) => v,
                Err(e) => {
                    return Err(e);
                },
            };
            while table.len() < slots
                invariant
                    table@.len() <= slots,
                    forall|k: int| 0 <= k < table@.len() ==> table@[k] == ABSENT,
                decreases slots - table@.len(),
            {
                table.push(ABSENT);
            }
            Ok(IdIndex::Dense(table))
        } else {
            let mut table: FxHashMap<u32, u32> = id_map_new();
            match id_map_try_reserve(&mut table, total_ids) {
                Ok(()) => Ok(IdIndex::Sparse(table)),
                Err(_) => Err(overflow("id-index sparse map allocation failed")),
            }
        }
    }

    /// `ordinary_max` excludes EOS - EOS is never looked up through this index, so it must not
    /// size a dense table it will never occupy a slot in.
    pub fn build(prepared: &PreparedVocabulary, ordinary_max: Option<u32>) -> (r: Result<
        IdIndex,
        CompileError,
    >)
        requires
            is_canonical(prepared@),
            is_ordinary_max(prepared@, ordinary_max),
        ensures
            match r {
                Ok(index) => {
                    &&& !ambiguous(prepared@)
                    &&& indexes(index, prepared@, prepared@.len() as int)
                    &&& index is Dense <==> match ordinary_max {
                        Some(max_id) => dense_pays(max_id, ids_total(prepared@) as int),
                        None => true,
                    }
                },
                Err(e) => (ambiguous(prepared@) && e@ == ambiguous_id_error()) || (prepared@.len()
                    > 0 && index_allocation_failed(e@)),
            },
    {
        let ghost all = prepared@;
        let max_id: u32 = match ordinary_max {
            Some(max) => max,
            None => {
                proof {
                    no_ids_no_records(all);
                }
                return Ok(IdIndex::Dense(Vec::new()));
            },
        };
        let total_ids: usize = prepared.total_ids();
        proof {
            records_within_ids(all);
        }
        match IdIndex::empty_for(max_id, total_ids) {
            Ok(index) => index.fill(prepared, max_id),
            Err(e) => Err(e),
        }
    }

    /// Enters every id of canonical records, up to `max_id`, into an index that holds none.
    #[verifier::rlimit(40)]
    pub fn fill(self, prepared: &PreparedVocabulary, max_id: u32) -> (r: Result<
        IdIndex,
        CompileError,
    >)
        requires
            is_canonical(prepared@),
            is_ordinary_max(prepared@, Some(max_id)),
            forall|id: u32| (#[trigger] self.held(id)) is None,
            forall|id: u32| id <= max_id ==> #[trigger] self.admits(id),
        ensures
            if ambiguous(prepared@) {
                r is Err && r->Err_0@ == ambiguous_id_error()
            } else {
                &&& r is Ok
                &&& indexes(r->Ok_0, prepared@, prepared@.len() as int)
                &&& r->Ok_0 is Dense <==> self is Dense
            },
    {
        let ghost all = prepared@;
        let total_ids: usize = prepared.total_ids();
        proof {
            records_within_ids(all);
        }
        let mut index: IdIndex = self;
        let count: usize = prepared.len();
        let mut i: usize = 0;
        while i < count
            invariant
                all == prepared@,
                count == all.len(),
                count <= u32::MAX,
                is_canonical(all),
                is_ordinary_max(all, Some(max_id)),
                i <= count,
                forall|id: u32| id <= max_id ==> #[trigger] index.admits(id),
                index is Dense <==> self is Dense,
                indexes(index, all, i as int),
            decreases count - i,
        {
            let ids: &[u32] = prepared.record_ids(i);
            let mut k: usize = 0;
            while k < ids.len()
                invariant
                    all == prepared@,
                    i < count,
                    count == all.len(),
                    count <= u32::MAX,
                    ids@ == all[i as int].1,
                    is_ordinary_max(all, Some(max_id)),
                    k <= ids@.len(),
                    forall|id: u32| id <= max_id ==> #[trigger] index.admits(id),
                    index is Dense <==> self is Dense,
                    partly_indexed(index, all, i as int, k as int),
                decreases ids@.len() - k,
            {
                let id: u32 = ids[k];
                proof {
                    assert(all[i as int].1.contains(ids@[k as int]));
                    assert(assigns_at(all, i as int, all[i as int].0, id));
                    assert(assigns(all, all[i as int].0, id));
                }
                let known: Option<u32> = index.get(id);
                if let Some(existing) = known {
                    if existing != i as u32 {
                        assert(doubly_held(all, existing as int, i as int, id));
                        return Err(ambiguous_id());
                    }
                }
                let ghost before = index;
                index = index.set(id, i as u32);
                proof {
                    assert(partly_indexed(index, all, i as int, k + 1)) by {
                        assert forall|j: int, x: u32|
                            0 <= j < i && #[trigger] all[j].1.contains(x) implies index.held(x)
                            == Some(j as u32) by {
                            assert(before.held(x) == Some(j as u32));
                            if x == id {
                                assert(before.held(id) == Some(j as u32));
                            }
                        }
                    }
                }
                k = k + 1;
            }
            proof {
                assert(indexes(index, all, i + 1)) by {
                    assert forall|j: int, x: u32|
                        0 <= j < i + 1 && #[trigger] all[j].1.contains(x) implies index.held(x)
                        == Some(j as u32) by {
                        if j == i {
                            let q = all[j].1.index_of(x);
                            assert(ids@[q] == x);
                        }
                    }
                }
            }
            i = i + 1;
        }
        proof {
            if ambiguous(all) {
                let (a, b, id) = choose|a: int, b: int, id: u32| doubly_held(all, a, b, id);
                assert(index.held(id) == Some(a as u32));
                assert(index.held(id) == Some(b as u32));
            }
        }
        Ok(index)
    }

    /// The record that holds `id`.
    pub fn record_of(&self, id: u32) -> (record: Option<usize>)
        ensures
            match self.held(id) {
                Some(i) => record == Some(i as usize),
                None => record is None,
            },
    {
        match self.get(id) {
            Some(i) => Some(i as usize),
            None => None,
        }
    }
}

/// The index holds the records of every id of the first `i` records and of the first `k` ids of
/// the next, and nothing else.
spec fn partly_indexed(
    index: IdIndex,
    records: Seq<(Seq<u8>, Seq<u32>)>,
    i: int,
    k: int,
) -> bool {
    &&& forall|id: u32|
        (#[trigger] index.held(id)) is Some ==> index.held(id)->Some_0 <= i
            && records[index.held(id)->Some_0 as int].1.contains(id)
    &&& forall|id: u32|
        (#[trigger] index.held(id)) == Some(i as u32) ==> exists|q: int|
            0 <= q < k && records[i].1[q] == id
    &&& forall|j: int, id: u32|
        0 <= j < i && #[trigger] records[j].1.contains(id) ==> index.held(id) == Some(j as u32)
    &&& forall|q: int| 0 <= q < k ==> index.held(#[trigger] records[i].1[q]) == Some(i as u32)
}

proof fn no_ids_no_records(records: Seq<(Seq<u8>, Seq<u32>)>)
    requires
        is_canonical(records),
        is_ordinary_max(records, None),
    ensures
        records.len() == 0,
{
    if records.len() > 0 {
        let id = records[0].1[0];
        assert(records[0].1.contains(id));
        assert(assigns_at(records, 0, records[0].0, id));
        assert(assigns(records, records[0].0, id));
    }
}

/// There are no more canonical records than ids in them.
proof fn records_within_ids(records: Seq<(Seq<u8>, Seq<u32>)>)
    requires
        is_canonical(records),
    ensures
        records.len() <= ids_total(records),
    decreases records.len(),
{
    if records.len() > 0 {
        let rest = records.drop_last();
        assert forall|i: int, j: int| 0 <= i < j < rest.len() implies lex_lt(
            #[trigger] rest[i].0,
            #[trigger] rest[j].0,
        ) by {
            assert(lex_lt(records[i].0, records[j].0));
        }
        assert forall|i: int| 0 <= i < rest.len() implies (#[trigger] rest[i]).1.len() > 0
            && ascending(rest[i].1) by {
            assert(records[i].1.len() > 0);
        }
        records_within_ids(rest);
        assert(records[records.len() - 1].1.len() > 0);
    }
}

/// The largest id of a record list, or the end-of-sequence id where that is larger.
pub open spec fn largest_of_all(ordinary_max: Option<u32>, eos_token_id: u32) -> u32 {
    match ordinary_max {
        Some(m) => if m > eos_token_id {
            m
        } else {
            eos_token_id
        },
        None => eos_token_id,
    }
}

/// The mask width for ids up to `max_id`: the explicit one, or the narrowest that covers them.
pub open spec fn mask_width(max_id: u32, logits_vocab_size: Option<usize>) -> int {
    match logits_vocab_size {
        Some(width) => width as int,
        None => max_id + 1,
    }
}

/// Why no mask of the wanted width can cover the ids up to `max_id`, if none can.
pub open spec fn width_fault(max_id: u32, logits_vocab_size: Option<usize>) -> Option<ErrorView> {
    if max_id + 1 > usize::MAX {
        Some(overflow_error("max token id overflows the mask width"@))
    } else if mask_width(max_id, logits_vocab_size) < max_id + 1 {
        Some(logits_vocab_size_error())
    } else if mask_width(max_id, logits_vocab_size) > MAX_MASK_TOKENS {
        Some(overflow_error("mask width exceeds the token-id cap"@))
    } else {
        None
    }
}

/// No record holds the id.
pub open spec fn unassigned(records: Seq<(Seq<u8>, Seq<u32>)>, id: u32) -> bool {
    forall|key: Seq<u8>| !assigns(records, key, id)
}

/// The vocabulary's one canonical representation.
#[derive(Debug)]
pub struct CanonicalVocabulary {
    prepared: PreparedVocabulary,
    id_index: IdIndex,
    eos_token_id: u32,
    mask_vocab_size: usize,
    fingerprint: VocabFingerprint,
}

/// What a canonical vocabulary holds.
pub struct CanonicalView {
    pub records: Seq<(Seq<u8>, Seq<u32>)>,
    pub eos_token_id: u32,
    pub mask_vocab_size: nat,
}

/// A canonical vocabulary is in order: canonical records, no id under two of them, none under the
/// end-of-sequence id, and a mask that covers every id and stays below the cap.
pub open spec fn canonical_valid(v: CanonicalView) -> bool {
    &&& is_canonical(v.records)
    &&& !ambiguous(v.records)
    &&& unassigned(v.records, v.eos_token_id)
    &&& v.eos_token_id < v.mask_vocab_size <= MAX_MASK_TOKENS
    &&& forall|key: Seq<u8>, id: u32| #[trigger]
        assigns(v.records, key, id) ==> id < v.mask_vocab_size
}

/// What canonicalising prepared records returns: the fault of a width that does not do; else the
/// canonical vocabulary, the error of an ambiguous id, or that of memory that could not be had.
pub open spec fn canonicalised(
    records: Seq<(Seq<u8>, Seq<u32>)>,
    eos_token_id: u32,
    logits_vocab_size: Option<usize>,
    r: Result<CanonicalVocabulary, CompileError>,
) -> bool {
    exists|ordinary_max: Option<u32>|
        {
            let max_id = largest_of_all(ordinary_max, eos_token_id);
            &&& #[trigger] is_ordinary_max(records, ordinary_max)
            &&& match width_fault(max_id, logits_vocab_size) {
                Some(fault) => r is Err && r->Err_0@ == fault,
                None => match r {
                    Ok(c) => {
                        &&& canonical_valid(c@)
                        &&& c@ == (CanonicalView {
                            records,
                            eos_token_id,
                            mask_vocab_size: mask_width(max_id, logits_vocab_size) as nat,
                        })
                        &&& c.digest() == blake3_hash(fingerprint_input(records, eos_token_id))
                    },
                    Err(e) => (ambiguous(records) && e@ == ambiguous_id_error()) || (records.len()
                        > 0 && index_allocation_failed(e@)),
                },
            }
        }
}

/// What preparing and then canonicalising returns.
pub open spec fn then_canonicalised(
    built: Result<PreparedVocabulary, CompileError>,
    eos_token_id: u32,
    logits_vocab_size: Option<usize>,
    r: Result<CanonicalVocabulary, CompileError>,
) -> bool {
    match built {
        Ok(p) => canonicalised(p@, eos_token_id, logits_vocab_size, r),
        Err(e) => r is Err && r->Err_0@ == e@,
    }
}

impl View for CanonicalVocabulary {
    type V = CanonicalView;

    closed spec fn view(&self) -> CanonicalView {
        CanonicalView {
            records: self.prepared@,
            eos_token_id: self.eos_token_id,
            mask_vocab_size: self.mask_vocab_size as nat,
        }
    }
}

impl CanonicalVocabulary {
    /// The content digest.
    pub closed spec fn digest(&self) -> [u8; 32] {
        self.fingerprint.view()
    }

    /// The index finds every id.
    pub closed spec fn indexed(self) -> bool {
        indexes(self.id_index, self.prepared@, self.prepared@.len() as int)
    }

    /// Every canonical vocabulary is in order, however it came about.
    #[verifier::type_invariant]
    pub open spec fn valid(self) -> bool {
        canonical_valid(self@) && self.indexed()
    }

    /// Builds canonical storage from a validated vocabulary with inferred mask width.
    pub fn from_vocabulary(vocab: &Vocabulary) -> (r: Result<CanonicalVocabulary, CompileError>)
        ensures
            exists|b: Result<PreparedVocabulary, CompileError>| #[trigger]
                built_from_map(vocab.contents(), b) && then_canonicalised(b, vocab.eos(), None, r),
    {
        Self::from_vocabulary_with_logits_vocab_size(vocab, None)
    }

    /// Builds canonical storage with an explicit logits mask width.
    /// Widths smaller than observed token or EOS ids are rejected.
    pub fn from_vocabulary_with_logits_vocab_size(
        vocab: &Vocabulary,
        logits_vocab_size: Option<usize>,
    ) -> (r: Result<CanonicalVocabulary, CompileError>)
        ensures
            exists|b: Result<PreparedVocabulary, CompileError>| #[trigger]
                built_from_map(vocab.contents(), b) && then_canonicalised(
                    b,
                    vocab.eos(),
                    logits_vocab_size,
                    r,
                ),
    {
        proof {
            use_type_invariant(vocab);
        }
        let built: Result<PreparedVocabulary, CompileError> = PreparedVocabulary::build(vocab);
        let ghost b = built;
        assert(built_from_map(vocab.contents(), b));
        match built {
            Ok(prepared) => {
                proof {
                    assert forall|key: Seq<u8>| !assigns(prepared@, key, vocab.eos()) by {
                        if map_assigns(vocab.contents(), key, vocab.eos()) {
                            assert(vocab.contents().contains_key(key));
                        }
                        assert(assigns(prepared@, key, vocab.eos()) == map_assigns(
                            vocab.contents(),
                            key,
                            vocab.eos(),
                        ));
                    }
                }
                Self::from_prepared(prepared, vocab.eos_token_id(), logits_vocab_size)
            },
            Err(e) => Err(e),
        }
    }

    /// Builds canonical storage directly from packed CSR buffers.
    /// Duplicate byte keys merge without intermediate token maps.
    pub fn from_packed_with_logits_vocab_size(
        token_bytes: &[u8],
        byte_offsets: &[u32],
        token_ids: &[u32],
        id_offsets: &[u32],
        eos_token_id: u32,
        logits_vocab_size: Option<usize>,
    ) -> (r: Result<CanonicalVocabulary, CompileError>)
        ensures
            exists|b: Result<PreparedVocabulary, CompileError>| #[trigger]
                built_from_packed(
                    token_bytes@,
                    byte_offsets@,
                    token_ids@,
                    id_offsets@,
                    eos_token_id,
                    MAX_PACKED_PROJECTED_PEAK_BYTES as int,
                    b,
                ) && then_canonicalised(b, eos_token_id, logits_vocab_size, r),
    {
        let built: Result<PreparedVocabulary, CompileError> = PreparedVocabulary::build_from_packed(
            token_bytes,
            byte_offsets,
            token_ids,
            id_offsets,
            eos_token_id,
        );
        let ghost b = built;
        match built {
            Ok(prepared) => {
                proof {
                    packed_leaves_eos_unassigned(
                        token_bytes@,
                        byte_offsets@,
                        token_ids@,
                        id_offsets@,
                        eos_token_id,
                        prepared,
                    );
                }
                Self::from_prepared(prepared, eos_token_id, logits_vocab_size)
            },
            Err(e) => Err(e),
        }
    }

    /// Builds canonical storage from dense, id-ordered tokenizer bytes.
    pub fn from_dense_id_ordered_with_logits_vocab_size(
        token_bytes: &[u8],
        byte_offsets: &[u32],
        present: &[bool],
        eos_token_id: u32,
        logits_vocab_size: Option<usize>,
    ) -> (r: Result<CanonicalVocabulary, CompileError>)
        ensures
            exists|b: Result<PreparedVocabulary, CompileError>| #[trigger]
                built_from_dense(
                    token_bytes@,
                    byte_offsets@,
                    present@,
                    eos_token_id,
                    MAX_PACKED_PROJECTED_PEAK_BYTES as int,
                    b,
                ) && then_canonicalised(b, eos_token_id, logits_vocab_size, r),
    {
        let built: Result<PreparedVocabulary, CompileError> =
            PreparedVocabulary::build_from_dense_id_ordered(
            token_bytes,
            byte_offsets,
            present,
            eos_token_id,
        );
        let ghost b = built;
        match built {
            Ok(prepared) => {
                proof {
                    assert forall|key: Seq<u8>| !assigns(prepared@, key, eos_token_id) by {
                        assert(assigns(prepared@, key, eos_token_id) == dense_assigns(
                            token_bytes@,
                            byte_offsets@,
                            present@,
                            key,
                            eos_token_id,
                        ));
                    }
                }
                Self::from_prepared(prepared, eos_token_id, logits_vocab_size)
            },
            Err(e) => Err(e),
        }
    }

    /// Builds canonical storage from canonical records.
    pub fn from_prepared(
        prepared: PreparedVocabulary,
        eos_token_id: u32,
        logits_vocab_size: Option<usize>,
    ) -> (r: Result<CanonicalVocabulary, CompileError>)
        requires
            is_canonical(prepared@),
            unassigned(prepared@, eos_token_id),
        ensures
            canonicalised(prepared@, eos_token_id, logits_vocab_size, r),
    {
        let (fingerprint, ordinary_max) = VocabFingerprint::of_prepared_with_ordinary_max(
            &prepared,
            eos_token_id,
        );
        assert(is_ordinary_max(prepared@, ordinary_max));
        let max_id: u32 = match ordinary_max {
            Some(m) => if m > eos_token_id {
                m
            } else {
                eos_token_id
            },
            None => eos_token_id,
        };
        let inferred_width: usize = match (max_id as usize).checked_add(1) {
            Some(width) => width,
            None => {
                return Err(overflow("max token id overflows the mask width"));
            },
        };
        let mask_vocab_size: usize = match logits_vocab_size {
            Some(width) => {
                if width < inferred_width {
                    return Err(logits_vocab_size_too_small());
                }
                width
            },
            None => inferred_width,
        };
        if mask_vocab_size > MAX_MASK_TOKENS {
            return Err(overflow("mask width exceeds the token-id cap"));
        }
        let id_index: IdIndex = match IdIndex::build(&prepared, ordinary_max) {
            Ok(index) => index,
            Err(e) => {
                return Err(e);
            },
        };
        Ok(
            CanonicalVocabulary { prepared, id_index, eos_token_id, mask_vocab_size, fingerprint },
        )
    }

    pub fn eos_token_id(&self) -> (id: u32)
        ensures
            id == self@.eos_token_id,
    {
        self.eos_token_id
    }

    pub fn mask_vocab_size(&self) -> (n: usize)
        ensures
            n == self@.mask_vocab_size,
    {
        self.mask_vocab_size
    }

    /// Packed `u32` words in one mask row: `ceil(mask_vocab_size / 32)`.
    pub fn mask_width_words(&self) -> (n: usize)
        ensures
            n == (self@.mask_vocab_size + 31) / 32,
    {
        proof {
            use_type_invariant(self);
        }
        (self.mask_vocab_size + 31) / 32
    }

    pub fn fingerprint(&self) -> (fingerprint: VocabFingerprint)
        ensures
            fingerprint.view() == self.digest(),
    {
        self.fingerprint
    }

    /// The number of stored ordinary token ids plus one for EOS (matches `Vocabulary::len()`'s
    /// public contract - NOT the distinct byte-string count and NOT the mask width).
    pub fn len(&self) -> (n: usize)
        ensures
            n == ids_total(self@.records) + 1,
    {
        proof {
            use_type_invariant(self);
            ids_fit_the_mask(self@);
        }
        self.prepared.total_ids() + 1
    }

    /// True when the token map has no records - matches `Vocabulary::is_empty()`.
    pub fn is_empty(&self) -> (r: bool)
        ensures
            r == (self@.records.len() == 0),
    {
        self.prepared.len() == 0
    }

    /// `id`'s byte string, or `None` if `id` names no ordinary token (including EOS, which is a
    /// side value never present as an ordinary id).
    pub fn token_bytes(&self, id: u32) -> (bytes: Option<&[u8]>)
        ensures
            match bytes {
                Some(b) => assigns(self@.records, b@, id),
                None => unassigned(self@.records, id),
            },
            id == self@.eos_token_id ==> bytes is None,
    {
        proof {
            use_type_invariant(self);
        }
        let ghost all = self.prepared@;
        match self.id_index.record_of(id) {
            Some(i) => {
                assert(self.id_index.held(id) is Some);
                let bytes: &[u8] = self.prepared.record_bytes(i);
                assert(assigns_at(all, i as int, bytes@, id));
                assert(assigns(all, bytes@, id));
                Some(bytes)
            },
            None => {
                proof {
                    assert forall|key: Seq<u8>| !assigns(all, key, id) by {
                        if assigns(all, key, id) {
                            let i = choose|i: int| assigns_at(all, i, key, id);
                            assert(all[i].1.contains(id));
                        }
                    }
                }
                None
            },
        }
    }

    /// Every record as `(bytes, ids)`, byte-sorted - the same order fingerprinting and trie
    /// construction read.
    pub fn iter(&self) -> (items: Vec<(&[u8], &[u32])>)
        ensures
            items@.len() == self@.records.len(),
            forall|i: int|
                0 <= i < items@.len() ==> (#[trigger] items@[i]).0@ == self@.records[i].0
                    && items@[i].1@ == self@.records[i].1,
    {
        self.prepared.iter()
    }

    /// The shared canonical sorted form, for a trie builder to consume without re-sorting.
    pub fn prepared(&self) -> (p: &PreparedVocabulary)
        ensures
            p@ == self@.records,
    {
        &self.prepared
    }
}

/// An admitted packed vocabulary has no token under the end-of-sequence id.
proof fn packed_leaves_eos_unassigned(
    token_bytes: Seq<u8>,
    byte_offsets: Seq<u32>,
    token_ids: Seq<u32>,
    id_offsets: Seq<u32>,
    eos_token_id: u32,
    prepared: PreparedVocabulary,
)
    requires
        built_from_packed(
            token_bytes,
            byte_offsets,
            token_ids,
            id_offsets,
            eos_token_id,
            MAX_PACKED_PROJECTED_PEAK_BYTES as int,
            Ok(prepared),
        ),
    ensures
        unassigned(prepared@, eos_token_id),
{
    let entries = packed_entries(token_bytes, byte_offsets, token_ids, id_offsets);
    assert forall|key: Seq<u8>| !assigns(prepared@, key, eos_token_id) by {
        assert(assigns(prepared@, key, eos_token_id) == assigns(entries, key, eos_token_id));
        if assigns(entries, key, eos_token_id) {
            let i = choose|i: int| assigns_at(entries, i, key, eos_token_id);
            csr_monotone(id_offsets, token_ids.len() as int, i, i + 1);
            let ids = csr_item(token_ids, id_offsets, i);
            let k = ids.index_of(eos_token_id);
            assert(token_ids[id_offsets[i] + k] == eos_token_id);
        }
    }
}

/// The ids of all records, in a row.
spec fn all_ids(records: Seq<(Seq<u8>, Seq<u32>)>) -> Seq<u32>
    decreases records.len(),
{
    if records.len() == 0 {
        seq![]
    } else {
        all_ids(records.drop_last()) + records.last().1
    }
}

proof fn all_ids_properties(records: Seq<(Seq<u8>, Seq<u32>)>)
    requires
        forall|i: int| 0 <= i < records.len() ==> ascending((#[trigger] records[i]).1),
        !ambiguous(records),
    ensures
        all_ids(records).len() == ids_total(records),
        all_ids(records).no_duplicates(),
        forall|id: u32| #[trigger] all_ids(records).contains(id) ==> exists|i: int|
            0 <= i < records.len() && (#[trigger] records[i]).1.contains(id),
    decreases records.len(),
{
    if records.len() > 0 {
        let rest = records.drop_last();
        let last = records.last().1;
        let front = all_ids(rest);
        assert forall|i: int| 0 <= i < rest.len() implies ascending((#[trigger] rest[i]).1) by {
            assert(ascending(records[i].1));
        }
        if ambiguous(rest) {
            let (a, b, id) = choose|a: int, b: int, id: u32| doubly_held(rest, a, b, id);
            assert(doubly_held(records, a, b, id));
        }
        all_ids_properties(rest);
        let all = all_ids(records);
        assert(ascending(records[records.len() - 1].1));
        assert forall|id: u32| #[trigger] all.contains(id) implies exists|i: int|
            0 <= i < records.len() && (#[trigger] records[i]).1.contains(id) by {
            let k = all.index_of(id);
            if k < front.len() {
                assert(front[k] == id);
                assert(front.contains(id));
                let i = choose|i: int| 0 <= i < rest.len() && (#[trigger] rest[i]).1.contains(id);
                assert(records[i].1.contains(id));
            } else {
                assert(last[k - front.len()] == id);
                assert(records[records.len() - 1].1.contains(id));
            }
        }
        assert forall|i: int, j: int| 0 <= i < j < all.len() implies all[i] != all[j] by {
            if j < front.len() {
                assert(front[i] != front[j]);
            } else if i >= front.len() {
                assert(last[i - front.len()] < last[j - front.len()]);
            } else {
                let id = all[i];
                assert(front[i] == id);
                assert(front.contains(id));
                let q = choose|q: int| 0 <= q < rest.len() && (#[trigger] rest[q]).1.contains(id);
                if all[j] == id {
                    assert(last[j - front.len()] == id);
                    assert(records[q].1.contains(id));
                    assert(doubly_held(records, q, records.len() - 1, id));
                }
            }
        }
    }
}

/// A canonical vocabulary holds no more ids than its mask has bits.
pub proof fn ids_fit_the_mask(v: CanonicalView)
    requires
        canonical_valid(v),
    ensures
        ids_total(v.records) <= v.mask_vocab_size,
{
    let all = all_ids(v.records);
    all_ids_properties(v.records);
    assert forall|k: int| 0 <= k < all.len() implies (#[trigger] all[k]) < v.mask_vocab_size by {
        assert(all.contains(all[k]));
        let i = choose|i: int|
            0 <= i < v.records.len() && (#[trigger] v.records[i]).1.contains(all[k]);
        assert(assigns_at(v.records, i, v.records[i].0, all[k]));
        assert(assigns(v.records, v.records[i].0, all[k]));
    }
    distinct_below(all, v.mask_vocab_size as int);
}

/// In a canonical vocabulary an id names at most one byte string.
pub proof fn token_bytes_are_unique(v: CanonicalView, id: u32, a: Seq<u8>, b: Seq<u8>)
    requires
        canonical_valid(v),
        assigns(v.records, a, id),
        assigns(v.records, b, id),
    ensures
        a == b,
{
    let i = choose|i: int| assigns_at(v.records, i, a, id);
    let j = choose|j: int| assigns_at(v.records, j, b, id);
    if i < j {
        assert(doubly_held(v.records, i, j, id));
    } else if j < i {
        assert(doubly_held(v.records, j, i, id));
    }
}

/// The same vocabulary, built from a token map and from packed buffers, is the same records,
/// whatever order either held its tokens in.
pub proof fn map_and_packed_builds_agree(
    contents: Map<Seq<u8>, Seq<u32>>,
    entries: Seq<(Seq<u8>, Seq<u32>)>,
    from_map: Seq<(Seq<u8>, Seq<u32>)>,
    from_packed: Seq<(Seq<u8>, Seq<u32>)>,
)
    requires
        is_canonical(from_map),
        is_canonical(from_packed),
        forall|key: Seq<u8>, id: u32| #[trigger]
            assigns(from_map, key, id) == map_assigns(contents, key, id),
        same_assignments(from_packed, entries),
        forall|key: Seq<u8>, id: u32| #[trigger]
            assigns(entries, key, id) == map_assigns(contents, key, id),
    ensures
        from_map == from_packed,
{
    assert forall|key: Seq<u8>, id: u32| #[trigger] assigns(from_map, key, id) == assigns(
        from_packed,
        key,
        id,
    ) by {
        assert(assigns(from_packed, key, id) == assigns(entries, key, id));
        assert(assigns(entries, key, id) == map_assigns(contents, key, id));
    }
    canonical_form_is_unique(from_map, from_packed);
}

/// A vocabulary decoded densely and the same vocabulary in packed buffers are the same records.
pub proof fn dense_and_packed_builds_agree(
    token_bytes: Seq<u8>,
    byte_offsets: Seq<u32>,
    present: Seq<bool>,
    entries: Seq<(Seq<u8>, Seq<u32>)>,
    from_dense: Seq<(Seq<u8>, Seq<u32>)>,
    from_packed: Seq<(Seq<u8>, Seq<u32>)>,
)
    requires
        is_canonical(from_dense),
        is_canonical(from_packed),
        forall|key: Seq<u8>, id: u32| #[trigger]
            assigns(from_dense, key, id) == dense_assigns(
                token_bytes,
                byte_offsets,
                present,
                key,
                id,
            ),
        same_assignments(from_packed, entries),
        forall|key: Seq<u8>, id: u32| #[trigger]
            assigns(entries, key, id) == dense_assigns(
                token_bytes,
                byte_offsets,
                present,
                key,
                id,
            ),
    ensures
        from_dense == from_packed,
{
    assert forall|key: Seq<u8>, id: u32| #[trigger] assigns(from_dense, key, id) == assigns(
        from_packed,
        key,
        id,
    ) by {
        assert(assigns(from_packed, key, id) == assigns(entries, key, id));
        assert(assigns(entries, key, id) == dense_assigns(
            token_bytes,
            byte_offsets,
            present,
            key,
            id,
        ));
    }
    canonical_form_is_unique(from_dense, from_packed);
}

/// Packed buffers that assign the same ids to the same byte strings, in whatever order and however
/// split over entries, are prepared to the same records.
pub proof fn packed_order_does_not_matter(
    a: Seq<(Seq<u8>, Seq<u32>)>,
    b: Seq<(Seq<u8>, Seq<u32>)>,
    from_a: Seq<(Seq<u8>, Seq<u32>)>,
    from_b: Seq<(Seq<u8>, Seq<u32>)>,
)
    requires
        same_assignments(a, b),
        is_canonical(from_a),
        same_assignments(from_a, a),
        is_canonical(from_b),
        same_assignments(from_b, b),
    ensures
        from_a == from_b,
{
    assert forall|key: Seq<u8>, id: u32| #[trigger] assigns(from_a, key, id) == assigns(
        from_b,
        key,
        id,
    ) by {
        assert(assigns(from_a, key, id) == assigns(a, key, id));
        assert(assigns(a, key, id) == assigns(b, key, id));
        assert(assigns(from_b, key, id) == assigns(b, key, id));
    }
    canonical_form_is_unique(from_a, from_b);
}

/// Lists without duplicates that have the same members are equally long.
proof fn same_members_same_length(a: Seq<u32>, b: Seq<u32>)
    requires
        a.no_duplicates(),
        b.no_duplicates(),
        forall|id: u32| #[trigger] a.contains(id) == b.contains(id),
    ensures
        a.len() == b.len(),
{
    a.unique_seq_to_set();
    b.unique_seq_to_set();
    assert(a.to_set() =~= b.to_set()) by {
        assert forall|id: u32| a.to_set().contains(id) == b.to_set().contains(id) by {
            assert(a.contains(id) == b.contains(id));
        }
    }
}

/// The totals of records that differ only in how their ids are ordered.
proof fn totals_by_length(a: Seq<(Seq<u8>, Seq<u32>)>, b: Seq<(Seq<u8>, Seq<u32>)>)
    requires
        a.len() == b.len(),
        forall|i: int| 0 <= i < a.len() ==> (#[trigger] a[i]).1.len() == b[i].1.len(),
    ensures
        ids_total(a) == ids_total(b),
    decreases a.len(),
{
    if a.len() > 0 {
        let x = a.drop_last();
        let y = b.drop_last();
        assert forall|i: int| 0 <= i < x.len() implies (#[trigger] x[i]).1.len()
            == y[i].1.len() by {
            assert(a[i].1.len() == b[i].1.len());
        }
        totals_by_length(x, y);
        assert(a[a.len() - 1].1.len() == b[b.len() - 1].1.len());
    }
}

/// The canonical records of a valid token map count as many ids as the map does, so a canonical
/// vocabulary is as long as the vocabulary it was made of, and is empty exactly where that is.
pub proof fn canonical_length_is_vocabulary_length(
    eos: u32,
    contents: Map<Seq<u8>, Seq<u32>>,
    records: Seq<(Seq<u8>, Seq<u32>)>,
)
    requires
        valid_contents(eos, contents),
        is_canonical(records),
        forall|key: Seq<u8>, id: u32| #[trigger]
            assigns(records, key, id) == map_assigns(contents, key, id),
    ensures
        ids_total(records) == map_ids_total(contents),
        records.len() == 0 <==> contents == Map::<Seq<u8>, Seq<u32>>::empty(),
{
    let held = Seq::new(records.len(), |i: int| (records[i].0, contents[records[i].0]));
    assert forall|i: int| 0 <= i < records.len() implies contents.contains_key(
        (#[trigger] records[i]).0,
    ) && records[i].1.len() == contents[records[i].0].len() by {
        let key = records[i].0;
        let first = records[i].1[0];
        assert(records[i].1.contains(first));
        canonical_record_ids(records, i, first);
        assert(map_assigns(contents, key, first));
        assert(valid_entry(eos, key, contents[key]));
        assert forall|id: u32| #[trigger] records[i].1.contains(id) == contents[key].contains(
            id,
        ) by {
            canonical_record_ids(records, i, id);
            assert(assigns(records, key, id) == map_assigns(contents, key, id));
        }
        assert(records[i].1.no_duplicates()) by {
            assert(ascending(records[i].1));
        }
        same_members_same_length(records[i].1, contents[key]);
    }
    assert forall|i: int| 0 <= i < held.len() implies contents.contains_key((#[trigger] held[i]).0)
        && contents[held[i].0] == held[i].1 by {
        assert(contents.contains_key(records[i].0));
    }
    assert forall|i: int, j: int| 0 <= i < j < held.len() implies (#[trigger] held[i]).0
        != (#[trigger] held[j]).0 by {
        assert(lex_lt(records[i].0, records[j].0));
    }
    assert forall|key: Seq<u8>| #[trigger] contents.contains_key(key) implies exists|i: int|
        0 <= i < held.len() && (#[trigger] held[i]).0 == key by {
        assert(valid_entry(eos, key, contents[key]));
        let first = contents[key][0];
        assert(contents[key].contains(first));
        assert(assigns(records, key, first) == map_assigns(contents, key, first));
        let i = choose|i: int| assigns_at(records, i, key, first);
        assert(held[i].0 == key);
    }
    assert(lists(held, contents));
    listing_totals(held, contents);
    assert forall|i: int| 0 <= i < records.len() implies (#[trigger] records[i]).1.len()
        == held[i].1.len() by {
        assert(contents.contains_key(records[i].0));
    }
    totals_by_length(records, held);
    if records.len() == 0 {
        assert forall|key: Seq<u8>| !contents.contains_key(key) by {
            if contents.contains_key(key) {
                let i = choose|i: int| 0 <= i < held.len() && (#[trigger] held[i]).0 == key;
            }
        }
        assert(contents =~= Map::<Seq<u8>, Seq<u32>>::empty());
    } else {
        assert(contents.contains_key(records[0].0));
    }
}

/// An explicit mask width does not change the fingerprint, nor anything else but the width.
pub proof fn explicit_width_changes_the_width_only(
    records: Seq<(Seq<u8>, Seq<u32>)>,
    eos_token_id: u32,
    a_width: Option<usize>,
    a: CanonicalVocabulary,
    b_width: Option<usize>,
    b: CanonicalVocabulary,
)
    requires
        canonicalised(records, eos_token_id, a_width, Ok(a)),
        canonicalised(records, eos_token_id, b_width, Ok(b)),
    ensures
        a.digest() == b.digest(),
        a@.records == b@.records,
        a@.eos_token_id == b@.eos_token_id,
{
}

} // verus!
