//! A compiled schema bound to a vocabulary: which tokens may come next, and where
//! each leads.

use vstd::pervasive::unreached;
use vstd::prelude::*;

use crate::canonical::{CanonicalVocabulary, canonical_valid, token_bytes_are_unique, unassigned};
use crate::error::{CompileError, ErrorCode, Stage, plain_error};
use crate::records::{ascending, assigns, assigns_at};
use crate::report::{ErrorRecord, MatcherError, illegal_token, illegal_token_record};
use crate::walk::{StateGraph, is_smallest_move, next_on_walk, some_move_is_smallest};

verus! {

/// A byte-level automaton. Row `s` of `table` holds the state that each byte leads to from `s`.
#[derive(Debug)]
pub struct ByteEngine {
    pub table: Vec<u32>,
    pub accepting: Vec<bool>,
    pub start: u32,
    pub dead: u32,
}

impl ByteEngine {
    /// The number of states.
    pub open spec fn count(&self) -> nat {
        self.accepting@.len()
    }

    /// The table is whole; the dead state accepts nothing and is never left, and every other state
    /// accepts or can be left for a live one.
    pub open spec fn wf(&self) -> bool {
        &&& self.table@.len() == self.count() * 256
        &&& self.count() <= u32::MAX
        &&& self.start < self.count()
        &&& self.dead < self.count()
        &&& !self.accepting@[self.dead as int]
        &&& forall|i: int| 0 <= i < self.table@.len() ==> (#[trigger] self.table@[i]) < self.count()
        &&& forall|b: int| 0 <= b < 256 ==> #[trigger] self.next(self.dead, b) == self.dead
        &&& forall|s: u32|
            s < self.count() && s != self.dead ==> self.accepting@[s as int]
                || #[trigger] self.continues(s)
    }

    /// Some byte leads from `s` to a live state.
    pub open spec fn continues(&self, s: u32) -> bool {
        exists|b: int| 0 <= b < 256 && #[trigger] self.next(s, b) != self.dead
    }

    /// The state that the byte `b` leads to from `s`.
    pub open spec fn next(&self, s: u32, b: int) -> u32 {
        self.table@[s * 256 + b]
    }

    /// The state that `bytes` lead to from `s`.
    pub open spec fn run(&self, s: u32, bytes: Seq<u8>) -> u32
        decreases bytes.len(),
    {
        if bytes.len() == 0 {
            s
        } else {
            self.next(self.run(s, bytes.drop_last()), bytes.last() as int)
        }
    }

    /// The live state that `bytes` lead to from `s`, if they do. A state that there is not is dead.
    pub open spec fn walked(&self, s: u32, bytes: Seq<u8>) -> Option<u32> {
        if s < self.count() && self.run(s, bytes) != self.dead {
            Some(self.run(s, bytes))
        } else {
            None
        }
    }

    proof fn next_bounds(&self, s: u32, b: int)
        requires
            self.table@.len() == self.count() * 256,
            forall|i: int|
                0 <= i < self.table@.len() ==> (#[trigger] self.table@[i]) < self.count(),
            s < self.count(),
            0 <= b < 256,
        ensures
            0 <= s * 256 + b < self.table@.len(),
            self.next(s, b) < self.count(),
    {
        assert(s * 256 + b < self.count() * 256) by (nonlinear_arith)
            requires
                s < self.count(),
                0 <= b < 256,
        ;
    }

    proof fn run_bounds(&self, s: u32, bytes: Seq<u8>)
        requires
            self.wf(),
            s < self.count(),
        ensures
            self.run(s, bytes) < self.count(),
        decreases bytes.len(),
    {
        if bytes.len() > 0 {
            self.run_bounds(s, bytes.drop_last());
            self.next_bounds(self.run(s, bytes.drop_last()), bytes.last() as int);
        }
    }

    /// Whether some byte leads from `s` to a live state.
    fn leads_on(&self, s: u32) -> (r: bool)
        requires
            self.table@.len() == self.count() * 256,
            forall|i: int|
                0 <= i < self.table@.len() ==> (#[trigger] self.table@[i]) < self.count(),
            s < self.count(),
        ensures
            r == self.continues(s),
    {
        let size: usize = self.table.len();
        let mut b: usize = 0;
        while b < 256
            invariant
                self.table@.len() == self.count() * 256,
                forall|i: int|
                    0 <= i < self.table@.len() ==> (#[trigger] self.table@[i]) < self.count(),
                size == self.table@.len(),
                s < self.count(),
                b <= 256,
                forall|k: int| 0 <= k < b ==> #[trigger] self.next(s, k) == self.dead,
            decreases 256 - b,
        {
            proof {
                self.next_bounds(s, b as int);
                assert(s * 256 + b < size);
            }
            if self.table[s as usize * 256 + b] != self.dead {
                assert(self.next(s, b as int) != self.dead);
                return true;
            }
            b = b + 1;
        }
        false
    }

    /// Whether the automaton is well-formed, so that it can be walked.
    pub fn is_whole(&self) -> (r: bool)
        ensures
            r == self.wf(),
    {
        let n: usize = self.accepting.len();
        let size: usize = self.table.len();
        if n.checked_mul(256) != Some(size) || n > u32::MAX as usize || self.start as usize >= n
            || self.dead as usize >= n || self.accepting[self.dead as usize] {
            return false;
        }
        let mut i: usize = 0;
        while i < size
            invariant
                i <= size,
                size == self.table@.len(),
                n == self.count(),
                forall|k: int| 0 <= k < i ==> (#[trigger] self.table@[k]) < self.count(),
            decreases size - i,
        {
            if self.table[i] as usize >= n {
                assert(self.table@[i as int] >= self.count());
                return false;
            }
            i = i + 1;
        }
        if self.leads_on(self.dead) {
            return false;
        }
        let mut s: u32 = 0;
        while (s as usize) < n
            invariant
                n == self.count(),
                n <= u32::MAX,
                self.table@.len() == self.count() * 256,
                forall|k: int|
                    0 <= k < self.table@.len() ==> (#[trigger] self.table@[k]) < self.count(),
                s <= n,
                forall|t: u32|
                    t < s && t != self.dead ==> self.accepting@[t as int]
                        || #[trigger] self.continues(t),
            decreases n - s,
        {
            let open: bool = self.leads_on(s);
            if s != self.dead && !self.accepting[s as usize] && !open {
                assert(!self.accepting@[s as int] && !self.continues(s));
                return false;
            }
            s = s + 1;
        }
        true
    }

    /// Consumes `bytes` from `s`: all of them, or none.
    pub fn walk(&self, s: u32, bytes: &[u8]) -> (r: Option<u32>)
        requires
            self.wf(),
        ensures
            r == self.walked(s, bytes@),
    {
        if s as usize >= self.accepting.len() {
            return None;
        }
        let size: usize = self.table.len();
        let mut at: u32 = s;
        let mut i: usize = 0;
        while i < bytes.len()
            invariant
                self.wf(),
                size == self.table@.len(),
                s < self.count(),
                i <= bytes@.len(),
                at == self.run(s, bytes@.take(i as int)),
                at < self.count(),
            decreases bytes@.len() - i,
        {
            proof {
                self.next_bounds(at, bytes@[i as int] as int);
                assert(bytes@.take(i + 1).drop_last() =~= bytes@.take(i as int));
                assert(at * 256 + bytes@[i as int] < size);
            }
            at = self.table[at as usize * 256 + bytes[i] as usize];
            i = i + 1;
        }
        assert(bytes@.take(i as int) =~= bytes@);
        if at == self.dead {
            None
        } else {
            Some(at)
        }
    }
}

/// The dead state is never left, whatever the bytes.
pub proof fn dead_is_permanent(engine: ByteEngine, bytes: Seq<u8>)
    requires
        engine.wf(),
    ensures
        engine.run(engine.dead, bytes) == engine.dead,
        engine.walked(engine.dead, bytes) is None,
    decreases bytes.len(),
{
    if bytes.len() > 0 {
        dead_is_permanent(engine, bytes.drop_last());
        assert(engine.next(engine.dead, bytes.last() as int) == engine.dead);
    }
}

/// A state is dead exactly where it neither accepts nor continues.
pub proof fn dead_neither_accepts_nor_continues(engine: ByteEngine, s: u32)
    requires
        engine.wf(),
        s < engine.count(),
    ensures
        s == engine.dead <==> !engine.accepting@[s as int] && !engine.continues(s),
{
    if s == engine.dead && engine.continues(s) {
        let b = choose|b: int| 0 <= b < 256 && #[trigger] engine.next(s, b) != engine.dead;
        assert(engine.next(engine.dead, b) == engine.dead);
    }
    if s != engine.dead {
        assert(engine.accepting@[s as int] || engine.continues(s));
    }
}

/// A walk over two byte strings in a row is a walk over the first and then over the second, so a
/// shared prefix need be walked only once, and nothing follows a prefix that is dead.
pub proof fn walks_compose(engine: ByteEngine, s: u32, a: Seq<u8>, b: Seq<u8>)
    requires
        engine.wf(),
    ensures
        engine.walked(s, a + b) == match engine.walked(s, a) {
            Some(t) => engine.walked(t, b),
            None => None,
        },
    decreases b.len(),
{
    run_append(engine, s, a, b);
    if s < engine.count() {
        engine.run_bounds(s, a);
        if engine.run(s, a) == engine.dead {
            dead_is_permanent(engine, b);
        }
    }
}

proof fn run_append(engine: ByteEngine, s: u32, a: Seq<u8>, b: Seq<u8>)
    ensures
        engine.run(s, a + b) == engine.run(engine.run(s, a), b),
    decreases b.len(),
{
    if b.len() == 0 {
        assert(a + b =~= a);
    } else {
        assert((a + b).drop_last() =~= a + b.drop_last());
        assert((a + b).last() == b.last());
        run_append(engine, s, a, b.drop_last());
    }
}

/// The bit of the token `id` in a mask: bit `id % 32` of word `id / 32`.
pub open spec fn mask_bit(mask: Seq<u32>, id: int) -> bool {
    (mask[id / 32] >> ((id % 32) as u32)) & 1u32 == 1u32
}

/// Sets one bit of a mask.
fn set_bit(mask: &mut Vec<u32>, id: u32)
    requires
        id / 32 < old(mask)@.len(),
    ensures
        final(mask)@.len() == old(mask)@.len(),
        forall|k: int|
            0 <= k < 32 * final(mask)@.len() ==> #[trigger] mask_bit(final(mask)@, k) == (k == id
                || mask_bit(old(mask)@, k)),
{
    let at: usize = (id / 32) as usize;
    let bit: u32 = id % 32;
    let ghost before = mask@;
    let word: u32 = mask[at];
    mask.set(at, word | (1u32 << bit));
    proof {
        assert forall|k: int| 0 <= k < 32 * mask@.len() implies #[trigger] mask_bit(mask@, k) == (k
            == id || mask_bit(before, k)) by {
            let j = (k % 32) as u32;
            if k / 32 == at {
                assert(((word | (1u32 << bit)) >> j) & 1u32 == 1u32 <==> (j == bit || (word >> j)
                    & 1u32 == 1u32)) by (bit_vector)
                    requires
                        j < 32,
                        bit < 32,
                ;
            }
        }
    }
}

/// A compiled schema bound to a vocabulary.
#[derive(Debug)]
pub struct CompiledArtifact {
    pub engine: ByteEngine,
    pub vocabulary: CanonicalVocabulary,
}

/// The token `id` may come next at `s`: it names a byte string that walks to a live state.
pub open spec fn allowed_by(
    engine: ByteEngine,
    records: Seq<(Seq<u8>, Seq<u32>)>,
    s: u32,
    key: Seq<u8>,
    id: u32,
) -> bool {
    assigns(records, key, id) && engine.walked(s, key) is Some
}

impl CompiledArtifact {
    pub open spec fn wf(&self) -> bool {
        self.engine.wf()
    }

    /// The token `id` may come next at `s`.
    pub open spec fn allows(&self, s: u32, id: u32) -> bool {
        exists|key: Seq<u8>| #[trigger]
            allowed_by(self.engine, self.vocabulary@.records, s, key, id)
    }

    /// The state that the token `id` leads to from `s`, if it may come next there.
    pub open spec fn advanced(&self, s: u32, id: u32) -> Option<u32> {
        if self.allows(s, id) {
            self.engine.walked(
                s,
                choose|key: Seq<u8>| #[trigger]
                    allowed_by(self.engine, self.vocabulary@.records, s, key, id),
            )
        } else {
            None
        }
    }

    /// What was read up to `s` is a whole value.
    pub open spec fn accepts_at(&self, s: u32) -> bool {
        s < self.engine.count() && self.engine.accepting@[s as int]
    }

    /// Some byte leads on from `s`.
    pub open spec fn continues_at(&self, s: u32) -> bool {
        s < self.engine.count() && self.engine.continues(s)
    }

    /// `s` is the dead sink, or no state at all.
    pub open spec fn dead_at(&self, s: u32) -> bool {
        s >= self.engine.count() || s == self.engine.dead
    }

    /// The words of one mask.
    pub open spec fn row_len(&self) -> nat {
        ((self.vocabulary@.mask_vocab_size + 31) / 32) as nat
    }

    /// `mask` is the mask at `s`: the bit of each token says whether it may come next.
    pub open spec fn is_mask(&self, s: u32, mask: Seq<u32>) -> bool {
        &&& mask.len() == self.row_len()
        &&& forall|id: int|
            0 <= id < 32 * mask.len() ==> #[trigger] mask_bit(mask, id) == self.allows(s, id as u32)
    }

    /// The anchored start state.
    pub fn start(&self) -> (s: u32)
        ensures
            s == self.engine.start,
    {
        self.engine.start
    }

    /// The canonical dead state.
    pub fn dead(&self) -> (s: u32)
        ensures
            s == self.engine.dead,
    {
        self.engine.dead
    }

    /// Whether the language accepts nothing (the start state is dead).
    pub fn start_is_dead(&self) -> (r: bool)
        ensures
            r == (self.engine.start == self.engine.dead),
    {
        self.engine.start == self.engine.dead
    }

    /// The token-id space the mask covers.
    pub fn vocab_size(&self) -> (n: usize)
        ensures
            n == self.vocabulary@.mask_vocab_size,
    {
        self.vocabulary.mask_vocab_size()
    }

    /// The number of packed `u32` words per mask row.
    pub fn words_per_row(&self) -> (n: usize)
        ensures
            n == self.row_len(),
    {
        self.vocabulary.mask_width_words()
    }

    /// Stopping at `s` yields a complete, valid instance.
    pub fn is_accepting(&self, s: u32) -> (r: bool)
        ensures
            r == self.accepts_at(s),
            r == (s < self.engine.count() && self.engine.accepting@[s as int]),
    {
        (s as usize) < self.engine.accepting.len() && self.engine.accepting[s as usize]
    }

    /// Some byte can extend `s`.
    pub fn can_continue(&self, s: u32) -> (r: bool)
        requires
            self.wf(),
        ensures
            r == self.continues_at(s),
            r == (s < self.engine.count() && self.engine.continues(s)),
    {
        if (s as usize) >= self.engine.accepting.len() {
            return false;
        }
        self.engine.leads_on(s)
    }

    /// `s` is the permanent dead sink, or no state at all.
    pub fn is_dead(&self, s: u32) -> (r: bool)
        ensures
            r == self.dead_at(s),
            r == (s >= self.engine.count() || s == self.engine.dead),
    {
        (s as usize) >= self.engine.accepting.len() || s == self.engine.dead
    }

    /// EOS is legal at `s` (equivalently, it accepts). EOS is never a mask bit.
    pub fn eos_legal(&self, s: u32) -> (r: bool)
        ensures
            r == self.accepts_at(s),
            r == (s < self.engine.count() && self.engine.accepting@[s as int]),
    {
        self.is_accepting(s)
    }

    /// The bytes that a token stands for.
    pub fn token_bytes(&self, token: u32) -> (bytes: Option<&[u8]>)
        ensures
            match bytes {
                Some(b) => assigns(self.vocabulary@.records, b@, token),
                None => unassigned(self.vocabulary@.records, token),
            },
            token == self.vocabulary@.eos_token_id ==> bytes is None,
    {
        self.vocabulary.token_bytes(token)
    }

    /// Consumes `token` from `s`, returning the next state: every byte of it, or none. A token that
    /// is unknown or has no byte path is illegal.
    pub fn advance(&self, s: u32, token: u32) -> (r: Result<u32, ErrorRecord>)
        requires
            self.wf(),
        ensures
            match self.advanced(s, token) {
                Some(t) => r == Ok::<u32, ErrorRecord>(t),
                None => r is Err && r->Err_0@ == illegal_token_record(token),
            },
            r is Ok <==> self.allows(s, token),
    {
        let ghost records = self.vocabulary@.records;
        proof {
            use_type_invariant(&self.vocabulary);
        }
        match self.vocabulary.token_bytes(token) {
            Some(bytes) => {
                proof {
                    assert forall|key: Seq<u8>| #[trigger]
                        allowed_by(self.engine, records, s, key, token) implies key == bytes@ by {
                        token_bytes_are_unique(self.vocabulary@, token, key, bytes@);
                    }
                }
                match self.engine.walk(s, bytes) {
                    Some(t) => {
                        assert(allowed_by(self.engine, records, s, bytes@, token));
                        Ok(t)
                    },
                    None => Err(illegal_token(token)),
                }
            },
            None => Err(illegal_token(token)),
        }
    }

    /// The mask at `s`.
    pub fn allowed_mask(&self, s: u32) -> (mask: Vec<u32>)
        requires
            self.wf(),
        ensures
            self.is_mask(s, mask@),
    {
        let ghost records = self.vocabulary@.records;
        proof {
            use_type_invariant(&self.vocabulary);
        }
        let words: usize = self.words_per_row();
        let mut mask: Vec<u32> = Vec::new();
        while mask.len() < words
            invariant
                mask@.len() <= words,
                forall|k: int| 0 <= k < mask@.len() ==> mask@[k] == 0,
            decreases words - mask@.len(),
        {
            mask.push(0);
        }
        proof {
            assert forall|id: int| 0 <= id < 32 * mask@.len() implies !#[trigger] mask_bit(
                mask@,
                id,
            ) by {
                let j = (id % 32) as u32;
                assert((0u32 >> j) & 1u32 == 0u32) by (bit_vector)
                    requires
                        j < 32,
                ;
            }
        }
        let count: usize = self.vocabulary.prepared().len();
        let mut i: usize = 0;
        while i < count
            invariant
                self.wf(),
                records == self.vocabulary@.records,
                canonical_valid(self.vocabulary@),
                count == records.len(),
                i <= count,
                mask@.len() == self.row_len(),
                forall|id: int|
                    0 <= id < 32 * mask@.len() ==> (#[trigger] mask_bit(mask@, id) <==> exists|
                        k: int,
                    |
                        0 <= k < i && #[trigger] holds_live(
                            self.engine,
                            records,
                            s,
                            k,
                            id as u32,
                        )),
            decreases count - i,
        {
            let key: &[u8] = self.vocabulary.prepared().record_bytes(i);
            let ghost before = mask@;
            if self.engine.walk(s, key).is_some() {
                let ids: &[u32] = self.vocabulary.prepared().record_ids(i);
                let mut q: usize = 0;
                while q < ids.len()
                    invariant
                        i < count,
                        count == records.len(),
                        records == self.vocabulary@.records,
                        canonical_valid(self.vocabulary@),
                        ids@ == records[i as int].1,
                        q <= ids@.len(),
                        mask@.len() == self.row_len(),
                        before.len() == mask@.len(),
                        forall|id: int|
                            0 <= id < 32 * mask@.len() ==> (#[trigger] mask_bit(mask@, id) <==> (
                            mask_bit(before, id) || ids@.take(q as int).contains(id as u32))),
                    decreases ids@.len() - q,
                {
                    let id: u32 = ids[q];
                    proof {
                        assert(records[i as int].1.contains(ids@[q as int]));
                        assert(assigns_at(records, i as int, records[i as int].0, id));
                        assert(assigns(records, records[i as int].0, id));
                        assert(id < self.vocabulary@.mask_vocab_size);
                    }
                    let ghost mid = mask@;
                    set_bit(&mut mask, id);
                    proof {
                        let front = ids@.take(q as int);
                        let more = ids@.take(q + 1);
                        assert(more =~= front.push(id));
                        assert forall|k: int| 0 <= k < 32 * mask@.len() implies (
                        #[trigger] mask_bit(mask@, k) <==> (mask_bit(before, k) || more.contains(
                            k as u32,
                        ))) by {
                            assert(mask_bit(mid, k) <==> (mask_bit(before, k) || front.contains(
                                k as u32,
                            )));
                            if front.contains(k as u32) {
                                let p = front.index_of(k as u32);
                                assert(more[p] == k as u32);
                            }
                            if k == id {
                                assert(more[q as int] == id);
                            }
                            if more.contains(k as u32) {
                                let p = more.index_of(k as u32);
                                if p < q {
                                    assert(front[p] == k as u32);
                                }
                            }
                        }
                    }
                    q = q + 1;
                }
                assert(ids@.take(q as int) =~= ids@);
            }
            proof {
                assert forall|id: int| 0 <= id < 32 * mask@.len() implies (#[trigger] mask_bit(
                    mask@,
                    id,
                ) <==> exists|k: int|
                    0 <= k < i + 1 && #[trigger] holds_live(
                        self.engine,
                        records,
                        s,
                        k,
                        id as u32,
                    )) by {
                    let here = holds_live(self.engine, records, s, i as int, id as u32);
                    assert(mask_bit(mask@, id) <==> (mask_bit(before, id) || here));
                    if mask_bit(before, id) {
                        let k = choose|k: int|
                            0 <= k < i && #[trigger] holds_live(
                                self.engine,
                                records,
                                s,
                                k,
                                id as u32,
                            );
                        assert(holds_live(self.engine, records, s, k, id as u32));
                    }
                }
            }
            i = i + 1;
        }
        proof {
            assert forall|id: int| 0 <= id < 32 * mask@.len() implies #[trigger] mask_bit(mask@, id)
                == self.allows(s, id as u32) by {
                let token = id as u32;
                if mask_bit(mask@, id) {
                    let k = choose|k: int|
                        0 <= k < count && #[trigger] holds_live(self.engine, records, s, k, token);
                    assert(assigns_at(records, k, records[k].0, token));
                    assert(allowed_by(self.engine, records, s, records[k].0, token));
                }
                if self.allows(s, token) {
                    let key = choose|key: Seq<u8>| #[trigger]
                        allowed_by(self.engine, records, s, key, token);
                    let k = choose|k: int| assigns_at(records, k, key, token);
                    assert(holds_live(self.engine, records, s, k, token));
                }
            }
        }
        mask
    }

    /// The ascending list of token ids allowed at `s` (EOS excluded).
    pub fn allowed_ids(&self, s: u32) -> (ids: Vec<u32>)
        requires
            self.wf(),
        ensures
            ascending(ids@),
            forall|id: u32| #[trigger] ids@.contains(id) == self.allows(s, id),
            !ids@.contains(self.vocabulary@.eos_token_id),
    {
        proof {
            use_type_invariant(&self.vocabulary);
        }
        let ghost records = self.vocabulary@.records;
        let mask: Vec<u32> = self.allowed_mask(s);
        let width: usize = self.vocab_size();
        let mut ids: Vec<u32> = Vec::new();
        let mut id: usize = 0;
        while id < width
            invariant
                self.is_mask(s, mask@),
                canonical_valid(self.vocabulary@),
                width == self.vocabulary@.mask_vocab_size,
                id <= width,
                ascending(ids@),
                forall|k: int| 0 <= k < ids@.len() ==> (#[trigger] ids@[k]) < id,
                forall|t: u32| t < id ==> #[trigger] ids@.contains(t) == self.allows(s, t),
            decreases width - id,
        {
            let word: u32 = mask[id / 32];
            let bit: u32 = (id % 32) as u32;
            let ghost before = ids@;
            assert(mask_bit(mask@, id as int) == self.allows(s, id as u32));
            if (word >> bit) & 1 == 1 {
                ids.push(id as u32);
            }
            proof {
                assert forall|t: u32| t < id + 1 implies #[trigger] ids@.contains(t) == self.allows(
                    s,
                    t,
                ) by {
                    if t < id {
                        assert(before.contains(t) == self.allows(s, t));
                        if before.contains(t) {
                            let k = before.index_of(t);
                            assert(ids@[k] == t);
                        }
                        if ids@.contains(t) {
                            let k = ids@.index_of(t);
                            assert(before[k] == t);
                        }
                    } else if self.allows(s, t) {
                        assert(ids@[before.len() as int] == t);
                    } else if ids@.contains(t) {
                        let k = ids@.index_of(t);
                        assert(ids@[k] < id);
                    }
                }
            }
            id = id + 1;
        }
        proof {
            assert forall|t: u32| #[trigger] ids@.contains(t) == self.allows(s, t) by {
                if t >= width {
                    if self.allows(s, t) {
                        let key = choose|key: Seq<u8>| #[trigger]
                            allowed_by(self.engine, records, s, key, t);
                        assert(assigns(records, key, t));
                    }
                    if ids@.contains(t) {
                        let k = ids@.index_of(t);
                        assert(ids@[k] < width);
                    }
                }
            }
            eos_is_never_allowed(*self, s);
        }
        ids
    }

    /// The masks at `states`, row by row.
    pub fn mask_words(&self, states: &[u32]) -> (words: Vec<u32>)
        requires
            self.wf(),
        ensures
            words@.len() == states@.len() * self.row_len(),
            forall|i: int|
                0 <= i < states@.len() ==> self.is_mask(
                    states@[i],
                    #[trigger] words@.subrange(
                        i * self.row_len(),
                        (i + 1) * self.row_len(),
                    ),
                ),
    {
        let ghost n = self.row_len() as int;
        let mut words: Vec<u32> = Vec::new();
        let mut i: usize = 0;
        while i < states.len()
            invariant
                self.wf(),
                n == self.row_len(),
                i <= states@.len(),
                words@.len() == i * n,
                forall|k: int|
                    0 <= k < i ==> self.is_mask(
                        states@[k],
                        #[trigger] words@.subrange(k * n, (k + 1) * n),
                    ),
            decreases states@.len() - i,
        {
            let mut row: Vec<u32> = self.allowed_mask(states[i]);
            let ghost mask = row@;
            let ghost before = words@;
            words.append(&mut row);
            proof {
                assert((i + 1) * n == i * n + n) by (nonlinear_arith);
                assert forall|k: int| 0 <= k < i + 1 implies self.is_mask(
                    states@[k],
                    #[trigger] words@.subrange(k * n, (k + 1) * n),
                ) by {
                    if k < i {
                        assert((k + 1) * n <= i * n) by (nonlinear_arith)
                            requires
                                k < i,
                                n >= 0,
                        ;
                        assert(0 <= k * n) by (nonlinear_arith)
                            requires
                                k >= 0,
                                n >= 0,
                        ;
                        assert((k + 1) * n == k * n + n) by (nonlinear_arith);
                        assert(words@.subrange(k * n, (k + 1) * n) =~= before.subrange(
                            k * n,
                            (k + 1) * n,
                        ));
                    } else {
                        assert(words@.subrange(k * n, (k + 1) * n) =~= mask);
                    }
                }
            }
            i = i + 1;
        }
        words
    }

    /// Fills a caller's buffer with the masks at `states`; the buffer must be exactly as long as
    /// they are.
    pub fn write_mask_into(&self, states: &[u32], out: &mut Vec<u32>) -> (r: Result<
        (),
        CompileError,
    >)
        requires
            self.wf(),
        ensures
            match r {
                Ok(()) => {
                    &&& final(out)@.len() == states@.len() * self.row_len()
                    &&& forall|i: int|
                        0 <= i < states@.len() ==> self.is_mask(
                            states@[i],
                            #[trigger] final(out)@.subrange(
                                i * self.row_len(),
                                (i + 1) * self.row_len(),
                            ),
                        )
                },
                Err(e) => final(out)@ == old(out)@ && e@ == plain_error(
                    ErrorCode::ArtifactOutOfBounds,
                    Stage::ArtifactValidate,
                    "mask buffer length does not match the states"@,
                ),
            },
            r is Ok <==> old(out)@.len() == states@.len() * self.row_len(),
    {
        let words: Vec<u32> = self.mask_words(states);
        if out.len() != words.len() {
            return Err(
                CompileError::new(
                    ErrorCode::ArtifactOutOfBounds,
                    Stage::ArtifactValidate,
                    "mask buffer length does not match the states",
                ),
            );
        }
        *out = words;
        Ok(())
    }

    /// The states and moves of the artifact: at each state the tokens that may come next, each
    /// with the state that it leads to.
    pub fn graph(&self) -> (g: StateGraph)
        requires
            self.wf(),
        ensures
            g.wf(),
            self.is_graph(g),
            forall|s: u32, t: u32|
                s < self.engine.count() ==> (#[trigger] g.leads(s, t) <==> exists|id: u32| #[trigger]
                    self.advanced(s, id) == Some(t)),
    {
        let n: usize = self.engine.accepting.len();
        let mut moves: Vec<Vec<(u32, u32)>> = Vec::new();
        let mut accepting: Vec<bool> = Vec::new();
        let mut s: usize = 0;
        while s < n
            invariant
                self.wf(),
                n == self.engine.count(),
                s <= n,
                moves@.len() == s,
                accepting@ =~= self.engine.accepting@.take(s as int),
                forall|k: int| 0 <= k < s ==> self.lists_moves(k as u32, (#[trigger] moves@[k])@),
            decreases n - s,
        {
            let row: Vec<(u32, u32)> = self.moves_from(s as u32);
            moves.push(row);
            accepting.push(self.engine.accepting[s]);
            s = s + 1;
        }
        assert(accepting@ =~= self.engine.accepting@);
        let g = StateGraph { start: self.engine.start, moves, accepting };
        proof {
            assert forall|a: int, k: int|
                0 <= a < g.moves@.len() && 0 <= k < g.moves@[a]@.len() implies (
            #[trigger] g.moves@[a]@[k]).1 < g.moves@.len() by {
                assert(self.lists_moves(a as u32, g.moves@[a]@));
                let m = g.moves@[a]@[k];
                assert(self.advanced(a as u32, m.0) == Some(m.1));
                self.advanced_bounds(a as u32, m.0);
            }
            assert forall|a: u32, t: u32| a < self.engine.count() implies (#[trigger] g.leads(a, t)
                <==> exists|id: u32| #[trigger] self.advanced(a, id) == Some(t)) by {
                assert(self.lists_moves(a, g.moves@[a as int]@));
                if g.leads(a, t) {
                    let k = choose|k: int| #[trigger] g.leads_by(a, k, t);
                    let m = g.moves@[a as int]@[k];
                    assert(self.advanced(a, m.0) == Some(t));
                }
                if exists|id: u32| #[trigger] self.advanced(a, id) == Some(t) {
                    let id = choose|id: u32| #[trigger] self.advanced(a, id) == Some(t);
                    assert(self.allows(a, id));
                    let k = choose|k: int|
                        0 <= k < g.moves@[a as int]@.len() && (#[trigger] g.moves@[a as int]@[k]).0
                            == id;
                    assert(g.leads_by(a, k, t));
                }
            }
        }
        g
    }

    /// `g` has the artifact's states, and at each the tokens that may come next.
    pub open spec fn is_graph(&self, g: StateGraph) -> bool {
        &&& g.start == self.engine.start
        &&& g.accepting@ == self.engine.accepting@
        &&& g.moves@.len() == self.engine.count()
        &&& forall|s: int|
            0 <= s < self.engine.count() ==> self.lists_moves(s as u32, (#[trigger] g.moves@[s])@)
    }

    /// `moves` lists each token that may come next at `s`, with the state that it leads to.
    pub open spec fn lists_moves(&self, s: u32, moves: Seq<(u32, u32)>) -> bool {
        &&& forall|k: int|
            0 <= k < moves.len() ==> self.advanced(s, (#[trigger] moves[k]).0) == Some(moves[k].1)
        &&& forall|id: u32| #[trigger]
            self.allows(s, id) ==> exists|k: int|
                0 <= k < moves.len() && (#[trigger] moves[k]).0 == id
    }

    proof fn advanced_bounds(&self, s: u32, id: u32)
        requires
            self.wf(),
        ensures
            self.advanced(s, id) is Some ==> self.advanced(s, id)->Some_0 < self.engine.count(),
    {
        if self.advanced(s, id) is Some {
            let key = choose|key: Seq<u8>| #[trigger]
                allowed_by(self.engine, self.vocabulary@.records, s, key, id);
            self.engine.run_bounds(s, key);
        }
    }

    fn moves_from(&self, s: u32) -> (moves: Vec<(u32, u32)>)
        requires
            self.wf(),
        ensures
            self.lists_moves(s, moves@),
    {
        let ids: Vec<u32> = self.allowed_ids(s);
        let mut moves: Vec<(u32, u32)> = Vec::new();
        let mut i: usize = 0;
        while i < ids.len()
            invariant
                self.wf(),
                i <= ids@.len(),
                moves@.len() == i,
                forall|id: u32| #[trigger] ids@.contains(id) == self.allows(s, id),
                forall|k: int|
                    0 <= k < i ==> (#[trigger] moves@[k]).0 == ids@[k] && self.advanced(
                        s,
                        moves@[k].0,
                    ) == Some(moves@[k].1),
            decreases ids@.len() - i,
        {
            assert(ids@.contains(ids@[i as int]));
            match self.advance(s, ids[i]) {
                Ok(t) => moves.push((ids[i], t)),
                Err(_) => unreached(),
            }
            i = i + 1;
        }
        proof {
            assert forall|id: u32| #[trigger] self.allows(s, id) implies exists|k: int|
                0 <= k < moves@.len() && (#[trigger] moves@[k]).0 == id by {
                assert(ids@.contains(id));
                let k = ids@.index_of(id);
                assert(moves@[k].0 == id);
            }
        }
        moves
    }
}

/// The record `k` holds the token, and its byte string walks to a live state.
spec fn holds_live(
    engine: ByteEngine,
    records: Seq<(Seq<u8>, Seq<u32>)>,
    s: u32,
    k: int,
    id: u32,
) -> bool {
    0 <= k < records.len() && records[k].1.contains(id) && engine.walked(s, records[k].0) is Some
}

/// A walk over the artifact's graph goes on by the smallest token that may come next, to where
/// advancing by it leads, and ends only at a state that accepts or that no token leads on from.
pub proof fn walks_take_the_smallest_token(a: CompiledArtifact, g: StateGraph, s: u32)
    requires
        a.is_graph(g),
        s < a.engine.count(),
    ensures
        match next_on_walk(g, s) {
            Some(t) => !a.engine.accepting@[s as int] && exists|id: u32|
                {
                    &&& #[trigger] a.allows(s, id)
                    &&& a.advanced(s, id) == Some(t)
                    &&& forall|other: u32| #[trigger] a.allows(s, other) ==> id <= other
                },
            None => a.engine.accepting@[s as int] || forall|id: u32| !#[trigger] a.allows(s, id),
        },
{
    let moves = g.moves@[s as int]@;
    assert(a.lists_moves(s, moves));
    if next_on_walk(g, s) is Some {
        some_move_is_smallest(moves);
        let k = choose|k: int| is_smallest_move(moves, k);
        let id = moves[k].0;
        assert(a.advanced(s, id) == Some(moves[k].1));
        assert(a.allows(s, id));
        assert forall|other: u32| #[trigger] a.allows(s, other) implies id <= other by {
            let q = choose|q: int| 0 <= q < moves.len() && (#[trigger] moves[q]).0 == other;
            assert(moves[k].0 <= moves[q].0);
        }
    }
}

/// A token is in the mask exactly where advancing by it succeeds.
pub proof fn mask_is_what_advances(a: CompiledArtifact, s: u32, mask: Seq<u32>, id: u32)
    requires
        a.is_mask(s, mask),
        id < 32 * mask.len(),
    ensures
        mask_bit(mask, id as int) <==> a.advanced(s, id) is Some,
{
    assert(mask_bit(mask, id as int) == a.allows(s, id));
    if a.allows(s, id) {
        let key = choose|key: Seq<u8>| #[trigger]
            allowed_by(a.engine, a.vocabulary@.records, s, key, id);
        assert(allowed_by(a.engine, a.vocabulary@.records, s, key, id));
    }
}

/// Words that agree in every bit from `k` on agree when shifted by `k`.
proof fn same_bits_from(a: u32, b: u32, k: u32)
    requires
        k < 32,
        forall|j: u32| k <= j < 32 ==> ((#[trigger] (a >> j)) & 1u32 == 1u32) == ((b >> j) & 1u32
            == 1u32),
    ensures
        a >> k == b >> k,
    decreases 32 - k,
{
    assert((a >> k) & 1u32 == 1u32 <==> (b >> k) & 1u32 == 1u32);
    if k == 31 {
        assert(a >> 31u32 == b >> 31u32) by (bit_vector)
            requires
                (a >> 31u32) & 1u32 == 1u32 <==> (b >> 31u32) & 1u32 == 1u32,
        ;
    } else {
        let n: u32 = (k + 1) as u32;
        same_bits_from(a, b, n);
        assert(a >> k == b >> k) by (bit_vector)
            requires
                k < 31,
                n == k + 1,
                a >> n == b >> n,
                (a >> k) & 1u32 == 1u32 <==> (b >> k) & 1u32 == 1u32,
        ;
    }
}

/// There is one mask at each state: whatever computes it, the words are the same.
pub proof fn mask_is_unique(artifact: CompiledArtifact, s: u32, a: Seq<u32>, b: Seq<u32>)
    requires
        artifact.is_mask(s, a),
        artifact.is_mask(s, b),
    ensures
        a == b,
{
    assert forall|w: int| 0 <= w < a.len() implies a[w] == b[w] by {
        let x = a[w];
        let y = b[w];
        assert forall|j: u32| 0 <= j < 32 implies ((#[trigger] (x >> j)) & 1u32 == 1u32) == ((y
            >> j) & 1u32 == 1u32) by {
            let id = 32 * w + j;
            assert(id / 32 == w && id % 32 == j);
            assert(mask_bit(a, id) == artifact.allows(s, id as u32));
            assert(mask_bit(b, id) == artifact.allows(s, id as u32));
        }
        same_bits_from(x, y, 0);
        assert(x >> 0u32 == x && y >> 0u32 == y) by (bit_vector);
    }
    assert(a =~= b);
}

/// The end-of-sequence token is never in a mask.
pub proof fn eos_is_never_allowed(a: CompiledArtifact, s: u32)
    requires
        canonical_valid(a.vocabulary@),
    ensures
        !a.allows(s, a.vocabulary@.eos_token_id),
{
    let eos = a.vocabulary@.eos_token_id;
    if a.allows(s, eos) {
        let key = choose|key: Seq<u8>| #[trigger]
            allowed_by(a.engine, a.vocabulary@.records, s, key, eos);
        assert(assigns(a.vocabulary@.records, key, eos));
    }
}

/// The ids of one byte string are in a mask together, or none of them is.
pub proof fn ids_of_one_string_go_together(
    a: CompiledArtifact,
    s: u32,
    key: Seq<u8>,
    x: u32,
    y: u32,
)
    requires
        canonical_valid(a.vocabulary@),
        assigns(a.vocabulary@.records, key, x),
        assigns(a.vocabulary@.records, key, y),
    ensures
        a.allows(s, x) == a.allows(s, y),
{
    let records = a.vocabulary@.records;
    if a.allows(s, x) {
        let k = choose|k: Seq<u8>| #[trigger] allowed_by(a.engine, records, s, k, x);
        token_bytes_are_unique(a.vocabulary@, x, key, k);
        assert(allowed_by(a.engine, records, s, key, y));
    }
    if a.allows(s, y) {
        let k = choose|k: Seq<u8>| #[trigger] allowed_by(a.engine, records, s, k, y);
        token_bytes_are_unique(a.vocabulary@, y, key, k);
        assert(allowed_by(a.engine, records, s, key, x));
    }
}

/// At the dead state, and at a state that there is not, no token is allowed.
pub proof fn dead_states_allow_nothing(a: CompiledArtifact, s: u32, id: u32)
    requires
        a.wf(),
        s == a.engine.dead || s >= a.engine.count(),
    ensures
        !a.allows(s, id),
{
    if a.allows(s, id) {
        let key = choose|key: Seq<u8>| #[trigger]
            allowed_by(a.engine, a.vocabulary@.records, s, key, id);
        if s == a.engine.dead {
            dead_is_permanent(a.engine, key);
        }
    }
}

/// A position in an artifact.
#[derive(Clone, Copy, Debug, PartialEq, Eq, Structural)]
pub struct Matcher {
    pub state: u32,
}

impl Matcher {
    /// The start of an artifact.
    pub fn new(artifact: &CompiledArtifact) -> (m: Matcher)
        ensures
            m.state == artifact.engine.start,
    {
        Matcher { state: artifact.start() }
    }

    /// Consumes a token, or leaves the position as it is.
    pub fn advance(&mut self, artifact: &CompiledArtifact, token: u32) -> (r: Result<
        (),
        MatcherError,
    >)
        requires
            artifact.wf(),
        ensures
            match artifact.advanced(old(self).state, token) {
                Some(t) => r is Ok && final(self).state == t,
                None => r == Err::<(), MatcherError>(MatcherError::IllegalToken { token })
                    && *final(self) == *old(self),
            },
    {
        match artifact.advance(self.state, token) {
            Ok(t) => {
                self.state = t;
                Ok(())
            },
            Err(_) => Err(MatcherError::IllegalToken { token }),
        }
    }
}

} // verus!
