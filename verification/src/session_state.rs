//! Bookkeeping of one decoding session: the schemas a value must satisfy, and the
//! property names seen so far.

use vstd::prelude::*;
use vstd::slice::slice_subrange;

verus! {

/// A node of a compiled plan.
#[derive(Clone, Copy, Debug, PartialEq, Eq, Structural)]
pub struct NodeId(pub u32);

/// A property name held in a [`KeyArena`].
#[derive(Clone, Copy, Debug, PartialEq, Eq, Structural)]
pub struct KeyId(pub u32);

/// How many obligations are kept without a heap allocation.
pub const MAX_INLINE_OBLIGATIONS: usize = 4;

/// The distinct schemas that one value must satisfy together, in the order in which they came up.
/// The first few are kept inline; the rest spill to the heap.
#[derive(Clone, Debug)]
pub struct SchemaObligationSet {
    pub inline: [NodeId; 4],
    pub inline_len: u8,
    pub spill: Vec<NodeId>,
}

impl SchemaObligationSet {
    /// The schemas, in order.
    pub open spec fn nodes(&self) -> Seq<NodeId> {
        self.inline@.take(self.inline_len as int) + self.spill@
    }

    /// Each schema is listed once, and the heap is used only when the inline room is full.
    pub open spec fn wf(&self) -> bool {
        &&& self.inline_len <= MAX_INLINE_OBLIGATIONS
        &&& self.spill@.len() > 0 ==> self.inline_len == MAX_INLINE_OBLIGATIONS
        &&& self.nodes().no_duplicates()
    }

    /// No schemas.
    pub fn new() -> (set: SchemaObligationSet)
        ensures
            set.wf(),
            set.nodes() == Seq::<NodeId>::empty(),
    {
        let set = SchemaObligationSet {
            inline: [NodeId(0), NodeId(0), NodeId(0), NodeId(0)],
            inline_len: 0,
            spill: Vec::new(),
        };
        assert(set.nodes() =~= Seq::<NodeId>::empty());
        set
    }

    /// How many schemas there are.
    pub fn len(&self) -> (n: usize)
        requires
            self.wf(),
            self.nodes().len() <= usize::MAX,
        ensures
            n == self.nodes().len(),
    {
        self.inline_len as usize + self.spill.len()
    }

    /// Whether the value must satisfy `node`.
    pub fn contains(&self, node: NodeId) -> (r: bool)
        requires
            self.wf(),
        ensures
            r == self.nodes().contains(node),
    {
        let ghost all = self.nodes();
        let mut i: usize = 0;
        while i < self.inline_len as usize
            invariant
                self.wf(),
                all == self.nodes(),
                i <= self.inline_len,
                forall|k: int| 0 <= k < i ==> all[k] != node,
            decreases self.inline_len - i,
        {
            assert(all[i as int] == self.inline@[i as int]);
            if self.inline[i] == node {
                return true;
            }
            i = i + 1;
        }
        let mut j: usize = 0;
        while j < self.spill.len()
            invariant
                self.wf(),
                all == self.nodes(),
                j <= self.spill@.len(),
                forall|k: int| 0 <= k < self.inline_len + j ==> all[k] != node,
            decreases self.spill@.len() - j,
        {
            assert(all[self.inline_len + j] == self.spill@[j as int]);
            if self.spill[j] == node {
                return true;
            }
            j = j + 1;
        }
        false
    }

    /// Adds a schema unless it is there already; says whether it was added.
    pub fn insert_uncounted(&mut self, node: NodeId) -> (added: bool)
        requires
            old(self).wf(),
        ensures
            final(self).wf(),
            added == !old(self).nodes().contains(node),
            final(self).nodes() == if added {
                old(self).nodes().push(node)
            } else {
                old(self).nodes()
            },
    {
        if self.contains(node) {
            return false;
        }
        let ghost before = self.nodes();
        if (self.inline_len as usize) < MAX_INLINE_OBLIGATIONS {
            let at: usize = self.inline_len as usize;
            assert(self.spill@.len() == 0);
            let mut inline: [NodeId; 4] = self.inline;
            inline[at] = node;
            self.inline = inline;
            self.inline_len = self.inline_len + 1;
        } else {
            self.spill.push(node);
        }
        assert(self.nodes() =~= before.push(node));
        true
    }

    /// The schemas, in the order in which they were added.
    pub fn iter(&self) -> (items: Vec<NodeId>)
        requires
            self.wf(),
        ensures
            items@ == self.nodes(),
    {
        let mut items: Vec<NodeId> = Vec::new();
        let mut i: usize = 0;
        while i < self.inline_len as usize
            invariant
                self.wf(),
                i <= self.inline_len,
                items@ =~= self.inline@.take(i as int),
            decreases self.inline_len - i,
        {
            items.push(self.inline[i]);
            i = i + 1;
        }
        let mut j: usize = 0;
        while j < self.spill.len()
            invariant
                self.wf(),
                j <= self.spill@.len(),
                items@ =~= self.inline@.take(self.inline_len as int) + self.spill@.take(j as int),
            decreases self.spill@.len() - j,
        {
            items.push(self.spill[j]);
            j = j + 1;
        }
        assert(self.spill@.take(j as int) =~= self.spill@);
        items
    }
}

impl Default for SchemaObligationSet {
    fn default() -> (set: SchemaObligationSet)
        ensures
            set.wf(),
            set.nodes() == Seq::<NodeId>::empty(),
    {
        SchemaObligationSet::new()
    }
}

/// The property names that share one hash: almost always one, more on a collision.
#[derive(Clone, Debug, PartialEq, Eq)]
pub enum DynamicSlot {
    One(KeyId),
    Many(Vec<KeyId>),
}

/// What adding one name does to a slot.
#[derive(Clone, Copy, Debug, PartialEq, Eq, Structural)]
pub enum SlotTransition {
    /// An empty slot becomes a slot of one.
    ToOne,
    /// A slot of one becomes a list of two.
    ToMany2 { existing: KeyId },
    /// A list grows.
    ToManyPush { old_len: usize },
}

/// The names in a slot, in the order in which they came.
pub open spec fn slot_keys(slot: Option<DynamicSlot>) -> Seq<KeyId> {
    match slot {
        None => seq![],
        Some(DynamicSlot::One(id)) => seq![id],
        Some(DynamicSlot::Many(ids)) => ids@,
    }
}

/// How a slot changes when a name is added.
pub open spec fn slot_transition(slot: Option<DynamicSlot>) -> SlotTransition {
    match slot {
        None => SlotTransition::ToOne,
        Some(DynamicSlot::One(existing)) => SlotTransition::ToMany2 { existing },
        Some(DynamicSlot::Many(ids)) => SlotTransition::ToManyPush { old_len: ids.len() },
    }
}

/// Tells how a slot changes when a name is added.
pub fn classify_slot_transition(slot: Option<&DynamicSlot>) -> (t: SlotTransition)
    ensures
        t == match slot {
            None => slot_transition(None),
            Some(s) => slot_transition(Some(*s)),
        },
{
    match slot {
        None => SlotTransition::ToOne,
        Some(DynamicSlot::One(existing)) => SlotTransition::ToMany2 { existing: *existing },
        Some(DynamicSlot::Many(ids)) => SlotTransition::ToManyPush { old_len: ids.len() },
    }
}

/// The slot with one more name, behind those it holds.
pub fn slot_with_key(slot: Option<DynamicSlot>, id: KeyId) -> (grown: DynamicSlot)
    ensures
        slot_keys(Some(grown)) == slot_keys(slot).push(id),
        match slot_transition(slot) {
            SlotTransition::ToOne => grown == DynamicSlot::One(id),
            _ => grown is Many,
        },
{
    match slot {
        None => {
            assert(seq![id] =~= Seq::<KeyId>::empty().push(id));
            DynamicSlot::One(id)
        },
        Some(DynamicSlot::One(existing)) => {
            let mut ids: Vec<KeyId> = Vec::new();
            ids.push(existing);
            ids.push(id);
            assert(ids@ =~= seq![existing].push(id));
            DynamicSlot::Many(ids)
        },
        Some(DynamicSlot::Many(mut ids)) => {
            ids.push(id);
            DynamicSlot::Many(ids)
        },
    }
}

/// Property names, end to end in one buffer, found again by their number.
#[derive(Clone, Debug, PartialEq, Eq)]
pub struct KeyArena {
    pub bytes: Vec<u8>,
    pub ends: Vec<usize>,
}

impl KeyArena {
    /// Where the name `i` starts.
    pub open spec fn start(&self, i: int) -> int {
        if i == 0 {
            0
        } else {
            self.ends@[i - 1] as int
        }
    }

    /// The names lie side by side and fill the buffer.
    pub open spec fn wf(&self) -> bool {
        &&& forall|i: int|
            0 <= i < self.ends@.len() ==> self.start(i) <= #[trigger] self.ends@[i]
                <= self.bytes@.len()
        &&& self.start(self.ends@.len() as int) == self.bytes@.len()
    }

    /// The names, by number.
    pub open spec fn keys(&self) -> Seq<Seq<u8>> {
        Seq::new(
            self.ends@.len(),
            |i: int| self.bytes@.subrange(self.start(i), self.ends@[i] as int),
        )
    }

    /// No names.
    pub fn new() -> (arena: KeyArena)
        ensures
            arena.wf(),
            arena.keys() == Seq::<Seq<u8>>::empty(),
    {
        let arena = KeyArena { bytes: Vec::new(), ends: Vec::new() };
        assert(arena.keys() =~= Seq::<Seq<u8>>::empty());
        arena
    }

    /// The name `id`, or nothing for an id that the arena does not hold.
    pub fn get(&self, id: KeyId) -> (key: Option<&[u8]>)
        requires
            self.wf(),
        ensures
            match key {
                Some(k) => id.0 < self.keys().len() && k@ == self.keys()[id.0 as int],
                None => id.0 >= self.keys().len(),
            },
    {
        let i: usize = id.0 as usize;
        if i >= self.ends.len() {
            return None;
        }
        let start: usize = if i == 0 {
            0
        } else {
            self.ends[i - 1]
        };
        assert(self.start(i as int) <= self.ends@[i as int]);
        Some(slice_subrange(self.bytes.as_slice(), start, self.ends[i]))
    }

    /// Adds a name and gives it the next number, as long as numbers last.
    pub fn push(&mut self, key: &[u8]) -> (id: Option<KeyId>)
        requires
            old(self).wf(),
        ensures
            final(self).wf(),
            match id {
                Some(k) => k.0 == old(self).keys().len() && final(self).keys() == old(
                    self,
                ).keys().push(key@),
                None => old(self).keys().len() > u32::MAX && final(self).keys() == old(
                    self,
                ).keys(),
            },
    {
        if self.ends.len() > u32::MAX as usize {
            return None;
        }
        let id = KeyId(self.ends.len() as u32);
        let ghost before = self.keys();
        let ghost bytes0 = self.bytes@;
        let ghost ends0 = self.ends@;
        let ghost old_self = *self;
        self.bytes.extend_from_slice(key);
        assert(self.bytes@ =~= bytes0 + key@);
        let end: usize = self.bytes.len();
        self.ends.push(end);
        proof {
            assert forall|i: int| 0 <= i < self.ends@.len() implies self.start(i)
                <= #[trigger] self.ends@[i] <= self.bytes@.len() by {
                assert(self.start(i) == old_self.start(i));
                if i < ends0.len() {
                    assert(old_self.start(i) <= ends0[i]);
                }
            }
            let after = self.keys();
            assert forall|i: int| 0 <= i < after.len() implies after[i] == before.push(key@)[i] by {
                assert(self.start(i) == old_self.start(i));
                if i < ends0.len() {
                    assert(old_self.start(i) <= ends0[i]);
                    assert(self.bytes@.subrange(self.start(i), self.ends@[i] as int)
                        =~= bytes0.subrange(old_self.start(i), ends0[i] as int));
                } else {
                    assert(self.bytes@.subrange(self.start(i), self.ends@[i] as int) =~= key@);
                }
            }
            assert(after =~= before.push(key@));
        }
        Some(id)
    }

    /// Drops every name numbered `count` or above, and the bytes it held.
    pub fn truncate(&mut self, count: usize)
        requires
            old(self).wf(),
        ensures
            final(self).wf(),
            final(self).keys() == if count < old(self).keys().len() {
                old(self).keys().take(count as int)
            } else {
                old(self).keys()
            },
    {
        if count >= self.ends.len() {
            return ;
        }
        let ghost before = self.keys();
        let ghost old_self = *self;
        let end: usize = if count == 0 {
            0
        } else {
            self.ends[count - 1]
        };
        assert(end <= self.bytes@.len()) by {
            if count > 0 {
                assert(old_self.start(count - 1) <= old_self.ends@[count - 1]);
            }
        }
        self.bytes.truncate(end);
        self.ends.truncate(count);
        proof {
            assert forall|i: int| 0 <= i < self.ends@.len() implies self.start(i)
                <= #[trigger] self.ends@[i] <= self.bytes@.len() by {
                assert(self.start(i) == old_self.start(i));
                assert(old_self.start(i) <= old_self.ends@[i]);
                ends_ascend(old_self, i, count - 1);
            }
            let after = self.keys();
            assert forall|i: int| 0 <= i < after.len() implies after[i] == before[i] by {
                assert(self.start(i) == old_self.start(i));
                assert(old_self.start(i) <= old_self.ends@[i]);
                ends_ascend(old_self, i, count - 1);
                assert(after[i] =~= before[i]);
            }
            assert(after =~= before.take(count as int));
        }
    }
}

proof fn ends_ascend(arena: KeyArena, i: int, j: int)
    requires
        arena.wf(),
        0 <= i <= j < arena.ends@.len(),
    ensures
        arena.ends@[i] <= arena.ends@[j],
    decreases j - i,
{
    if i < j {
        ends_ascend(arena, i, j - 1);
        assert(arena.start(j) <= arena.ends@[j]);
    }
}

impl Default for KeyArena {
    fn default() -> (arena: KeyArena)
        ensures
            arena.wf(),
            arena.keys() == Seq::<Seq<u8>>::empty(),
    {
        KeyArena::new()
    }
}

} // verus!
