//! Session bookkeeping: obligations, dynamic slots and the key arena.

use maskforge::session_state::{
    classify_slot_transition, slot_with_key, DynamicSlot, KeyArena, KeyId, NodeId,
    SchemaObligationSet, SlotTransition, MAX_INLINE_OBLIGATIONS,
};

#[test]
fn duplicate_node_id_obligations_are_deduplicated() {
    let mut set = SchemaObligationSet::default();
    assert!(set.insert_uncounted(NodeId(3)));
    assert!(!set.insert_uncounted(NodeId(3)));
    assert_eq!(set.len(), 1);
}

#[test]
fn obligations_spill_past_four_and_keep_their_order() {
    let mut set = SchemaObligationSet::default();
    for i in 0..8u32 {
        assert!(set.insert_uncounted(NodeId(i)));
    }
    assert_eq!(set.len(), 8);
    assert_eq!(set.inline_len as usize, MAX_INLINE_OBLIGATIONS);
    assert_eq!(set.spill.len(), 4);
    assert_eq!(set.iter(), (0..8).map(NodeId).collect::<Vec<_>>());
    assert!(set.contains(NodeId(7)));
    assert!(!set.contains(NodeId(8)));
}

#[test]
fn slot_transition_classification_matches_bucket_shape() {
    assert!(matches!(
        classify_slot_transition(None),
        SlotTransition::ToOne
    ));
    let one = DynamicSlot::One(KeyId(7));
    assert!(matches!(
        classify_slot_transition(Some(&one)),
        SlotTransition::ToMany2 { existing: KeyId(7) }
    ));
    let many = DynamicSlot::Many(vec![KeyId(1), KeyId(2), KeyId(3)]);
    assert!(matches!(
        classify_slot_transition(Some(&many)),
        SlotTransition::ToManyPush { old_len: 3 }
    ));
}

#[test]
fn a_collision_upgrades_one_to_many_without_losing_a_key() {
    let (a, b, c) = (KeyId(1), KeyId(2), KeyId(3));
    let one = slot_with_key(None, a);
    assert_eq!(one, DynamicSlot::One(a));
    let two = slot_with_key(Some(one), b);
    assert_eq!(two, DynamicSlot::Many(vec![a, b]));
    let three = slot_with_key(Some(two), c);
    assert_eq!(three, DynamicSlot::Many(vec![a, b, c]));
}

#[test]
fn key_arena_get_on_a_stale_or_corrupt_id_returns_none_not_a_panic() {
    let arena = KeyArena::default();
    assert_eq!(arena.get(KeyId(0)), None);
    assert_eq!(arena.get(KeyId(u32::MAX)), None);
}

#[test]
fn key_arena_reclaims_truncated_keys() {
    let mut arena = KeyArena::default();
    let outer = arena.push(b"outer").unwrap();
    let inner = arena.push(b"inner").unwrap();
    assert_eq!(arena.get(outer), Some(b"outer".as_slice()));
    assert_eq!(arena.get(inner), Some(b"inner".as_slice()));
    arena.truncate(1);
    assert_eq!(arena.get(outer), Some(b"outer".as_slice()));
    assert_eq!(arena.get(inner), None);
    assert_eq!(arena.bytes.len(), 5);
}
