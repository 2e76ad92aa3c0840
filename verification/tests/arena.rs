use relay::arena::{Arena, NodeId};

#[test]
fn test_arena_basic() {
    let mut arena = Arena::new();
    let a = arena.add("hello");
    let b = arena.add("world");
    assert_eq!(arena.get(a), &"hello");
    assert_eq!(arena.get(b), &"world");
    assert_eq!(arena.len(), 2);
}

#[test]
fn test_arena_replace() {
    let mut arena = Arena::new();
    let id = arena.add(42);
    let old = arena.replace(id, 99);
    assert_eq!(old, 42);
    assert_eq!(arena.get(id), &99);
}

#[test]
fn arena_ids_are_positions_and_iter_in_order() {
    let mut arena: Arena<i32> = Arena::with_capacity(4);
    assert!(arena.is_empty());
    let ids: Vec<NodeId> = (0..3).map(|v| arena.add(v * 10)).collect();
    assert_eq!(ids, vec![NodeId(0), NodeId(1), NodeId(2)]);
    assert_eq!(ids[2].index(), 2);
    *arena.get_mut(NodeId(1)) = 7;
    let pairs: Vec<(NodeId, i32)> = arena.iter().into_iter().map(|(i, v)| (i, *v)).collect();
    assert_eq!(pairs, vec![(NodeId(0), 0), (NodeId(1), 7), (NodeId(2), 20)]);
    assert_eq!(NodeId::invalid(), NodeId(u32::MAX));
    let d: Arena<u8> = Arena::default();
    assert_eq!(d.len(), 0);
}
