use mesh_geometry_utils::ordered_sm::OrderedSlotMap;
use mesh_geometry_utils::vertices::Vertex;

fn splat(v: i32) -> Vertex {
    Vertex { x: v, y: v }
}

#[test]
fn test_ordered_sm_borrow_iter() {
    let vec_of_vec2 = vec![splat(0), splat(1), splat(2), splat(3)];
    let ordered_sm = OrderedSlotMap::from_vec(vec_of_vec2.clone());
    let collected = ordered_sm.get_all_owned();

    assert_eq!(vec_of_vec2, collected);
}

#[test]
fn test_ordered_sm_into_iter() {
    let vec_of_vec2 = vec![splat(0), splat(1), splat(2), splat(3)];
    let ordered_sm = OrderedSlotMap::from_vec(vec_of_vec2.clone());
    let mut collected = vec![];
    for item in ordered_sm.get_all_owned() {
        collected.push(item);
    }
    assert_eq!(vec_of_vec2, collected);
}

#[test]
fn test_ordered_sm_enumerate_iter() {
    let vec_of_vec2 = vec![splat(0), splat(1), splat(2), splat(3)];
    let ordered_sm = OrderedSlotMap::from_vec(vec_of_vec2.clone());
    let mut collected = vec![];
    for (_, item) in ordered_sm.enumerate() {
        collected.push(item);
    }
    assert_eq!(vec_of_vec2, collected);
}

#[test]
fn test_ordered_sm_insert_many() {
    let vec_of_vec2 = vec![splat(0), splat(1), splat(2), splat(3)];
    let mut ordered_sm = OrderedSlotMap::from_vec(vec_of_vec2.clone());
    ordered_sm.insert_many(2, vec![splat(10), splat(11)]);
    let mut collected = vec![];
    for (_, item) in ordered_sm.enumerate() {
        collected.push(item);
    }
    assert_eq!(
        vec![splat(0), splat(1), splat(10), splat(11), splat(2), splat(3)],
        collected
    );
}

#[test]
fn test_ordered_sm_push_and_get() {
    let mut sm: OrderedSlotMap<Vertex> = OrderedSlotMap::new();
    assert!(sm.is_empty());
    let a = sm.push(splat(7));
    let b = sm.push(splat(9));
    assert_eq!(sm.len(), 2);
    assert_ne!(a, b);
    assert_eq!(sm.get_owned(a), Some(splat(7)));
    assert_eq!(sm.get_owned(b), Some(splat(9)));
    assert_eq!(sm.get(a).copied(), Some(splat(7)));
    assert_eq!(sm.first().copied(), Some(splat(7)));
    assert_eq!(sm.last().copied(), Some(splat(9)));
}

#[test]
fn test_ordered_sm_remove_and_stale_ids() {
    let mut sm: OrderedSlotMap<Vertex> = OrderedSlotMap::new();
    let a = sm.push(splat(1));
    let b = sm.push(splat(2));
    let c = sm.push(splat(3));
    assert_eq!(sm.remove(b), Some(splat(2)));
    // A removed id is stale: every lookup answers None, never a new entry.
    assert_eq!(sm.get_owned(b), None);
    assert_eq!(sm.remove(b), None);
    assert_eq!(sm.ids(), vec![a, c]);
    let d = sm.push(splat(4));
    // The freed id is never reissued.
    assert_ne!(d, b);
    assert_eq!(sm.ids(), vec![a, c, d]);
}

#[test]
fn test_ordered_sm_prepend_and_insert() {
    let mut sm: OrderedSlotMap<Vertex> = OrderedSlotMap::new();
    let b = sm.push(splat(2));
    let a = sm.prepend(splat(1));
    let c = sm.insert(2, splat(3));
    let m = sm.insert(1, splat(9));
    assert_eq!(sm.ids(), vec![a, m, b, c]);
    assert_eq!(
        sm.get_all_owned(),
        vec![splat(1), splat(9), splat(2), splat(3)]
    );
}

#[test]
fn test_ordered_sm_prepend_many_keeps_order() {
    let mut sm: OrderedSlotMap<Vertex> = OrderedSlotMap::new();
    sm.push(splat(5));
    sm.prepend_many(vec![splat(1), splat(2)]);
    assert_eq!(sm.get_all_owned(), vec![splat(1), splat(2), splat(5)]);
}

#[test]
fn test_ordered_sm_remove_many() {
    let mut sm: OrderedSlotMap<Vertex> = OrderedSlotMap::new();
    let a = sm.push(splat(1));
    let b = sm.push(splat(2));
    let c = sm.push(splat(3));
    let removed = sm.remove_many(vec![a, c, a]);
    // The repeated id is already gone the second time.
    assert_eq!(removed, vec![splat(1), splat(3)]);
    assert_eq!(sm.ids(), vec![b]);
}

#[test]
fn test_ordered_sm_reverse() {
    let mut sm = OrderedSlotMap::from_vec(vec![splat(0), splat(1), splat(2)]);
    sm.reverse();
    assert_eq!(sm.get_all_owned(), vec![splat(2), splat(1), splat(0)]);
}

#[test]
fn test_ordered_sm_set_updates_value() {
    let mut sm: OrderedSlotMap<Vertex> = OrderedSlotMap::new();
    let a = sm.push(splat(1));
    let b = sm.push(splat(2));
    assert!(sm.set(a, splat(8)));
    assert_eq!(sm.get_all_owned(), vec![splat(8), splat(2)]);
    sm.remove(b);
    assert!(!sm.set(b, splat(9)));
    assert_eq!(sm.get_all_owned(), vec![splat(8)]);
}

#[test]
fn test_ordered_sm_clear_keeps_allocator() {
    let mut sm: OrderedSlotMap<Vertex> = OrderedSlotMap::new();
    let a = sm.push(splat(1));
    let count = sm.clear();
    assert_eq!(count, 1);
    assert!(sm.is_empty());
    let b = sm.push(splat(1));
    // A soft clear keeps the allocator: no id is ever reissued.
    assert_ne!(a, b);
}

#[test]
fn test_ordered_sm_clear_with_reset_reissues_ids() {
    let mut sm: OrderedSlotMap<Vertex> = OrderedSlotMap::new();
    let a = sm.push(splat(1));
    sm.clear_with_reset();
    let b = sm.push(splat(2));
    // A full reset restarts the allocator, so ids may repeat.
    assert_eq!(a, b);
}
