use gearley::vec2d::{Vec2d, Vec2dCapacity};

#[test]
fn fresh_store_is_empty() {
    let v: Vec2d<u32> = Vec2d::with_capacity(Vec2dCapacity { chart_capacity: 8, indices_capacity: 4 });
    assert_eq!(v.len(), 0);
    assert_eq!(v.item_count(), 0);
    assert!(v.last_item().is_none());
    assert!(v.get_item(0).is_none());
}

#[test]
fn push_and_seal_sets() {
    let mut v: Vec2d<u32> = Vec2d::with_capacity(Vec2dCapacity { chart_capacity: 0, indices_capacity: 0 });
    v.push_item(10);
    v.push_item(11);
    v.next_set();
    v.push_item(12);
    v.next_set();
    v.next_set();
    assert_eq!(v.len(), 3);
    assert_eq!(v.item_count(), 3);
    assert_eq!(v.set_slice(0), &[10, 11]);
    assert_eq!(v.set_slice(1), &[12]);
    assert_eq!(v.set_slice(2), &[] as &[u32]);
    assert_eq!(v.index_at(0), 0);
    assert_eq!(v.index_at(1), 2);
    assert_eq!(v.index_at(2), 3);
    assert_eq!(v.index_at(3), 3);
}

#[test]
fn last_views_the_open_set() {
    let mut v: Vec2d<u32> = Vec2d::default();
    v.push_item(1);
    v.next_set();
    v.push_item(2);
    v.push_item(3);
    assert_eq!(v.last(), &[2, 3]);
    assert_eq!(*v.last_item().unwrap(), 3);
    assert_eq!(*v.get_item(0).unwrap(), 1);
    assert_eq!(*v.get_item(2).unwrap(), 3);
}

#[test]
fn pop_takes_from_the_open_set() {
    let mut v: Vec2d<u32> = Vec2d::default();
    v.push_item(5);
    v.next_set();
    v.push_item(6);
    v.push_item(7);
    assert_eq!(v.pop_item(), Some(7));
    assert_eq!(v.pop_item(), Some(6));
    // popping never reaches into a sealed set
    assert_eq!(v.pop_item(), None);
    assert_eq!(v.last(), &[] as &[u32]);
    assert_eq!(v.set_slice(0), &[5]);
}

#[test]
fn extend_with_set_appends_and_seals() {
    let mut v: Vec2d<u32> = Vec2d::default();
    v.push_item(1);
    v.extend_with_set(vec![2, 3]);
    assert_eq!(v.len(), 1);
    assert_eq!(v.set_slice(0), &[1, 2, 3]);
    v.extend_with_set(vec![4]);
    assert_eq!(v.len(), 2);
    assert_eq!(v.set_slice(1), &[4]);
}

#[test]
fn truncate_keeps_prefix_and_open_tail() {
    let mut v: Vec2d<u32> = Vec2d::default();
    v.push_item(1);
    v.next_set();
    v.push_item(2);
    v.push_item(3);
    v.next_set();
    v.push_item(4);
    v.next_set();
    v.push_item(9);
    // three sealed sets, open tail [9]
    v.truncate(2);
    assert_eq!(v.len(), 1);
    assert_eq!(v.set_slice(0), &[1]);
    assert_eq!(v.last(), &[9]);
    assert_eq!(v.item_count(), 2);
}

#[test]
fn clear_resets_everything() {
    let mut v: Vec2d<u32> = Vec2d::default();
    v.push_item(1);
    v.next_set();
    v.push_item(2);
    v.clear();
    assert_eq!(v.len(), 0);
    assert_eq!(v.item_count(), 0);
    v.push_item(8);
    v.next_set();
    assert_eq!(v.set_slice(0), &[8]);
}
