use taskforest::ordered_map::PersistentIndexMap;

const KEY1: u128 = 1;
const KEY2: u128 = 2;
const KEY3: u128 = 3;

fn entries(map: &PersistentIndexMap<i32>) -> Vec<(u128, i32)> {
    map.keys_to_vec().into_iter().map(|k| (k, *map.get(&k).unwrap())).collect()
}

#[test]
fn test_insert() {
    let map = PersistentIndexMap::new();
    let map = map.insert(KEY1, 10);
    let map = map.insert(KEY2, 20);
    assert_eq!(map.get(&KEY1), Some(&10));
    assert_eq!(map.get(&KEY2), Some(&20));
    assert_eq!(map.len(), 2);
}

#[test]
fn test_insert_existing_key() {
    let map = PersistentIndexMap::new();
    let map = map.insert(KEY1, 10);
    let map = map.insert(KEY1, 30);
    assert_eq!(map.get(&KEY1), Some(&30));
    assert_eq!(map.len(), 1);
}

#[test]
fn insert_existing_key_keeps_position() {
    let map = PersistentIndexMap::new().insert(KEY1, 10).insert(KEY2, 20).insert(KEY1, 30);
    assert_eq!(entries(&map), vec![(KEY1, 30), (KEY2, 20)]);
}

#[test]
fn test_remove() {
    let map = PersistentIndexMap::new();
    let map = map.insert(KEY1, 10);
    let map = map.insert(KEY2, 20);
    let map = map.remove(&KEY1);
    assert_eq!(map.get(&KEY1), None);
    assert_eq!(map.get(&KEY2), Some(&20));
    assert_eq!(map.len(), 1);
}

#[test]
fn test_remove_nonexistent_key() {
    let map = PersistentIndexMap::new();
    let map = map.insert(KEY1, 10);
    let map = map.remove(&KEY2);
    assert_eq!(map.get(&KEY1), Some(&10));
    assert_eq!(map.len(), 1);
}

#[test]
fn edits_leave_the_receiver_unchanged() {
    let map = PersistentIndexMap::new().insert(KEY1, 10);
    let bigger = map.insert(KEY2, 20);
    let smaller = map.remove(&KEY1);
    assert_eq!(entries(&map), vec![(KEY1, 10)]);
    assert_eq!(bigger.len(), 2);
    assert_eq!(smaller.len(), 0);
}

#[test]
fn test_swap() {
    let map = PersistentIndexMap::new();
    let map = map.insert(KEY1, 10);
    let map = map.insert(KEY2, 20);
    let map = map.insert(KEY3, 30);
    if let Some(map) = map.swap(&KEY1, &KEY3) {
        assert_eq!(entries(&map), vec![(KEY3, 30), (KEY2, 20), (KEY1, 10)]);
    } else {
        panic!("Swap failed");
    }
}

#[test]
fn test_swap_nonexistent_keys() {
    let map = PersistentIndexMap::new();
    let map = map.insert(KEY1, 10);
    assert!(map.swap(&KEY1, &KEY2).is_none());
}

#[test]
fn test_iter_in_order() {
    let map = PersistentIndexMap::new();
    let map = map.insert(KEY1, 10);
    let map = map.insert(KEY2, 20);
    let map = map.insert(KEY3, 30);
    assert_eq!(entries(&map), vec![(KEY1, 10), (KEY2, 20), (KEY3, 30)]);
    assert_eq!(*map.value_at(0), 10);
    assert_eq!(*map.value_at(2), 30);
}

#[test]
fn test_clear() {
    let map = PersistentIndexMap::new();
    let map = map.insert(KEY1, 10);
    let map = map.insert(KEY2, 20);
    let map = map.clear();
    assert!(map.is_empty());
    assert_eq!(map.len(), 0);
    assert_eq!(map.get(&KEY1), None);
}

#[test]
fn test_order_preservation_after_removal() {
    let map = PersistentIndexMap::new();
    let map = map.insert(KEY1, 10);
    let map = map.insert(KEY2, 20);
    let map = map.insert(KEY3, 30);
    let map = map.remove(&KEY2);
    assert_eq!(entries(&map), vec![(KEY1, 10), (KEY3, 30)]);
}

#[test]
fn test_get_key_at_index_out_of_bounds() {
    let map = PersistentIndexMap::new();
    let map = map.insert(KEY1, 10);
    assert!(map.get_key_at_index(1).is_none());
}

#[test]
fn test_clear_preserves_structure() {
    let map = PersistentIndexMap::new();
    let map = map.insert(KEY1, 10);
    let map = map.clear();
    assert_eq!(map.len(), 0);
    assert!(map.is_empty());
    assert!(map.get(&KEY1).is_none());
}

#[test]
fn test_get_index() {
    let map = PersistentIndexMap::new();
    let map = map.insert(KEY1, 10);
    let map = map.insert(KEY2, 20);
    assert_eq!(map.get_index(&KEY1), Some(0));
    assert_eq!(map.get_index(&KEY2), Some(1));
    assert_eq!(map.get_index(&KEY3), None);
}

#[test]
fn test_contains_key() {
    let map = PersistentIndexMap::new();
    let map = map.insert(KEY1, 10);
    assert!(map.contains_key(&KEY1));
    assert!(!map.contains_key(&KEY2));
}

#[test]
fn test_keys() {
    let map = PersistentIndexMap::new();
    let map = map.insert(KEY1, 10);
    let map = map.insert(KEY2, 20);
    assert_eq!(map.len(), 2);
    assert_eq!(map.get_key_at_index(0), Some(&KEY1));
    assert_eq!(map.get_key_at_index(1), Some(&KEY2));
}

#[test]
fn test_keys_to_vec() {
    let map = PersistentIndexMap::new();
    let map = map.insert(KEY1, 10);
    let map = map.insert(KEY2, 20);
    let keys_vec = map.keys_to_vec();
    assert_eq!(keys_vec.len(), 2);
    assert_eq!(keys_vec[0], KEY1);
    assert_eq!(keys_vec[1], KEY2);
}

#[test]
fn maps_are_equal_when_keys_values_and_order_agree() {
    let a = PersistentIndexMap::new().insert(KEY1, 10).insert(KEY2, 20);
    let b = PersistentIndexMap::new().insert(KEY1, 10).insert(KEY2, 20);
    let swapped = PersistentIndexMap::new().insert(KEY2, 20).insert(KEY1, 10);
    let other_value = PersistentIndexMap::new().insert(KEY1, 10).insert(KEY2, 21);
    assert!(a.eq(&b));
    assert!(!a.eq(&swapped));
    assert!(!a.eq(&other_value));
    assert!(!a.eq(&a.remove(&KEY2)));
}
