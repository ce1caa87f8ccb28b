use collidea::collidea::CollideMap;

#[test]
fn new_map_is_empty() {
    let map: CollideMap<String, i32> = CollideMap::new();
    assert_eq!(map.len(), 0);
    assert!(map.is_empty());
    assert!(map.values().is_empty());
}

#[test]
fn insert_digest_returns_previous_value() {
    let mut map: CollideMap<String, i32> = CollideMap::new();
    assert_eq!(map.insert_digest(7, 70), None);
    assert_eq!(map.len(), 1);
    assert_eq!(map.insert_digest(7, 71), Some(70));
    assert_eq!(map.len(), 1);
    assert_eq!(map.get_digest(7), Some(&71));
}

#[test]
fn distinct_digests_give_as_many_entries() {
    let mut map: CollideMap<String, u64> = CollideMap::new();
    for d in 0..50u64 {
        assert_eq!(map.insert_digest(d * 3, d), None);
    }
    assert_eq!(map.len(), 50);
    for d in 0..50u64 {
        assert_eq!(map.get_digest(d * 3), Some(&d));
        assert!(map.contains_digest(d * 3));
        assert!(!map.contains_digest(d * 3 + 1));
    }
}

#[test]
fn remove_digest_takes_exactly_one_entry() {
    let mut map: CollideMap<String, i32> = CollideMap::new();
    map.insert_digest(1, 10);
    map.insert_digest(2, 20);
    assert_eq!(map.remove_digest(1), Some(10));
    assert_eq!(map.len(), 1);
    assert!(!map.contains_digest(1));
    assert_eq!(map.get_digest(1), None);
    assert_eq!(map.remove_digest(1), None);
    assert_eq!(map.len(), 1);
    assert_eq!(map.get_digest(2), Some(&20));
}

#[test]
fn get_mut_digest_writes_through() {
    let mut map: CollideMap<String, i32> = CollideMap::new();
    map.insert_digest(4, 40);
    map.insert_digest(5, 50);
    match map.get_mut_digest(4) {
        Some(v) => *v += 2,
        None => panic!("digest 4 was inserted"),
    }
    assert_eq!(map.get_digest(4), Some(&42));
    assert_eq!(map.get_digest(5), Some(&50));
    assert!(map.get_mut_digest(6).is_none());
    assert_eq!(map.len(), 2);
}

#[test]
fn values_lists_each_entry_once() {
    let mut map: CollideMap<String, i32> = CollideMap::new();
    map.insert_digest(1, 10);
    map.insert_digest(2, 20);
    map.insert_digest(3, 20);
    let mut seen: Vec<i32> = Vec::new();
    for v in map.values() {
        seen.push(*v);
    }
    seen.sort();
    assert_eq!(seen, vec![10, 20, 20]);
}

#[test]
fn values_mut_writes_through_to_every_entry() {
    let mut map: CollideMap<String, i32> = CollideMap::new();
    map.insert_digest(1, 10);
    map.insert_digest(2, 20);
    map.insert_digest(3, 30);
    for v in map.values_mut() {
        *v += 1;
    }
    assert_eq!(map.len(), 3);
    assert_eq!(map.get_digest(1), Some(&11));
    assert_eq!(map.get_digest(2), Some(&21));
    assert_eq!(map.get_digest(3), Some(&31));
}

#[test]
fn clear_removes_every_entry() {
    let mut map: CollideMap<String, i32> = CollideMap::new();
    map.insert_digest(1, 10);
    map.insert_digest(2, 20);
    map.clear();
    assert_eq!(map.len(), 0);
    assert!(map.is_empty());
    assert_eq!(map.get_digest(1), None);
}

#[test]
fn capacity_hints_keep_the_entries() {
    let mut map: CollideMap<String, i32> = CollideMap::new();
    map.reserve(64);
    assert!(map.capacity() >= 64);
    assert!(map.is_empty());
    for d in 0..10u64 {
        map.insert_digest(d, 1);
    }
    assert!(map.capacity() >= map.len());
    map.shrink_to_fit();
    assert!(map.capacity() >= map.len());
    assert_eq!(map.len(), 10);
    for d in 0..10u64 {
        assert_eq!(map.get_digest(d), Some(&1));
    }
}

#[test]
fn clone_of_a_map_is_independent() {
    let mut map: CollideMap<String, i32> = CollideMap::new();
    map.insert_digest(1, 10);
    let mut copy = map.clone();
    copy.insert_digest(2, 20);
    copy.insert_digest(1, 11);
    assert_eq!(map.len(), 1);
    assert_eq!(map.get_digest(1), Some(&10));
    assert_eq!(copy.len(), 2);
    assert_eq!(copy.get_digest(1), Some(&11));
}

#[test]
fn later_insert_under_a_digest_wins() {
    let mut map: CollideMap<String, i32> = CollideMap::new();
    let digests = [4u64, 8, 4, 15, 8, 4];
    for (i, d) in digests.iter().enumerate() {
        map.insert_digest(*d, i as i32);
    }
    assert_eq!(map.len(), 3);
    assert_eq!(map.get_digest(4), Some(&5));
    assert_eq!(map.get_digest(8), Some(&4));
    assert_eq!(map.get_digest(15), Some(&3));
}

#[test]
fn insert_then_remove_restores_the_map() {
    let mut map: CollideMap<String, i32> = CollideMap::new();
    map.insert_digest(1, 10);
    map.insert_digest(2, 20);
    let before = map.len();
    map.insert_digest(2, 21);
    assert_eq!(map.len(), before);
    map.insert_digest(3, 30);
    assert_eq!(map.len(), before + 1);
    assert_eq!(map.remove_digest(3), Some(30));
    assert_eq!(map.len(), before);
    assert!(!map.contains_digest(3));
    assert_eq!(map.get_digest(3), None);
}
