use collidea::collidea::CollideSet;
use xxhash_rust::xxh3::xxh3_64;

fn strings(from: i32, to: i32) -> CollideSet<String> {
    let mut s: CollideSet<String> = CollideSet::new();
    for i in from..to {
        s.insert(i.to_string());
    }
    s
}

#[test]
fn first_insert_is_new_and_second_is_not() {
    let mut s: CollideSet<String> = CollideSet::new();
    assert!(s.insert("k".to_string()));
    assert!(!s.insert("k".to_string()));
    assert_eq!(s.len(), 1);
    assert!(s.remove(&"k".to_string()));
    assert_eq!(s.len(), 0);
    assert!(!s.remove(&"k".to_string()));
}

#[test]
fn twenty_and_twenty_overlapping_by_ten() {
    let a = strings(0, 20);
    let b = strings(10, 30);
    let inter = a.intersection(&b);
    let union = a.union(&b);
    let diff = a.difference(&b);
    let diff_back = b.difference(&a);
    let sym = a.symmetric_difference(&b);
    assert_eq!(inter.len(), 10);
    assert_eq!(union.len(), 30);
    assert_eq!(diff.len(), 10);
    assert_eq!(sym.len(), 20);
    for i in 0..30 {
        let key = i.to_string();
        assert_eq!(inter.contains(&key), (10..20).contains(&i));
        assert_eq!(diff.contains(&key), i < 10);
        assert_eq!(sym.contains(&key), diff.contains(&key) || diff_back.contains(&key));
    }
    let both = diff.union(&diff_back);
    assert!(sym.is_subset(&both) && both.is_subset(&sym));
}

#[test]
fn removing_all_hundred_keys_leaves_nothing() {
    let mut s = strings(0, 100);
    assert_eq!(s.len(), 100);
    for i in 0..100 {
        assert!(s.remove(&i.to_string()));
    }
    assert_eq!(s.len(), 0);
    assert!(s.is_empty());
}

#[test]
fn a_member_is_stored_as_its_xxh3_digest() {
    let mut s: CollideSet<String> = CollideSet::new();
    s.insert("10".to_string());
    // A string hashes as its bytes followed by 0xff.
    let digest = xxh3_64(b"10\xff");
    assert!(s.contains_digest(digest));
    assert!(!s.contains_digest(10));
    assert!(s.remove_digest(digest));
    assert!(!s.contains(&"10".to_string()));
}

#[test]
fn integer_keys() {
    let mut s: CollideSet<u64> = CollideSet::new();
    for i in 0..1000u64 {
        assert!(s.insert(i));
    }
    assert_eq!(s.len(), 1000);
    for i in 0..1000u64 {
        assert!(s.contains(&i));
        assert!(!s.contains(&(i + 1000)));
    }
}

#[test]
fn an_integer_member_is_stored_as_the_digest_of_its_bytes() {
    let mut s: CollideSet<u64> = CollideSet::new();
    s.insert(5);
    assert_eq!(s.len(), 1);
    assert!(!s.contains_digest(5));
    assert!(s.contains_digest(xxh3_64(&5u64.to_ne_bytes())));
}
