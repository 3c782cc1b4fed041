use microservice::store::Store;

#[test]
fn insert_assigns_increasing_ids_from_empty() {
    let mut s: Store<u32> = Store::new();
    assert_eq!(s.insert(10), 0);
    assert_eq!(s.insert(20), 1);
    assert_eq!(s.insert(30), 2);
    assert_eq!(s.list(), vec![0, 1, 2]);
}

#[test]
fn get_returns_live_records_only() {
    let mut s: Store<u32> = Store::new();
    let a = s.insert(7);
    assert_eq!(s.get(a), Some(&7));
    assert_eq!(s.get(a + 1), None);
    assert!(s.delete(a));
    assert_eq!(s.get(a), None);
}

#[test]
fn update_replaces_only_live_records() {
    let mut s: Store<u32> = Store::new();
    let a = s.insert(1);
    assert!(s.update(a, 2));
    assert_eq!(s.get(a), Some(&2));
    assert!(!s.update(a + 5, 9));
    assert!(s.delete(a));
    assert!(!s.update(a, 3));
    assert_eq!(s.get(a), None);
}

#[test]
fn delete_frees_slot_for_reuse() {
    let mut s: Store<u32> = Store::new();
    let a = s.insert(1);
    let b = s.insert(2);
    assert!(s.delete(a));
    assert!(!s.delete(a));
    let c = s.insert(3);
    assert_eq!(c, a);
    assert_ne!(b, c);
    assert_eq!(s.get(c), Some(&3));
}

#[test]
fn insert_reuses_lowest_free_slot() {
    let mut s: Store<u32> = Store::new();
    for v in 0..5u32 {
        s.insert(v);
    }
    assert!(s.delete(3));
    assert!(s.delete(1));
    assert_eq!(s.insert(100), 1);
    assert_eq!(s.insert(101), 3);
    assert_eq!(s.insert(102), 5);
}

#[test]
fn list_is_exactly_the_live_ids() {
    let mut s: Store<u32> = Store::new();
    for v in 0..6u32 {
        s.insert(v);
    }
    assert!(s.delete(0));
    assert!(s.delete(2));
    assert!(s.delete(5));
    assert_eq!(s.list(), vec![1, 3, 4]);
    s.insert(9);
    assert_eq!(s.list(), vec![0, 1, 3, 4]);
}

#[test]
fn dead_ids_stay_not_found_after_many_operations() {
    let mut s: Store<u32> = Store::new();
    let a = s.insert(1);
    let b = s.insert(2);
    assert!(s.delete(a));
    assert!(s.delete(b));
    assert_eq!(s.list(), Vec::<usize>::new());
    assert_eq!(s.get(b), None);
    assert!(!s.update(b, 9));
    assert!(!s.delete(b));
    assert_eq!(s.get(99), None);
}
