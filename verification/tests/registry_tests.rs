use gstdots::registry::ClientSet;

#[test]
fn register_keeps_insertion_order() {
    let mut cs = ClientSet::new();
    cs.register(3);
    cs.register(1);
    cs.register(2);
    assert_eq!(cs.snapshot(), vec![3, 1, 2]);
    assert_eq!(cs.client_count(), 3);
}

#[test]
fn register_twice_is_once() {
    let mut cs = ClientSet::new();
    cs.register(7);
    cs.register(7);
    assert_eq!(cs.snapshot(), vec![7]);
    assert_eq!(cs.client_count(), 1);
}

#[test]
fn unregister_removes_by_value() {
    let mut cs = ClientSet::new();
    cs.register(1);
    cs.register(2);
    cs.register(3);
    cs.unregister(2);
    assert_eq!(cs.snapshot(), vec![1, 3]);
    assert!(!cs.has_client(2));
    assert!(cs.has_client(1));
    assert!(cs.has_client(3));
}

#[test]
fn unregister_absent_is_noop() {
    let mut cs = ClientSet::new();
    cs.register(1);
    cs.unregister(9);
    assert_eq!(cs.snapshot(), vec![1]);
}

#[test]
fn snapshot_is_a_copy() {
    let mut cs = ClientSet::new();
    cs.register(5);
    let snap = cs.snapshot();
    cs.unregister(5);
    assert_eq!(snap, vec![5]);
    assert_eq!(cs.snapshot(), Vec::<u64>::new());
}
