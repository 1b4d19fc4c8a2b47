use nexus::crdt::counter::{GCounter, PNCounter};

#[test]
fn test_gcounter() {
    let mut c1 = GCounter::new("node1".to_string());
    let mut c2 = GCounter::new("node2".to_string());

    c1.increment(5);
    c2.increment(3);

    c1.merge(&c2);
    assert_eq!(c1.value(), 8);
}

#[test]
fn test_pncounter() {
    let mut counter = PNCounter::new("node1".to_string());
    counter.increment(10);
    counter.decrement(3);

    assert_eq!(counter.value(), 7);
}

#[test]
fn gcounter_merge_takes_max_per_node() {
    let mut a = GCounter::new("n".to_string());
    a.increment(4);
    let mut b = a.clone();
    b.increment(6);
    a.increment(1);
    // a has n=5, b has n=10: the merge keeps 10, not 15.
    a.merge(&b);
    assert_eq!(a.value(), 10);
    a.merge(&b);
    assert_eq!(a.value(), 10);
    let breakdown = a.get_breakdown();
    assert_eq!(breakdown.len(), 1);
}

#[test]
fn pncounter_can_go_negative_and_merge() {
    let mut a = PNCounter::new("a".to_string());
    a.decrement(7);
    assert_eq!(a.value(), -7);
    let mut b = PNCounter::new("b".to_string());
    b.increment(10);
    a.merge(&b);
    b.merge(&a);
    assert_eq!(a.value(), 3);
    assert_eq!(b.value(), 3);
}
