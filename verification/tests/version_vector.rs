use nexus::version_vector::VersionVector;

#[test]
fn test_increment() {
    let mut vv = VersionVector::new();
    assert_eq!(vv.increment("node1"), 1);
    assert_eq!(vv.increment("node1"), 2);
    assert_eq!(vv.increment("node2"), 1);
    assert_eq!(vv.get("node1"), 2);
    assert_eq!(vv.get("node2"), 1);
}

#[test]
fn test_happens_before() {
    let mut v1 = VersionVector::new();
    v1.increment("A");
    v1.increment("B");

    let mut v2 = VersionVector::new();
    v2.increment("A");
    v2.increment("A");
    v2.increment("B");

    assert!(v1.happens_before(&v2));
    assert!(!v2.happens_before(&v1));
}

#[test]
fn version_vector_test_conflict_detection() {
    let mut v1 = VersionVector::new();
    v1.increment("A");
    v1.increment("A");
    v1.increment("B");

    let mut v2 = VersionVector::new();
    v2.increment("A");
    v2.increment("B");
    v2.increment("B");

    assert!(v1.conflicts_with(&v2));
    assert!(v2.conflicts_with(&v1));
}

#[test]
fn test_merge() {
    let mut v1 = VersionVector::new();
    v1.increment("A");
    v1.increment("B");

    let mut v2 = VersionVector::new();
    v2.increment("A");
    v2.increment("A");
    v2.increment("C");

    let merged = v1.merge(&v2);
    assert_eq!(merged.get("A"), 2);
    assert_eq!(merged.get("B"), 1);
    assert_eq!(merged.get("C"), 1);
}

#[test]
fn test_total_operations() {
    let mut vv = VersionVector::new();
    vv.increment("A");
    vv.increment("A");
    vv.increment("B");

    assert_eq!(vv.total_operations(), 3);
}

#[test]
fn vv_doc_example_happens_before_without_conflict() {
    let mut v1 = VersionVector::new();
    v1.increment("node_a");
    v1.increment("node_a");

    let mut v2 = VersionVector::new();
    v2.increment("node_a");
    v2.increment("node_a");
    v2.increment("node_b");

    assert!(v1.happens_before(&v2));
    assert!(!v1.conflicts_with(&v2));
}

#[test]
fn vv_merge_is_commutative_and_idempotent_on_values() {
    let mut a = VersionVector::new();
    a.increment("x");
    a.increment("y");
    a.increment("y");
    let mut b = VersionVector::new();
    b.increment("y");
    b.increment("z");
    let ab = a.merge(&b);
    let ba = b.merge(&a);
    for k in ["x", "y", "z", "w"] {
        assert_eq!(ab.get(k), ba.get(k));
    }
    let aa = a.merge(&a);
    assert_eq!(aa.get("x"), 1);
    assert_eq!(aa.get("y"), 2);
    assert!(a.happens_before(&ab) && b.happens_before(&ab));
    assert_eq!(ab.total_operations(), 4);
}

#[test]
fn vv_empty_and_missing_nodes() {
    let mut v = VersionVector::new();
    assert!(v.is_empty());
    assert_eq!(v.get("nobody"), 0);
    assert_eq!(v.total_operations(), 0);
    v.increment("n");
    assert!(!v.is_empty());
    // An empty vector happened-before every vector; a vector listing a node
    // the other lacks did not.
    let empty = VersionVector::new();
    assert!(empty.happens_before(&v));
    assert!(!v.happens_before(&empty));
    let c = v.clone();
    assert_eq!(c.get("n"), 1);
}

#[test]
fn version_entries_are_kept_in_node_order() {
    let mut v = VersionVector::new();
    v.increment("node_b");
    v.increment("node_a");
    v.increment("node_c");
    v.increment("node_a");
    assert_eq!(v.versions_json(), "{\"node_a\":2,\"node_b\":1,\"node_c\":1}");
    assert_eq!(v.node_ids(), vec!["node_a".to_string(), "node_b".to_string(), "node_c".to_string()]);
}
