use ed25519_dalek::SigningKey;
use nexus::causal_op::CausalOp;
use nexus::conflict::{ConflictPolicy, ConflictResolution, ConflictResolver};
use nexus::dag::{CausalDAG, DagError};
use nexus::json::{Json, JsonNumber};
use nexus::snapshot::Snapshot;
use nexus::version_vector::VersionVector;

fn key(seed: u8) -> [u8; 32] {
    [seed; 32]
}

fn public(k: &[u8; 32]) -> [u8; 32] {
    SigningKey::from_bytes(k).verifying_key().to_bytes()
}

fn num(n: i64) -> Json {
    if n >= 0 {
        Json::Number(JsonNumber::PosInt(n as u64))
    } else {
        Json::Number(JsonNumber::NegInt(n))
    }
}

fn text(s: &str) -> Json {
    Json::String(s.to_string())
}

fn obj(members: Vec<(&str, Json)>) -> Json {
    let mut m: Vec<(String, Json)> = members.into_iter().map(|(k, v)| (k.to_string(), v)).collect();
    m.sort_by(|a, b| a.0.cmp(&b.0));
    Json::Object(m)
}

fn vv(counts: &[(&str, u64)]) -> VersionVector {
    let mut v = VersionVector::new();
    for (node, n) in counts {
        for _ in 0..*n {
            v.increment(node);
        }
    }
    v
}

fn op(kind: &str, input: Json, deps: Vec<String>, v: VersionVector, node: &str) -> CausalOp {
    CausalOp::new(kind.to_string(), input, deps, v, node.to_string(), &key(7))
}

#[test]
fn json_text_is_compact_and_sorted() {
    let j = obj(vec![("b", num(-3)), ("a", Json::Array(vec![Json::Null, Json::Bool(true), text("x\"y")]))]);
    assert_eq!(j.to_json_string(), "{\"a\":[null,true,\"x\\\"y\"],\"b\":-3}");
    assert_eq!(j.get("b").unwrap().as_i64(), Some(-3));
    assert!(j.get("c").is_none());
    let mut s = Json::Null;
    s.set_member("k".to_string(), num(1));
    s.set_member("a".to_string(), num(2));
    s.set_member("k".to_string(), num(3));
    assert_eq!(s.to_json_string(), "{\"a\":2,\"k\":3}");
    assert!(s.json_eq(&s.copy()));
    assert!(!s.json_eq(&Json::Null));
}

#[test]
fn test_create_and_verify() {
    let k = key(1);
    let o = CausalOp::new(
        "test_op".to_string(),
        obj(vec![("key", text("value"))]),
        vec![],
        vv(&[("node1", 1)]),
        "node1".to_string(),
        &k,
    );
    assert!(o.verify(&public(&k)));
    assert_eq!(o.operation, "test_op");
    assert_eq!(o.node_id, "node1");
    assert_eq!(o.lamport_clock, 1);
    assert_eq!(o.id.len(), 64);
    assert_eq!(o.identity, CausalOp::derive_identity(&public(&k)));
    assert!(!o.verify(&public(&key(2))));
    let mut tampered = o.copy();
    tampered.operation = "other".to_string();
    assert!(!tampered.verify(&public(&k)));
}

#[test]
fn signing_message_layout() {
    let o = op("edit", obj(vec![("v", num(1))]), vec!["b".to_string(), "a".to_string(), "b".to_string()], vv(&[("n", 2)]), "n");
    assert_eq!(o.dependencies, vec!["a".to_string(), "b".to_string()]);
    let expected = format!("edit:{{\"v\":1}}:a,b:{{\"n\":2}}:2:{}", o.wall_clock);
    assert_eq!(o.signing_message(), expected);
}

#[test]
fn version_vector_test_conflict_detection_of_ops() {
    let o1 = op("edit", text("A"), vec![], vv(&[("node1", 1)]), "node1");
    let o2 = op("edit", text("B"), vec![], vv(&[("node2", 1)]), "node2");
    assert!(o1.conflicts_with(&o2));
    let o3 = op("edit", text("C"), vec![], vv(&[("node1", 2)]), "node1");
    assert!(!o1.conflicts_with(&o3));
}

fn conflicting() -> (CausalOp, CausalOp) {
    let mut o1 = op("edit", obj(vec![("value", text("A"))]), vec![], vv(&[("node1", 1)]), "node1");
    let mut o2 = op("edit", obj(vec![("value", text("B"))]), vec![], vv(&[("node2", 1)]), "node2");
    o1.wall_clock = 100;
    o2.wall_clock = 200;
    (o1, o2)
}

#[test]
fn test_no_conflict() {
    let resolver = ConflictResolver::new(ConflictPolicy::LastWriterWins);
    let o1 = op("op1", obj(vec![]), vec![], vv(&[("node1", 1)]), "node1");
    let o2 = op("op2", obj(vec![]), vec![o1.id.clone()], vv(&[("node1", 2)]), "node1");
    assert!(matches!(resolver.resolve(&o1, &o2), ConflictResolution::NoConflict));
}

#[test]
fn test_lww_resolution() {
    let resolver = ConflictResolver::new(ConflictPolicy::LastWriterWins);
    let (o1, o2) = conflicting();
    match resolver.resolve(&o1, &o2) {
        ConflictResolution::Winner(id) => assert_eq!(id, o2.id),
        _ => panic!("Expected winner resolution"),
    }
}

#[test]
fn test_priority_resolution() {
    let mut resolver = ConflictResolver::new(ConflictPolicy::HighestPriority);
    resolver.set_node_priority("node1".to_string(), 10);
    resolver.set_node_priority("node2".to_string(), 5);
    let (o1, o2) = conflicting();
    match resolver.resolve(&o1, &o2) {
        ConflictResolution::Winner(id) => assert_eq!(id, o1.id),
        _ => panic!("Expected winner resolution"),
    }
}

#[test]
fn test_manual_resolution() {
    let resolver = ConflictResolver::new(ConflictPolicy::ManualResolution);
    let (o1, o2) = conflicting();
    match resolver.resolve(&o1, &o2) {
        ConflictResolution::Manual { option_a, option_b } => {
            assert_eq!(option_a.id, o1.id);
            assert_eq!(option_b.id, o2.id);
        }
        _ => panic!("Expected manual resolution"),
    }
}

#[test]
fn test_semantic_merge_counter() {
    let resolver = ConflictResolver::new(ConflictPolicy::SemanticMerge);
    let o1 = op("increment", obj(vec![("value", num(5))]), vec![], vv(&[("node1", 1)]), "node1");
    let o2 = op("increment", obj(vec![("value", num(3))]), vec![], vv(&[("node2", 1)]), "node2");
    match resolver.resolve(&o1, &o2) {
        ConflictResolution::Merged { result } => {
            assert_eq!(result.get("value").unwrap().as_i64().unwrap(), 8);
        }
        _ => panic!("Expected merged resolution"),
    }
}

#[test]
fn semantic_merge_set_union() {
    let resolver = ConflictResolver::new(ConflictPolicy::SemanticMerge);
    let o1 = op("add_to_set", obj(vec![("elements", Json::Array(vec![num(1), num(2)]))]), vec![], vv(&[("a", 1)]), "a");
    let o2 = op("add_to_set", obj(vec![("elements", Json::Array(vec![num(2), num(3), num(3)]))]), vec![], vv(&[("b", 1)]), "b");
    match resolver.resolve(&o1, &o2) {
        ConflictResolution::Merged { result } => assert_eq!(result.to_json_string(), "{\"elements\":[1,2,3]}"),
        _ => panic!("Expected merged resolution"),
    }
    let o3 = op("rename", obj(vec![]), vec![], vv(&[("b", 1)]), "b");
    assert!(matches!(resolver.resolve(&o1, &o3), ConflictResolution::Manual { .. }));
}

fn dag(interval: usize) -> CausalDAG {
    CausalDAG::new("node1".to_string(), interval, ConflictPolicy::LastWriterWins)
}

#[test]
fn test_dag_creation() {
    let d = dag(100);
    assert_eq!(d.operation_count(), 0);
    assert_eq!(d.node_id(), "node1");
}

#[test]
fn test_insert_operation() {
    let mut d = dag(100);
    let o = op("set", obj(vec![("key", text("counter")), ("value", num(42))]), vec![], vv(&[("node1", 1)]), "node1");
    let id = o.id.clone();
    d.insert(o).unwrap();
    assert_eq!(d.operation_count(), 1);
    assert!(d.get_operation(&id).is_some());
    assert_eq!(d.get_state().get("counter").unwrap().as_i64(), Some(42));
}

#[test]
fn test_causal_ordering() {
    let mut d = dag(100);
    let o1 = op("op1", obj(vec![]), vec![], vv(&[("node1", 1)]), "node1");
    let id1 = o1.id.clone();
    d.insert(o1).unwrap();
    let o2 = op("op2", obj(vec![]), vec![id1.clone()], vv(&[("node1", 2)]), "node1");
    let id2 = o2.id.clone();
    d.insert(o2).unwrap();
    let order = d.causal_order();
    assert_eq!(order, vec![id1, id2]);
    assert_eq!(d.compute_merkle_root().len(), 64);
}

#[test]
fn test_missing_dependency() {
    let mut d = dag(100);
    let o = op("test", obj(vec![]), vec!["nonexistent".to_string()], vv(&[("node1", 1)]), "node1");
    match d.insert(o) {
        Err(DagError::MissingDependency(id)) => assert_eq!(id, "nonexistent"),
        _ => panic!("Expected missing dependency error"),
    }
    assert_eq!(d.operation_count(), 0);
}

#[test]
fn test_idempotent_insert() {
    let mut d = dag(100);
    let o = op("test", obj(vec![]), vec![], vv(&[("node1", 1)]), "node1");
    d.insert(o.copy()).unwrap();
    d.insert(o).unwrap();
    assert_eq!(d.operation_count(), 1);
}

#[test]
fn test_snapshot_creation() {
    let mut d = dag(10);
    for i in 0..10u64 {
        let o = op(&format!("op{}", i), obj(vec![]), vec![], vv(&[("node1", i + 1)]), "node1");
        d.insert(o).unwrap();
    }
    let snap = d.get_latest_snapshot().unwrap();
    assert_eq!(snap.operation_count, 10);
    assert!(snap.id.starts_with("snap_"));
    assert_eq!(snap.id.len(), 24);
    assert_eq!(d.get_snapshot_ids(), vec![snap.id.clone()]);
    assert!(d.find_common_snapshot(&[snap.id.clone()]).is_some());
    assert!(d.find_common_snapshot(&["other".to_string()]).is_none());
}

#[test]
fn test_increment_operation() {
    let mut d = dag(100);
    let o1 = op("increment", obj(vec![("key", text("counter")), ("value", num(5))]), vec![], vv(&[("node1", 1)]), "node1");
    let id1 = o1.id.clone();
    d.insert(o1).unwrap();
    let o2 = op("increment", obj(vec![("key", text("counter")), ("value", num(3))]), vec![id1], vv(&[("node1", 2)]), "node1");
    d.insert(o2).unwrap();
    assert_eq!(d.get_state().get("counter").unwrap().as_i64(), Some(8));
    assert_eq!(d.get_operations_after(1).len(), 1);
}

#[test]
fn dag_rejects_losing_concurrent_operation() {
    let mut d = dag(100);
    let (o1, o2) = conflicting();
    let id2 = o2.id.clone();
    d.insert(o2).unwrap();
    match d.insert(o1) {
        Err(DagError::ConflictRejected { winner_id }) => assert_eq!(winner_id, id2),
        other => panic!("unexpected {:?}", other.is_ok()),
    }
    assert_eq!(d.operation_count(), 1);
}

#[test]
fn snapshot_compression_round_trip() {
    let s = obj(vec![("a", num(1))]);
    let snap = Snapshot::new(s, "root".to_string(), VersionVector::new(), 3);
    let bytes = snap.to_compressed_bytes();
    assert_eq!(bytes.len(), snap.compressed_size);
    assert_eq!(Snapshot::decompress_state(&bytes).unwrap(), "{\"a\":1}");
    assert!(Snapshot::decompress_state(b"not gzip").is_none());
}

#[test]
fn snapshot_state_survives_transfer() {
    let snap = Snapshot::new(obj(vec![("k", text("v"))]), "r".to_string(), VersionVector::new(), 1);
    assert_eq!(snap.received_state_text(), "{\"k\":\"v\"}");
}

#[test]
fn json_strings_are_escaped_like_serde_json() {
    let s = "a\"b\\c\nd\u{1}e\u{7f}é";
    assert_eq!(nexus::json::json_quote(s), serde_json::to_string(s).unwrap());
    assert_eq!(nexus::json::json_quote("\u{8}\u{c}\t\r"), "\"\\b\\f\\t\\r\"");
    assert_eq!(nexus::json::json_quote("\u{1f}"), "\"\\u001f\"");
}

#[test]
fn an_operation_verifies_under_its_creator_key() {
    let k = key(9);
    let o = CausalOp::new("set".to_string(), Json::Null, vec![], VersionVector::new(), "n".to_string(), &k);
    assert_eq!(o.identity, CausalOp::derive_identity(&public(&k)));
    assert!(o.verify(&public(&k)));
}
