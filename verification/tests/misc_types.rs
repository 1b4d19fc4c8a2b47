use nexus::conflict::{ConflictPolicy, ConflictResolver};
use nexus::dag::DagError;
use nexus::network::ApiError;
use nexus::runtime::{RuntimeConfig, RuntimeError, RuntimeMetrics};
use nexus::storage::{InMemoryStorage, StorageError};
use nexus::sync::SyncError;
use nexus::transport::client::{ClientConfig, ClientError};
use nexus::transport::message::VersionVectorSummary;
use nexus::transport::server::ServerConfig;
use nexus::version_vector::VersionVector;

#[test]
fn api_error_status_codes() {
    assert_eq!(ApiError::new("NOT_FOUND".to_string(), "x".to_string()).http_status(), 404);
    assert_eq!(ApiError::new("INVALID_REQUEST".to_string(), "x".to_string()).http_status(), 400);
    assert_eq!(ApiError::new("UNAUTHORIZED".to_string(), "x".to_string()).http_status(), 401);
    assert_eq!(ApiError::new("CONFLICT".to_string(), "x".to_string()).http_status(), 409);
    assert_eq!(ApiError::new("BOOM".to_string(), "x".to_string()).http_status(), 500);
}

#[test]
fn storage_reads_back_writes() {
    let mut s = InMemoryStorage::new();
    s.put_operation_text("op1".to_string(), "{\"a\":1}".to_string());
    assert_eq!(s.get_operation_text("op1").unwrap(), "{\"a\":1}");
    match s.get_operation_text("op2") {
        Err(StorageError::NotFound(k)) => assert_eq!(k, "op2"),
        other => panic!("unexpected {:?}", other),
    }
    s.put_snapshot_text("s1", "x".to_string());
    s.put_snapshot_text("s2", "y".to_string());
    s.put_snapshot_text("s1", "z".to_string());
    assert_eq!(s.get_snapshot_text("s1").unwrap(), "z");
    assert_eq!(s.list_snapshots().unwrap(), vec!["s1".to_string(), "s2".to_string()]);
    assert_eq!(StorageError::NotFound("k".to_string()).message(), "Key not found: k");
}

#[test]
fn error_texts() {
    assert_eq!(DagError::MissingDependency("op".to_string()).message(), "Missing dependency: op");
    assert_eq!(
        DagError::ManualResolutionRequired { op_a: "a".to_string(), op_b: "b".to_string() }.message(),
        "Manual resolution needed: a vs b"
    );
    assert_eq!(RuntimeError::BFTError("x".to_string()).message(), "BFT error: x");
    let r = RuntimeError::from_dag(DagError::ConflictRejected { winner_id: "w".to_string() });
    assert_eq!(r.message(), "DAG error: Conflict resolved: w won");
    let s: RuntimeError = "boom".to_string().into();
    assert_eq!(s.message(), "DAG error: boom");
    assert_eq!(SyncError::NetworkError("down".to_string()).message(), "Network error: down");
    assert_eq!(ClientError::Timeout.message(), "Request timed out");
}

#[test]
fn config_defaults() {
    let r = RuntimeConfig::default();
    assert!(r.node_id.starts_with("node_"));
    assert_eq!(r.node_id.len(), 41);
    assert_eq!(r.conflict_policy, ConflictPolicy::LastWriterWins);
    assert_eq!(RuntimeMetrics::default().operations_executed, 0);
    let c = ClientConfig::default();
    assert_eq!(c.max_reconnect_attempts, 10);
    let s = ServerConfig::default();
    assert_eq!(s.bind_address, "0.0.0.0:8765");
    assert_eq!(s.max_connections, 100);
}

#[test]
fn resolver_policies_and_priorities() {
    let mut r = ConflictResolver::new(ConflictPolicy::LastWriterWins);
    assert_eq!(r.get_policy("edit"), ConflictPolicy::LastWriterWins);
    r.set_operation_policy("edit".to_string(), ConflictPolicy::ManualResolution);
    assert_eq!(r.get_policy("edit"), ConflictPolicy::ManualResolution);
    r.set_node_priority("n1".to_string(), 10);
}

#[test]
fn version_vector_summary() {
    let mut vv = VersionVector::new();
    vv.increment("a");
    vv.increment("a");
    vv.increment("b");
    let s = VersionVectorSummary::from_version_vector(&vv);
    assert_eq!(s.total_ops, 3);
    assert_eq!(s.node_count, 2);
    assert_eq!(s.hash.len(), 16);
    assert_eq!(vv.debug_text(), "VersionVector { versions: {\"a\": 2, \"b\": 1} }");
    assert_eq!(VersionVector::new().debug_text(), "VersionVector { versions: {} }");
}
