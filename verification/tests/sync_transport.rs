use nexus::causal_op::CausalOp;
use nexus::json::Json;
use nexus::snapshot::Snapshot;
use nexus::storage::InMemoryStorage;
use nexus::sync::{strategy_for, AdaptiveSync, HierarchicalSync, SyncError, SyncRequest, SyncStrategy};
use nexus::transport::message::error_codes;
use nexus::transport::message::{limit_operations, ErrorPayload, MessageType, PeerMessage, SyncMessage};
use nexus::version_vector::VersionVector;
use std::time::{Duration, Instant};

fn op(kind: &str) -> CausalOp {
    let mut vv = VersionVector::new();
    vv.increment("node1");
    CausalOp::new(
        kind.to_string(),
        Json::Object(vec![("data".to_string(), Json::String("test".to_string()))]),
        vec![],
        vv,
        "node1".to_string(),
        &[5u8; 32],
    )
}

fn snapshot(root: &str) -> Snapshot {
    Snapshot::new(Json::Object(vec![]), root.to_string(), VersionVector::new(), 3)
}

fn request(latest: Option<String>) -> SyncRequest {
    SyncRequest {
        node_id: "peer".to_string(),
        version_vector: VersionVector::new(),
        latest_snapshot_id: latest,
        merkle_root: "root".to_string(),
    }
}

#[test]
fn test_sync_strategy_selection() {
    let sync = AdaptiveSync::new(1000, Duration::from_secs(3600));

    let recent = Instant::now() - Duration::from_secs(60);
    assert_eq!(sync.sync_strategy(recent), SyncStrategy::MerkleDiff);

    let old = Instant::now() - Duration::from_secs(7200);
    assert_eq!(sync.sync_strategy(old), SyncStrategy::Hierarchical);
}

#[test]
fn test_peer_message() {
    let sync_msg = SyncMessage::new(MessageType::Ping(1));
    let peer_msg = PeerMessage::new("sender".to_string(), sync_msg).to("receiver".to_string());

    assert_eq!(peer_msg.from, "sender");
    assert_eq!(peer_msg.to, Some("receiver".to_string()));
}

#[test]
fn handle_request_with_common_snapshot() {
    let mut h = HierarchicalSync::new(10, false);
    let s1 = snapshot("a");
    let s1_id = s1.id.clone();
    h.add_snapshot(s1);
    h.add_snapshot(snapshot("b"));
    let o = op("set");
    let size = o.to_json().len();
    h.add_operations(vec![o]);
    let r = h.handle_sync_request(request(Some(s1_id.clone())));
    assert_eq!(r.common_snapshot.as_ref().unwrap().id, s1_id);
    assert!(r.snapshot_to_download.is_none());
    assert_eq!(r.total_operations, 1);
    assert_eq!(r.estimated_size_bytes, size);
}

#[test]
fn handle_request_without_common_snapshot_offers_latest() {
    let mut h = HierarchicalSync::new(10, true);
    let s = snapshot("a");
    let sid = s.id.clone();
    let csize = s.compressed_size;
    h.add_snapshot(s);
    let o = op("set");
    let size = o.to_json().len();
    h.add_operations(vec![o]);
    let r = h.handle_sync_request(request(Some("unknown".to_string())));
    assert!(r.common_snapshot.is_none());
    assert_eq!(r.snapshot_to_download, Some(sid));
    assert_eq!(r.estimated_size_bytes, csize + size / 5);

    let empty = HierarchicalSync::new(10, true);
    let r = empty.handle_sync_request(request(None));
    assert!(r.snapshot_to_download.is_none());
    assert_eq!(r.estimated_size_bytes, 0);
    assert_eq!(r.total_operations, 0);
}

#[test]
fn apply_response_downloads_snapshot_or_fails() {
    let mut server = HierarchicalSync::new(10, false);
    server.add_snapshot(snapshot("a"));
    server.add_operations(vec![op("x"), op("y")]);
    let request_ = HierarchicalSync::new(10, false).prepare_sync_request(
        "me".to_string(),
        VersionVector::new(),
        "r".to_string(),
    );
    assert!(request_.latest_snapshot_id.is_none());

    let response = server.handle_sync_request(request_);
    let est = response.estimated_size_bytes;
    let mut client = HierarchicalSync::new(10, false);
    client.add_operations(vec![op("old")]);
    match client.apply_sync_response(server.handle_sync_request(request(None)), None) {
        Err(SyncError::MissingSnapshot) => {}
        other => panic!("unexpected {:?}", other.map(|s| s.total_bytes)),
    }
    assert_eq!(client.operation_count(), 1);

    let snap = snapshot("a");
    let snap_size = snap.compressed_size;
    let stats = client.apply_sync_response(response, Some(snap)).unwrap();
    assert!(stats.snapshot_downloaded);
    assert_eq!(stats.snapshot_size_bytes, snap_size);
    assert_eq!(stats.operations_applied, 2);
    assert_eq!(stats.total_bytes, est);
    assert_eq!(client.operation_count(), 2);
    assert_eq!(client.snapshot_count(), 1);
}

#[test]
fn messages_and_limits() {
    let ping = SyncMessage::new(MessageType::Ping(12345));
    assert_eq!(ping.id.len(), 36);
    let pong = ping.pong_for().unwrap();
    assert_eq!(pong.id, ping.id);
    assert!(matches!(pong.message, MessageType::Pong(12345)));
    assert!(SyncMessage::new(MessageType::Goodbye("bye".to_string())).pong_for().is_none());

    let e = ErrorPayload::version_mismatch(1, 2);
    assert_eq!(e.code, error_codes::VERSION_MISMATCH);
    assert_eq!(e.message, "Protocol version mismatch: expected 1, got 2");

    let (ops, more) = limit_operations(vec![op("a"), op("b"), op("c")], Some(2));
    assert_eq!(ops.len(), 2);
    assert!(more);
    let (ops, more) = limit_operations(vec![op("a")], Some(2));
    assert_eq!(ops.len(), 1);
    assert!(!more);
    let (ops, more) = limit_operations(vec![op("a"), op("b")], None);
    assert_eq!(ops.len(), 2);
    assert!(!more);
}

#[test]
fn storage_keeps_json_of_operations_and_snapshots() {
    let mut storage = InMemoryStorage::new();
    let o = op("op1");
    storage.put_operation(&o).unwrap();
    let text = storage.get_operation_text(&o.id).unwrap();
    assert_eq!(text, o.to_json());
    let value: serde_json::Value = serde_json::from_str(&text).unwrap();
    assert_eq!(value["operation"], "op1");

    let s = snapshot("m");
    storage.put_snapshot("s1", &s).unwrap();
    let text = storage.get_snapshot_text("s1").unwrap();
    let value: serde_json::Value = serde_json::from_str(&text).unwrap();
    assert_eq!(value["merkle_root"], "m");
    assert_eq!(value["operation_count"], 3);
    assert_eq!(value["version_vector"]["versions"], serde_json::Value::Object(serde_json::Map::new()));
}

#[test]
fn strategy_follows_partition_length() {
    assert_eq!(strategy_for(7_200_000, 3_600_000), SyncStrategy::Hierarchical);
    assert_eq!(strategy_for(3_600_000, 3_600_000), SyncStrategy::MerkleDiff);
    assert_eq!(strategy_for(60_000, 3_600_000), SyncStrategy::MerkleDiff);
}

#[test]
fn adaptive_sync_applies_responses() {
    let mut server = AdaptiveSync::new(10, Duration::from_secs(60));
    server.add_operations(vec![op("x")]);
    let response = server.handle_request(request(None));
    let mut client = AdaptiveSync::new(10, Duration::from_secs(60));
    let stats = client.apply_response(response, None).unwrap();
    assert_eq!(stats.operations_applied, 1);
    assert!(!stats.snapshot_downloaded);
}
