use nexus::bft::{BFTValidator, ValidatorKey};
use nexus::causal_op::CausalOp;
use nexus::crdt::lww::{LWWMap, LWWRegister};
use nexus::json::Json;
use nexus::transport::message::{error_codes, HelloPayload, MessageType, VersionVectorSummary};
use nexus::transport::peer::{PeerInfo, PeerManager};
use nexus::transport::server::{hello_reply, ServerConfig};
use nexus::version_vector::VersionVector;
use std::time::Duration;

#[test]
fn stale_peers_are_removed_by_their_silence() {
    let mut mgr = PeerManager::new("self".to_string());
    assert!(mgr.add_outbound("a".to_string(), "addr-a".to_string()));
    assert!(mgr.add_outbound("b".to_string(), "addr-b".to_string()));
    assert!(mgr.add_outbound("c".to_string(), "addr-c".to_string()));
    let removed = mgr.cleanup_stale_at(&vec![120_001, 5, 200_000]);
    assert_eq!(removed, vec!["a".to_string(), "c".to_string()]);
    assert_eq!(mgr.total_count(), 1);
    assert!(mgr.get("b").is_some());
}

#[test]
fn heartbeats_go_to_silent_connected_peers() {
    let mut mgr = PeerManager::new("self".to_string());
    mgr.add_outbound("a".to_string(), "addr-a".to_string());
    mgr.add_outbound("b".to_string(), "addr-b".to_string());
    mgr.mark_connected("a", vec![], "t".to_string());
    assert_eq!(mgr.needs_heartbeat_at(&vec![30_001, 90_000]), vec!["a".to_string()]);
    assert!(mgr.needs_heartbeat_at(&vec![30_000, 90_000]).is_empty());
    let p = PeerInfo::new_outbound("x".to_string(), "y".to_string());
    assert!(p.is_stale_at(11, 10));
    assert!(!p.is_stale_at(10, 10));
    assert!(!p.is_stale(60_000));
}

#[test]
fn validations_time_out_by_their_own_timeout() {
    let key = [7u8; 32];
    let public = ed25519_dalek::SigningKey::from_bytes(&key).verifying_key().to_bytes();
    let v = ValidatorKey { id: CausalOp::derive_identity(&public), public_key: public, priority: 1 };
    let mut bft = BFTValidator::new(vec![v], 0, Duration::from_secs(30)).unwrap();
    let mut vv = VersionVector::new();
    vv.increment("n");
    let op1 = CausalOp::new("a".to_string(), Json::Null, vec![], vv.clone(), "n".to_string(), &key);
    let op2 = CausalOp::new("b".to_string(), Json::Null, vec![], vv, "n".to_string(), &[8u8; 32]);
    let id1 = op1.id.clone();
    bft.submit_for_validation(op1).unwrap();
    bft.submit_for_validation(op2).unwrap();
    assert_eq!(bft.check_timeouts_at(&vec![30_001, 29_999]), vec![id1]);
    assert_eq!(bft.pending_count(), 1);
}

#[test]
fn hello_is_welcomed_or_refused_by_version() {
    let config = ServerConfig::default();
    let mut vv = VersionVector::new();
    vv.increment("n");
    let hello = |version: u32| HelloPayload {
        version,
        node_id: "peer".to_string(),
        capabilities: vec![],
        version_summary: VersionVectorSummary { total_ops: 0, node_count: 0, hash: String::new() },
    };
    let (ok, reply) = hello_reply(&config, "req", &hello(1), "tok".to_string(), &vv);
    assert!(ok);
    assert_eq!(reply.id, "req");
    match reply.message {
        MessageType::Welcome(w) => {
            assert_eq!(w.node_id, config.node_id);
            assert_eq!(w.capabilities, vec!["sync".to_string(), "push".to_string()]);
            assert_eq!(w.session_token, "tok");
            assert_eq!(w.version_summary.total_ops, 1);
        }
        _ => panic!("expected a welcome"),
    }
    let (ok, reply) = hello_reply(&config, "req", &hello(2), "tok".to_string(), &vv);
    assert!(!ok);
    match reply.message {
        MessageType::Error(e) => {
            assert_eq!(e.code, error_codes::VERSION_MISMATCH);
            assert_eq!(e.message, "Protocol version mismatch: expected 1, got 2");
        }
        _ => panic!("expected an error"),
    }
}

#[test]
fn writes_are_stamped_and_the_later_one_wins() {
    let mut a = LWWRegister::new(0u64, "a".to_string());
    let mut b = LWWRegister::new(0u64, "b".to_string());
    a.set_at(1, 100);
    b.set_at(2, 200);
    let mut m = a.clone();
    m.merge(&b);
    assert_eq!(*m.get(), 2);
    let mut m2 = b.clone();
    m2.merge(&a);
    assert_eq!(*m2.get(), 2);
}

#[test]
fn removed_keys_leave_the_listing() {
    let mut m: LWWMap<String, String> = LWWMap::new("n".to_string());
    m.insert_at("k".to_string(), "v".to_string(), 10);
    m.insert_at("j".to_string(), "w".to_string(), 11);
    m.remove_at(&"k".to_string(), 12);
    m.remove(&"absent".to_string());
    assert!(m.get(&"k".to_string()).is_none());
    let pairs: Vec<(String, String)> = m.iter().into_iter().map(|(k, v)| (k.clone(), v.clone())).collect();
    assert_eq!(pairs, vec![("j".to_string(), "w".to_string())]);
    let mut other: LWWMap<String, String> = LWWMap::new("o".to_string());
    other.insert_at("k".to_string(), "old".to_string(), 5);
    m.merge(&other);
    assert!(m.get(&"k".to_string()).is_none());
}
