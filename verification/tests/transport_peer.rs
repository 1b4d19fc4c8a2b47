use nexus::transport::peer::{PeerInfo, PeerManager, PeerState};

#[test]
fn test_peer_info() {
    let mut peer = PeerInfo::new_outbound("node1".to_string(), "ws://localhost:8080".to_string());
    assert_eq!(peer.state, PeerState::Connecting);
    assert!(peer.outbound);

    peer.set_connected(vec!["sync".to_string()], "token123".to_string());
    assert_eq!(peer.state, PeerState::Connected);
    assert!(peer.is_connected());
}

#[test]
fn test_peer_manager() {
    let mut mgr = PeerManager::new("self".to_string());

    assert!(mgr.add_outbound("peer1".to_string(), "addr1".to_string()));
    assert!(mgr.add_outbound("peer2".to_string(), "addr2".to_string()));

    assert_eq!(mgr.total_count(), 2);
    assert_eq!(mgr.connected_count(), 0);

    mgr.mark_connected("peer1", vec![], "token".to_string());
    assert_eq!(mgr.connected_count(), 1);
}

#[test]
fn test_max_peers() {
    let mut mgr = PeerManager::new("self".to_string()).with_max_peers(2);

    assert!(mgr.add_outbound("peer1".to_string(), "addr1".to_string()));
    assert!(mgr.add_outbound("peer2".to_string(), "addr2".to_string()));
    assert!(!mgr.add_outbound("peer3".to_string(), "addr3".to_string()));
}

#[test]
fn duplicate_peer_is_refused() {
    let mut mgr = PeerManager::new("self".to_string());
    assert!(mgr.add_inbound("peer1".to_string(), "addr1".to_string()));
    assert!(!mgr.add_outbound("peer1".to_string(), "addr9".to_string()));
    assert_eq!(mgr.get("peer1").unwrap().connect_attempts, 0);
    assert!(!mgr.get("peer1").unwrap().outbound);
}

#[test]
fn peers_sorted_by_latency_unknown_last() {
    let mut mgr = PeerManager::new("self".to_string());
    for id in ["a", "b", "c", "d"] {
        assert!(mgr.add_outbound(id.to_string(), "x".to_string()));
        assert!(mgr.mark_connected(id, vec![], "t".to_string()));
    }
    mgr.get_mut("a").unwrap().update_latency(50);
    mgr.get_mut("c").unwrap().update_latency(10);
    mgr.get_mut("d").unwrap().update_latency(50);
    let order: Vec<String> = mgr.peers_by_latency().iter().map(|p| p.node_id.clone()).collect();
    assert_eq!(order, vec!["c", "a", "d", "b"]);
}

#[test]
fn reconnect_counts_attempts_and_disconnect_keeps_peer() {
    let mut mgr = PeerManager::new("self".to_string());
    assert!(mgr.add_outbound("p".to_string(), "x".to_string()));
    mgr.mark_reconnecting("p");
    assert_eq!(mgr.get("p").unwrap().state, PeerState::Reconnecting);
    assert_eq!(mgr.get("p").unwrap().connect_attempts, 2);
    mgr.mark_disconnected("p");
    assert_eq!(mgr.get("p").unwrap().state, PeerState::Disconnected);
    assert_eq!(mgr.total_count(), 1);
    assert!(mgr.remove("p").is_some());
    assert!(mgr.remove("p").is_none());
    assert!(!mgr.mark_connected("p", vec![], "t".to_string()));
}

#[test]
fn fresh_peers_are_not_stale() {
    let mut mgr = PeerManager::new("self".to_string());
    assert!(mgr.add_outbound("p".to_string(), "x".to_string()));
    assert!(mgr.cleanup_stale().is_empty());
    assert!(mgr.needs_heartbeat().is_empty());
    assert_eq!(mgr.peer_ids(), vec!["p".to_string()]);
}
