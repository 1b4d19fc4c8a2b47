//! Route kinds and the records the router keeps about nodes and syncs.

use vstd::prelude::*;
use crate::version_vector::VersionVector;

verus! {

/// How a sync is routed.
#[derive(Debug, Clone, PartialEq)]
pub enum RouteType {
    /// Direct peer-to-peer sync.
    Direct,
    /// Through a relay node.
    Relay { via: String },
    /// Batched with other syncs.
    Batched,
}

/// Status of a known node.
#[derive(Debug, Clone)]
pub struct NodeStatus {
    pub node_id: String,
    pub last_seen: u64,
    pub version: VersionVector,
    pub reachable: bool,
    pub latency_ms: u32,
    pub bandwidth_kbps: u32,
}

/// Record of one sync.
#[derive(Debug, Clone)]
pub struct SyncRecord {
    pub node_id: String,
    pub timestamp: u64,
    pub success: bool,
    pub ops_synced: usize,
    pub duration_ms: u64,
    pub bytes_transferred: u64,
}

} // verus!
