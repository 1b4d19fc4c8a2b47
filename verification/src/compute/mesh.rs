//! Configuration and state of compute mesh nodes.

use vstd::prelude::*;
use std::time::Duration;
use crate::clock::{duration_from_millis, duration_from_secs};
use crate::ident::new_uuid_v4;

verus! {

/// Configuration of a compute mesh node.
#[derive(Debug, Clone)]
pub struct MeshConfig {
    /// This node's ID.
    pub node_id: String,
    /// Maximum peers to keep.
    pub max_peers: usize,
    /// Heartbeat interval.
    pub heartbeat_interval: Duration,
    /// Gradient sync interval.
    pub sync_interval: Duration,
    /// Whether a GPU is used (otherwise the CPU stands in).
    pub gpu_enabled: bool,
}

impl Default for MeshConfig {
    /// A random node ID, 10 peers, a 5 s heartbeat, a 100 ms sync
    /// interval, no GPU.
    fn default() -> (c: Self)
        ensures
            c.node_id@.len() == 36,
            c.max_peers == 10,
            !c.gpu_enabled,
    {
        MeshConfig {
            node_id: new_uuid_v4(),
            max_peers: 10,
            heartbeat_interval: duration_from_secs(5),
            sync_interval: duration_from_millis(100),
            gpu_enabled: false,
        }
    }
}

/// State of a compute node.
#[derive(Debug, Clone, Copy, PartialEq, Eq, Structural)]
pub enum NodeState {
    /// Ready for work.
    Idle,
    /// Computing gradients.
    Computing,
    /// Syncing gradients.
    Syncing,
    /// Offline.
    Offline,
}

} // verus!
