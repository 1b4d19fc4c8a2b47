//! Runtime configuration, metrics, errors and sync results.

use vstd::prelude::*;
use std::time::Duration;
use crate::clock::duration_from_secs;
use crate::conflict::ConflictPolicy;
use crate::dag::{DagError, dag_error_text};
use crate::ident::new_uuid_v4;
use crate::text::string_push_str;

verus! {

/// Runtime configuration.
#[derive(Clone, Debug)]
pub struct RuntimeConfig {
    pub node_id: String,
    pub snapshot_interval: usize,
    pub bft_enabled: bool,
    pub conflict_policy: ConflictPolicy,
    pub sync_batch_size: usize,
    pub partition_threshold: Duration,
}

impl Default for RuntimeConfig {
    /// Node `node_<random uuid>`, a snapshot every 10 000 operations, no
    /// BFT, last writer wins, syncs of 1000, a one-hour partition
    /// threshold.
    fn default() -> (c: Self)
        ensures
            c.node_id@.len() == 41,
            c.node_id@.subrange(0, 5) == "node_"@,
            c.snapshot_interval == 10_000,
            !c.bft_enabled,
            c.conflict_policy == ConflictPolicy::LastWriterWins,
            c.sync_batch_size == 1000,
    {
        let mut node_id = String::from_str("node_");
        let u = new_uuid_v4();
        string_push_str(&mut node_id, u.as_str());
        proof {
            reveal_strlit("node_");
            assert(node_id@.subrange(0, 5) =~= "node_"@);
        }
        RuntimeConfig {
            node_id,
            snapshot_interval: 10_000,
            bft_enabled: false,
            conflict_policy: ConflictPolicy::LastWriterWins,
            sync_batch_size: 1000,
            partition_threshold: duration_from_secs(3600),
        }
    }
}

/// Runtime performance counters.
#[derive(Clone, Copy, Debug)]
pub struct RuntimeMetrics {
    pub operations_executed: u64,
    pub operations_synced: u64,
    pub conflicts_resolved: u64,
    pub bft_validations: u64,
    pub snapshots_created: u64,
    pub total_sync_bytes: u64,
    pub cache_hits: u64,
    pub cache_misses: u64,
}

impl Default for RuntimeMetrics {
    /// All counters zero.
    fn default() -> (m: Self)
        ensures
            m == (RuntimeMetrics {
                operations_executed: 0,
                operations_synced: 0,
                conflicts_resolved: 0,
                bft_validations: 0,
                snapshots_created: 0,
                total_sync_bytes: 0,
                cache_hits: 0,
                cache_misses: 0,
            }),
    {
        RuntimeMetrics {
            operations_executed: 0,
            operations_synced: 0,
            conflicts_resolved: 0,
            bft_validations: 0,
            snapshots_created: 0,
            total_sync_bytes: 0,
            cache_hits: 0,
            cache_misses: 0,
        }
    }
}

/// Runtime errors.
#[derive(Debug, Clone)]
pub enum RuntimeError {
    DocumentExists,
    DocumentNotFound,
    CounterNotFound,
    SetNotFound,
    MapNotFound,
    DAGError(String),
    SyncError(String),
    BFTError(String),
}

/// The text of a runtime error.
pub open spec fn runtime_error_text(e: RuntimeError) -> Seq<char> {
    match e {
        RuntimeError::DocumentExists => "Document already exists"@,
        RuntimeError::DocumentNotFound => "Document not found"@,
        RuntimeError::CounterNotFound => "Counter not found"@,
        RuntimeError::SetNotFound => "Set not found"@,
        RuntimeError::MapNotFound => "Map not found"@,
        RuntimeError::DAGError(msg) => "DAG error: "@ + msg@,
        RuntimeError::SyncError(msg) => "Sync error: "@ + msg@,
        RuntimeError::BFTError(msg) => "BFT error: "@ + msg@,
    }
}

fn prefixed(prefix: &str, msg: &String) -> (s: String)
    ensures
        s@ == prefix@ + msg@,
{
    let mut s = String::from_str(prefix);
    string_push_str(&mut s, msg.as_str());
    s
}

impl RuntimeError {
    /// The error's text.
    pub fn message(&self) -> (s: String)
        ensures
            s@ == runtime_error_text(*self),
    {
        match self {
            RuntimeError::DocumentExists => String::from_str("Document already exists"),
            RuntimeError::DocumentNotFound => String::from_str("Document not found"),
            RuntimeError::CounterNotFound => String::from_str("Counter not found"),
            RuntimeError::SetNotFound => String::from_str("Set not found"),
            RuntimeError::MapNotFound => String::from_str("Map not found"),
            RuntimeError::DAGError(msg) => prefixed("DAG error: ", msg),
            RuntimeError::SyncError(msg) => prefixed("Sync error: ", msg),
            RuntimeError::BFTError(msg) => prefixed("BFT error: ", msg),
        }
    }
}

impl From<String> for RuntimeError {
    /// A DAG error with the given message.
    fn from(s: String) -> (e: Self) {
        RuntimeError::DAGError(s)
    }
}

impl vstd::std_specs::convert::FromSpecImpl<String> for RuntimeError {
    open spec fn obeys_from_spec() -> bool {
        true
    }

    open spec fn from_spec(s: String) -> RuntimeError {
        RuntimeError::DAGError(s)
    }
}

impl RuntimeError {
    /// A DAG error carrying the text of `e`.
    pub fn from_dag(e: DagError) -> (r: Self)
        ensures
            r matches RuntimeError::DAGError(m) && m@ == dag_error_text(e),
    {
        RuntimeError::DAGError(e.message())
    }
}

/// The outcome of a sync.
#[derive(Debug, Clone)]
pub struct SyncResult {
    pub operations_synced: usize,
    pub bytes_transferred: usize,
    pub duration: Duration,
    pub snapshot_used: bool,
}

} // verus!
