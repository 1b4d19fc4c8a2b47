//! Types of the hierarchical sync protocol.

use vstd::prelude::*;
use std::time::{Duration, Instant};
use vstd::utf8::encode_utf8;
use crate::causal_op::{op_json, CausalOp, OpView};
use crate::clock::{duration_millis, elapsed_millis, elapsed_since, instant_now};
use crate::snapshot::{SnapView, Snapshot};
use crate::assoc::str_eq;
use crate::text::string_push_str;
use crate::version_vector::VersionVector;

verus! {

/// A sync request sent to a peer.
#[derive(Clone, Debug)]
pub struct SyncRequest {
    pub node_id: String,
    pub version_vector: VersionVector,
    pub latest_snapshot_id: Option<String>,
    pub merkle_root: String,
}

/// Statistics of a sync.
#[derive(Clone, Debug)]
pub struct SyncStats {
    pub snapshot_downloaded: bool,
    pub snapshot_size_bytes: usize,
    pub operations_applied: usize,
    pub operations_size_bytes: usize,
    pub total_bytes: usize,
    pub sync_duration: Duration,
}

/// How to sync.
#[derive(Debug, Clone, Copy, PartialEq, Eq, Structural)]
pub enum SyncStrategy {
    /// Short partition: diff the operations by Merkle tree.
    MerkleDiff,
    /// Long partition: a snapshot plus the recent operations.
    Hierarchical,
}

/// Sync errors.
#[derive(Debug, Clone)]
pub enum SyncError {
    MissingSnapshot,
    InvalidOperation,
    NetworkError(String),
    CompressionError,
}

/// The text of a sync error.
pub open spec fn sync_error_text(e: SyncError) -> Seq<char> {
    match e {
        SyncError::MissingSnapshot => "Required snapshot not found"@,
        SyncError::InvalidOperation => "Invalid operation in sync"@,
        SyncError::NetworkError(msg) => "Network error: "@ + msg@,
        SyncError::CompressionError => "Compression/decompression error"@,
    }
}

impl SyncError {
    /// The error's text.
    pub fn message(&self) -> (s: String)
        ensures
            s@ == sync_error_text(*self),
    {
        match self {
            SyncError::MissingSnapshot => String::from_str("Required snapshot not found"),
            SyncError::InvalidOperation => String::from_str("Invalid operation in sync"),
            SyncError::NetworkError(msg) => {
                let mut s = String::from_str("Network error: ");
                string_push_str(&mut s, msg.as_str());
                s
            },
            SyncError::CompressionError => String::from_str("Compression/decompression error"),
        }
    }
}

/// A sync response from a peer.
#[derive(Debug)]
pub struct SyncResponse {
    pub common_snapshot: Option<Snapshot>,
    pub snapshot_to_download: Option<String>,
    pub operations_after_snapshot: Vec<CausalOp>,
    pub total_operations: usize,
    pub estimated_size_bytes: usize,
}

/// The total length in bytes of the JSON texts of the first `n` operations.
pub open spec fn json_size(ops: Seq<CausalOp>, n: int) -> int
    decreases n,
{
    if n <= 0 || n > ops.len() { 0 } else { json_size(ops, n - 1) + encode_utf8(op_json(ops[n - 1])).len() }
}

/// The estimated wire size of operations: their JSON size, a fifth of it
/// when compressed.
pub open spec fn ops_size_estimate(ops: Seq<CausalOp>, compression: bool) -> int {
    if compression { json_size(ops, ops.len() as int) / 5 } else { json_size(ops, ops.len() as int) }
}

/// The position of the last snapshot among the first `n` with ID `id`;
/// -1 if none.
pub open spec fn last_with_id(s: Seq<Snapshot>, id: Seq<char>, n: int) -> int
    decreases n,
{
    if n <= 0 || n > s.len() {
        -1
    } else if s[n - 1].id@ == id {
        n - 1
    } else {
        last_with_id(s, id, n - 1)
    }
}

/// The views of a list of operations.
pub open spec fn op_views(s: Seq<CausalOp>) -> Seq<OpView> {
    s.map_values(|o: CausalOp| o@)
}

/// What applying `response` (with the downloaded snapshot, if any) to
/// store `o` gives: store `n` and result `r` (see
/// `HierarchicalSync::apply_sync_response`).
pub open spec fn response_applied(
    o: HierarchicalSync,
    n: HierarchicalSync,
    response: SyncResponse,
    snapshot_data: Option<Snapshot>,
    r: Result<SyncStats, SyncError>,
) -> bool {
    &&& n.compression() == o.compression()
    &&& n.batch() == o.batch()
    &&& response.snapshot_to_download is Some && snapshot_data is None ==> {
        &&& r matches Err(SyncError::MissingSnapshot)
        &&& n.snapshots() == o.snapshots()
        &&& n.operations() == o.operations()
    }
    &&& response.snapshot_to_download is Some && snapshot_data is Some ==> {
        let snap = snapshot_data->Some_0;
        &&& n.snapshots() == o.snapshots().push(snap)
        &&& n.operations() == response.operations_after_snapshot@
        &&& r matches Ok(stats) && {
            &&& stats.snapshot_downloaded
            &&& stats.snapshot_size_bytes == snap.compressed_size
            &&& stats.operations_applied == response.operations_after_snapshot@.len()
            &&& stats.operations_size_bytes == response.estimated_size_bytes - snap.compressed_size
            &&& stats.total_bytes == response.estimated_size_bytes
        }
    }
    &&& response.snapshot_to_download is None ==> {
        &&& n.snapshots() == o.snapshots()
        &&& n.operations() == o.operations() + response.operations_after_snapshot@
        &&& r matches Ok(stats) && {
            &&& !stats.snapshot_downloaded
            &&& stats.snapshot_size_bytes == 0
            &&& stats.operations_applied == response.operations_after_snapshot@.len()
            &&& stats.operations_size_bytes == response.estimated_size_bytes
            &&& stats.total_bytes == response.estimated_size_bytes
        }
    }
}

/// Syncs by snapshots and the operations after them: a peer far behind
/// downloads a snapshot instead of the whole history.
#[derive(Debug)]
pub struct HierarchicalSync {
    local_snapshots: Vec<Snapshot>,
    local_operations: Vec<CausalOp>,
    batch_size: usize,
    compression_enabled: bool,
}

impl HierarchicalSync {
    /// The local snapshots, oldest first.
    pub closed spec fn snapshots(self) -> Seq<Snapshot> {
        self.local_snapshots@
    }

    /// The local operations, in the order added.
    pub closed spec fn operations(self) -> Seq<CausalOp> {
        self.local_operations@
    }

    /// Whether sizes are estimated for compressed transfer.
    pub closed spec fn compression(self) -> bool {
        self.compression_enabled
    }

    /// The batch size.
    pub closed spec fn batch(self) -> usize {
        self.batch_size
    }

    /// What answering `request` gives: the most recent local snapshot with
    /// the ID the peer names, with every local operation; or, when there is
    /// none, the latest local snapshot to download and every local
    /// operation, with the snapshot's size in the estimate.
    pub open spec fn is_response_to(self, r: SyncResponse, request: SyncRequest) -> bool {
        let snaps = self.snapshots();
        let ops = self.operations();
        let common = match request.latest_snapshot_id {
            Some(id) => last_with_id(snaps, id@, snaps.len() as int),
            None => -1,
        };
        &&& op_views(r.operations_after_snapshot@) == op_views(ops)
        &&& r.total_operations == ops.len()
        &&& if common >= 0 {
            &&& r.common_snapshot matches Some(c) && c@ == snaps[common]@
            &&& r.snapshot_to_download is None
            &&& r.estimated_size_bytes == ops_size_estimate(ops, self.compression())
        } else {
            &&& r.common_snapshot is None
            &&& if snaps.len() > 0 {
                &&& r.snapshot_to_download matches Some(id) && id@ == snaps.last().id@
                &&& r.estimated_size_bytes == snaps.last().compressed_size + ops_size_estimate(ops, self.compression())
            } else {
                &&& r.snapshot_to_download is None
                &&& r.estimated_size_bytes == ops_size_estimate(ops, self.compression())
            }
        }
    }

    /// An empty store.
    pub fn new(batch_size: usize, compression_enabled: bool) -> (h: Self)
        ensures
            h.snapshots().len() == 0,
            h.operations().len() == 0,
            h.batch() == batch_size,
            h.compression() == compression_enabled,
    {
        HierarchicalSync { local_snapshots: Vec::new(), local_operations: Vec::new(), batch_size, compression_enabled }
    }

    /// Stores a snapshot.
    pub fn add_snapshot(&mut self, snapshot: Snapshot)
        ensures
            final(self).snapshots() == old(self).snapshots().push(snapshot),
            final(self).operations() == old(self).operations(),
            final(self).compression() == old(self).compression(),
            final(self).batch() == old(self).batch(),
    {
        self.local_snapshots.push(snapshot);
    }

    /// Stores operations after the ones held.
    pub fn add_operations(&mut self, ops: Vec<CausalOp>)
        ensures
            final(self).operations() == old(self).operations() + ops@,
            final(self).snapshots() == old(self).snapshots(),
            final(self).compression() == old(self).compression(),
            final(self).batch() == old(self).batch(),
    {
        let mut ops = ops;
        self.local_operations.append(&mut ops);
    }

    /// A request naming this node, its version, its Merkle root and its
    /// latest snapshot.
    pub fn prepare_sync_request(&self, node_id: String, version_vector: VersionVector, merkle_root: String) -> (r:
        SyncRequest)
        ensures
            r.node_id == node_id,
            r.version_vector == version_vector,
            r.merkle_root == merkle_root,
            match r.latest_snapshot_id {
                Some(id) => self.snapshots().len() > 0 && id@ == self.snapshots().last().id@,
                None => self.snapshots().len() == 0,
            },
    {
        let n = self.local_snapshots.len();
        let latest_snapshot_id = if n > 0 {
            Some(self.local_snapshots[n - 1].id.clone())
        } else {
            None
        };
        SyncRequest { node_id, version_vector, latest_snapshot_id, merkle_root }
    }

    fn copy_operations(&self) -> (r: Vec<CausalOp>)
        ensures
            op_views(r@) == op_views(self.operations()),
    {
        let mut r: Vec<CausalOp> = Vec::new();
        let mut i: usize = 0;
        while i < self.local_operations.len()
            invariant
                i <= self.local_operations@.len(),
                r@.len() == i,
                forall|j: int| 0 <= j < i ==> (#[trigger] r@[j])@ == self.local_operations@[j]@,
            decreases self.local_operations@.len() - i,
        {
            r.push(self.local_operations[i].copy());
            i = i + 1;
        }
        assert(op_views(r@) =~= op_views(self.operations()));
        r
    }

    fn estimate_size(&self) -> (n: usize)
        requires
            json_size(self.operations(), self.operations().len() as int) <= usize::MAX,
        ensures
            n == ops_size_estimate(self.operations(), self.compression()),
    {
        let mut total: usize = 0;
        let mut i: usize = 0;
        while i < self.local_operations.len()
            invariant
                i <= self.local_operations@.len(),
                total == json_size(self.operations(), i as int),
                json_size(self.operations(), self.operations().len() as int) <= usize::MAX,
            decreases self.local_operations@.len() - i,
        {
            let text = self.local_operations[i].to_json();
            let len = text.as_str().as_bytes().len();
            proof { lemma_json_size_grows(self.operations(), i + 1, self.operations().len() as int); }
            total = total + len;
            i = i + 1;
        }
        if self.compression_enabled {
            total / 5
        } else {
            total
        }
    }

    /// Answers a peer's sync request (see `is_response_to`).
    pub fn handle_sync_request(&self, request: SyncRequest) -> (r: SyncResponse)
        requires
            json_size(self.operations(), self.operations().len() as int) + (if self.snapshots().len() > 0 {
                self.snapshots().last().compressed_size as int
            } else {
                0
            }) <= usize::MAX,
        ensures
            self.is_response_to(r, request),
    {
        let n = self.local_snapshots.len();
        let mut common: Option<usize> = None;
        match &request.latest_snapshot_id {
            Some(id) => {
                let mut i: usize = n;
                while i > 0
                    invariant_except_break
                        common is None,
                    invariant
                        i <= n,
                        n == self.local_snapshots@.len(),
                        last_with_id(self.snapshots(), id@, n as int) == last_with_id(self.snapshots(), id@, i as int),
                    ensures
                        common matches Some(c) ==> c == last_with_id(self.snapshots(), id@, n as int),
                        common is None ==> last_with_id(self.snapshots(), id@, n as int) == -1,
                    decreases i,
                {
                    if str_eq(self.local_snapshots[i - 1].id.as_str(), id.as_str()) {
                        common = Some(i - 1);
                        break;
                    }
                    i = i - 1;
                }
                proof { lemma_last_with_id(self.snapshots(), id@, n as int); }
                assert(common matches Some(c) ==> c == last_with_id(self.snapshots(), id@, n as int));
                assert(common is None ==> last_with_id(self.snapshots(), id@, n as int) == -1);
            },
            None => {},
        }
        let ops = self.copy_operations();
        let total = ops.len();
        assert(op_views(ops@).len() == op_views(self.operations()).len());
        let est = self.estimate_size();
        match common {
            Some(c) => SyncResponse {
                common_snapshot: Some(self.local_snapshots[c].copy()),
                snapshot_to_download: None,
                operations_after_snapshot: ops,
                total_operations: total,
                estimated_size_bytes: est,
            },
            None => {
                if n > 0 {
                    let size = self.local_snapshots[n - 1].compressed_size;
                    SyncResponse {
                        common_snapshot: None,
                        snapshot_to_download: Some(self.local_snapshots[n - 1].id.clone()),
                        operations_after_snapshot: ops,
                        total_operations: total,
                        estimated_size_bytes: size + est,
                    }
                } else {
                    SyncResponse {
                        common_snapshot: None,
                        snapshot_to_download: None,
                        operations_after_snapshot: ops,
                        total_operations: total,
                        estimated_size_bytes: est,
                    }
                }
            },
        }
    }

    /// Applies a peer's response: when it names a snapshot to download,
    /// `snapshot_data` must hold it (else `MissingSnapshot`, with nothing
    /// changed) and replaces the local operations; then the response's
    /// operations are appended.
    pub fn apply_sync_response(&mut self, response: SyncResponse, snapshot_data: Option<Snapshot>) -> (r: Result<
        SyncStats,
        SyncError,
    >)
        requires
            response.snapshot_to_download is Some && snapshot_data is Some ==> snapshot_data->Some_0.compressed_size
                <= response.estimated_size_bytes,
        ensures
            response_applied(*old(self), *final(self), response, snapshot_data, r),
    {
        let start = instant_now();
        let mut downloaded = false;
        let mut snapshot_size: usize = 0;
        if response.snapshot_to_download.is_some() {
            match snapshot_data {
                Some(snapshot) => {
                    snapshot_size = snapshot.compressed_size;
                    self.local_operations = Vec::new();
                    self.local_snapshots.push(snapshot);
                    downloaded = true;
                },
                None => {
                    return Err(SyncError::MissingSnapshot);
                },
            }
        }
        let SyncResponse { operations_after_snapshot, estimated_size_bytes, .. } = response;
        let mut ops = operations_after_snapshot;
        let applied = ops.len();
        self.local_operations.append(&mut ops);
        let operations_size_bytes = estimated_size_bytes - snapshot_size;
        Ok(SyncStats {
            snapshot_downloaded: downloaded,
            snapshot_size_bytes: snapshot_size,
            operations_applied: applied,
            operations_size_bytes,
            total_bytes: snapshot_size + operations_size_bytes,
            sync_duration: elapsed_since(&start),
        })
    }

    /// The number of local snapshots.
    pub fn snapshot_count(&self) -> (n: usize)
        ensures
            n == self.snapshots().len(),
    {
        self.local_snapshots.len()
    }

    /// The number of local operations.
    pub fn operation_count(&self) -> (n: usize)
        ensures
            n == self.operations().len(),
    {
        self.local_operations.len()
    }
}

proof fn lemma_last_with_id(s: Seq<Snapshot>, id: Seq<char>, n: int)
    requires
        0 <= n <= s.len(),
    ensures
        -1 <= last_with_id(s, id, n) < n,
    decreases n,
{
    if n > 0 {
        lemma_last_with_id(s, id, n - 1);
    }
}

proof fn lemma_json_size_grows(ops: Seq<CausalOp>, i: int, n: int)
    requires
        0 <= i <= n <= ops.len(),
    ensures
        json_size(ops, i) <= json_size(ops, n),
    decreases n - i,
{
    if i < n {
        lemma_json_size_grows(ops, i, n - 1);
    }
}

/// The strategy for a partition of `elapsed_ms` milliseconds: hierarchical
/// when it lasted longer than the threshold, Merkle diff otherwise.
pub open spec fn spec_strategy_for(elapsed_ms: u64, threshold_ms: u64) -> SyncStrategy {
    if elapsed_ms > threshold_ms { SyncStrategy::Hierarchical } else { SyncStrategy::MerkleDiff }
}

/// The strategy for a partition of `elapsed_ms` milliseconds (see
/// `spec_strategy_for`).
pub fn strategy_for(elapsed_ms: u64, threshold_ms: u64) -> (s: SyncStrategy)
    ensures
        s == spec_strategy_for(elapsed_ms, threshold_ms),
{
    if elapsed_ms > threshold_ms {
        SyncStrategy::Hierarchical
    } else {
        SyncStrategy::MerkleDiff
    }
}

/// Chooses between Merkle diff and hierarchical sync by how long the
/// partition lasted.
#[derive(Debug)]
pub struct AdaptiveSync {
    hierarchical: HierarchicalSync,
    /// The partition length beyond which a snapshot is used, milliseconds.
    partition_threshold_ms: u64,
}

impl AdaptiveSync {
    /// The hierarchical store behind it.
    pub closed spec fn inner(self) -> HierarchicalSync {
        self.hierarchical
    }

    /// The partition length beyond which a snapshot is used, milliseconds.
    pub closed spec fn threshold_ms(self) -> u64 {
        self.partition_threshold_ms
    }

    /// An empty store, estimating compressed transfers.
    pub fn new(batch_size: usize, partition_threshold: Duration) -> (a: Self)
        ensures
            a.inner().snapshots().len() == 0,
            a.inner().operations().len() == 0,
            a.inner().batch() == batch_size,
            a.inner().compression(),
    {
        AdaptiveSync {
            hierarchical: HierarchicalSync::new(batch_size, true),
            partition_threshold_ms: duration_millis(partition_threshold),
        }
    }

    /// Hierarchical when more than the threshold has passed since
    /// `last_sync` (by the clock), Merkle diff otherwise (see
    /// `strategy_for`). The clock gives the time passed.
    pub fn sync_strategy(&self, last_sync: Instant) -> (s: SyncStrategy)
        ensures
            exists|elapsed_ms: u64| s == spec_strategy_for(elapsed_ms, self.threshold_ms()),
    {
        let elapsed = elapsed_millis(&last_sync);
        let s = strategy_for(elapsed, self.partition_threshold_ms);
        assert(s == spec_strategy_for(elapsed, self.threshold_ms()));
        s
    }

    /// Stores a snapshot.
    pub fn add_snapshot(&mut self, snapshot: Snapshot)
        ensures
            final(self).inner().snapshots() == old(self).inner().snapshots().push(snapshot),
            final(self).inner().operations() == old(self).inner().operations(),
            final(self).inner().compression() == old(self).inner().compression(),
            final(self).threshold_ms() == old(self).threshold_ms(),
    {
        self.hierarchical.add_snapshot(snapshot);
    }

    /// Stores operations after the ones held.
    pub fn add_operations(&mut self, ops: Vec<CausalOp>)
        ensures
            final(self).inner().operations() == old(self).inner().operations() + ops@,
            final(self).inner().snapshots() == old(self).inner().snapshots(),
            final(self).inner().compression() == old(self).inner().compression(),
            final(self).threshold_ms() == old(self).threshold_ms(),
    {
        self.hierarchical.add_operations(ops);
    }

    /// A request (see `HierarchicalSync::prepare_sync_request`).
    pub fn prepare_request(&self, node_id: String, version_vector: VersionVector, merkle_root: String) -> (r:
        SyncRequest)
        ensures
            r.node_id == node_id,
            r.version_vector == version_vector,
            r.merkle_root == merkle_root,
            match r.latest_snapshot_id {
                Some(id) => self.inner().snapshots().len() > 0 && id@ == self.inner().snapshots().last().id@,
                None => self.inner().snapshots().len() == 0,
            },
    {
        self.hierarchical.prepare_sync_request(node_id, version_vector, merkle_root)
    }

    /// Applies a peer's response (see `HierarchicalSync::apply_sync_response`).
    pub fn apply_response(&mut self, response: SyncResponse, snapshot_data: Option<Snapshot>) -> (r: Result<
        SyncStats,
        SyncError,
    >)
        requires
            response.snapshot_to_download is Some && snapshot_data is Some ==> snapshot_data->Some_0.compressed_size
                <= response.estimated_size_bytes,
        ensures
            response_applied(old(self).inner(), final(self).inner(), response, snapshot_data, r),
            final(self).threshold_ms() == old(self).threshold_ms(),
    {
        self.hierarchical.apply_sync_response(response, snapshot_data)
    }

    /// Answers a request (see `HierarchicalSync::handle_sync_request`).
    pub fn handle_request(&self, request: SyncRequest) -> (r: SyncResponse)
        requires
            json_size(self.inner().operations(), self.inner().operations().len() as int) + (if self.inner().snapshots().len()
                > 0 {
                self.inner().snapshots().last().compressed_size as int
            } else {
                0
            }) <= usize::MAX,
        ensures
            self.inner().is_response_to(r, request),
    {
        self.hierarchical.handle_sync_request(request)
    }
}

} // verus!
