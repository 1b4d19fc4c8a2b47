//! Snapshots of the application state, for garbage collection and fast
//! sync after long partitions.

use vstd::prelude::*;
use vstd::string::StringSliceAdditionalSpecFns;
use vstd::utf8::encode_utf8;
use std::io::{Read, Write};
use flate2::Compression;
use flate2::read::GzDecoder;
use flate2::write::GzEncoder;
use crate::assoc::str_eq;
use crate::clock::unix_secs;
use crate::digest::{le_bytes, push_le_bytes, push_str_bytes, sha256_hex, sha256_hex_of};
use crate::json::{json_quote, json_string_of, json_text, Json, JsonV};
use crate::text::{decimal, push_decimal, string_push_str};
use crate::version_vector::entries_json;
use crate::version_vector::VersionVector;

verus! {

/// The gzip stream (best compression) of a byte string.
pub uninterp spec fn gzip_best_of(data: Seq<u8>) -> Seq<u8>;

/// Gzip-compress bytes at the best level (flate2's `GzEncoder` over a
/// `Vec`, `write_all` then `finish`; writing into memory does not fail).
/// The stream is named by `gzip_best_of`.
#[verifier::external_body]
fn gzip_best(data: &[u8]) -> (r: Vec<u8>)
    ensures
        r@ == gzip_best_of(data@),
{
    let mut encoder = GzEncoder::new(Vec::new(), Compression::best());
    let _ = encoder.write_all(data);
    encoder.finish().unwrap_or_default()
}

/// Decompress a gzip stream of UTF-8 text (flate2's `GzDecoder` and
/// `read_to_string`); `None` when the bytes are not a gzip stream of UTF-8
/// text. For a stream that `gzip_best` made of a text's bytes it gives the
/// text back, as decompression undoes compression.
#[verifier::external_body]
fn gunzip_text(compressed: &[u8]) -> (r: Option<String>)
    ensures
        forall|t: Seq<char>| compressed@ == gzip_best_of(encode_utf8(t)) ==> r is Some && r->Some_0@ == t,
{
    let mut decoder = GzDecoder::new(compressed);
    let mut text = String::new();
    match decoder.read_to_string(&mut text) {
        Ok(_) => Some(text),
        Err(_) => None,
    }
}

/// A snapshot's ID: `snap_` and the first 19 hex digits of the SHA-256 of
/// the Merkle root and the little-endian operation count.
pub open spec fn snapshot_id(merkle_root: Seq<char>, operation_count: u64) -> Seq<char> {
    "snap_"@ + sha256_hex_of(encode_utf8(merkle_root) + le_bytes(operation_count)).subrange(0, 19)
}

/// A point-in-time snapshot of the state.
#[derive(Debug)]
pub struct Snapshot {
    /// Unique ID, derived from the Merkle root and the operation count.
    pub id: String,
    /// The whole state.
    pub state: Json,
    /// Merkle root of the operations up to this snapshot.
    pub merkle_root: String,
    /// Version vector at snapshot time.
    pub version_vector: VersionVector,
    /// Seconds since the Unix epoch at creation.
    pub timestamp: u64,
    /// Number of operations included.
    pub operation_count: u64,
    /// Size of the compressed state, in bytes.
    pub compressed_size: usize,
}

/// The JSON text of a snapshot, fields in declaration order, the version
/// vector as `{"versions":{..}}`.
pub open spec fn snapshot_json(s: Snapshot) -> Seq<char> {
    "{\"id\":"@ + json_string_of(s.id@) + ",\"state\":"@ + json_text(s.state@) + ",\"merkle_root\":"@
        + json_string_of(s.merkle_root@) + ",\"version_vector\":{\"versions\":{"@ + entries_json(
        s.version_vector.entries(),
    ) + "}},\"timestamp\":"@ + decimal(s.timestamp as nat) + ",\"operation_count\":"@ + decimal(
        s.operation_count as nat,
    ) + ",\"compressed_size\":"@ + decimal(s.compressed_size as nat) + "}"@
}


/// A snapshot, as values.
pub struct SnapView {
    pub id: Seq<char>,
    pub state: JsonV,
    pub merkle_root: Seq<char>,
    pub version: Map<Seq<char>, u64>,
    pub timestamp: u64,
    pub operation_count: u64,
    pub compressed_size: usize,
}

impl View for Snapshot {
    type V = SnapView;

    open spec fn view(&self) -> SnapView {
        SnapView {
            id: self.id@,
            state: self.state@,
            merkle_root: self.merkle_root@,
            version: self.version_vector@,
            timestamp: self.timestamp,
            operation_count: self.operation_count,
            compressed_size: self.compressed_size,
        }
    }
}


impl Snapshot {
    /// The JSON text of this snapshot (see `snapshot_json`).
    pub fn to_json(&self) -> (r: String)
        ensures
            r@ == snapshot_json(*self),
    {
        let mut r = String::from_str("{\"id\":");
        let q = json_quote(self.id.as_str());
        string_push_str(&mut r, q.as_str());
        string_push_str(&mut r, ",\"state\":");
        let j = self.state.to_json_string();
        string_push_str(&mut r, j.as_str());
        string_push_str(&mut r, ",\"merkle_root\":");
        let q = json_quote(self.merkle_root.as_str());
        string_push_str(&mut r, q.as_str());
        let ghost r1 = r@;
        string_push_str(&mut r, ",\"version_vector\":{\"versions\":");
        let v = self.version_vector.versions_json();
        string_push_str(&mut r, v.as_str());
        string_push_str(&mut r, "},\"timestamp\":");
        proof {
            reveal_strlit(",\"version_vector\":{\"versions\":");
            reveal_strlit(",\"version_vector\":{\"versions\":{");
            reveal_strlit("{");
            reveal_strlit("}");
            reveal_strlit("},\"timestamp\":");
            reveal_strlit("}},\"timestamp\":");
            assert(r@ =~= r1 + ",\"version_vector\":{\"versions\":{"@ + entries_json(self.version_vector.entries())
                + "}},\"timestamp\":"@);
        }
        push_decimal(&mut r, self.timestamp);
        string_push_str(&mut r, ",\"operation_count\":");
        push_decimal(&mut r, self.operation_count);
        string_push_str(&mut r, ",\"compressed_size\":");
        push_decimal(&mut r, self.compressed_size as u64);
        string_push_str(&mut r, "}");
        assert(r@ =~= snapshot_json(*self));
        r
    }

    /// A copy of this snapshot.
    pub fn copy(&self) -> (r: Self)
        ensures
            r@ == self@,
    {
        Snapshot {
            id: self.id.clone(),
            state: self.state.copy(),
            merkle_root: self.merkle_root.clone(),
            version_vector: self.version_vector.clone(),
            timestamp: self.timestamp,
            operation_count: self.operation_count,
            compressed_size: self.compressed_size,
        }
    }

    /// A snapshot of `state`, stamped now.
    pub fn new(state: Json, merkle_root: String, version_vector: VersionVector, operation_count: u64) -> (s:
        Self)
        ensures
            s.id@ == snapshot_id(merkle_root@, operation_count),
            s.state == state,
            s.merkle_root == merkle_root,
            s.version_vector == version_vector,
            s.operation_count == operation_count,
            s.compressed_size == gzip_best_of(encode_utf8(json_text(state@))).len(),
    {
        let serialized = state.to_json_string();
        let compressed = Self::compress_state(serialized.as_str());
        let compressed_size = compressed.len();
        let id = Self::generate_id(merkle_root.as_str(), operation_count);
        Snapshot {
            id,
            state,
            merkle_root,
            version_vector,
            timestamp: unix_secs(),
            operation_count,
            compressed_size,
        }
    }

    /// The gzip stream (best level) of a text.
    pub fn compress_state(state: &str) -> (c: Vec<u8>)
        ensures
            c@ == gzip_best_of(encode_utf8(state@)),
    {
        gzip_best(state.as_bytes())
    }

    /// The text a gzip stream holds; `None` for bytes that are not a gzip
    /// stream of UTF-8 text. A stream made by `compress_state` gives its
    /// text back.
    pub fn decompress_state(compressed: &[u8]) -> (s: Option<String>)
        ensures
            forall|t: Seq<char>| compressed@ == gzip_best_of(encode_utf8(t)) ==> (s matches Some(x) && x@ == t),
    {
        gunzip_text(compressed)
    }

    /// The compressed JSON text of the state, for transfer.
    pub fn to_compressed_bytes(&self) -> (c: Vec<u8>)
        ensures
            c@ == gzip_best_of(encode_utf8(json_text(self.state@))),
    {
        let json = self.state.to_json_string();
        Self::compress_state(json.as_str())
    }

    /// The state text a receiver reads back from `to_compressed_bytes`:
    /// the JSON text of the state itself.
    pub fn received_state_text(&self) -> (s: String)
        ensures
            s@ == json_text(self.state@),
    {
        let bytes = self.to_compressed_bytes();
        match Self::decompress_state(bytes.as_slice()) {
            Some(t) => t,
            None => {
                assert(false);
                String::new()
            },
        }
    }

    fn generate_id(merkle_root: &str, operation_count: u64) -> (id: String)
        ensures
            id@ == snapshot_id(merkle_root@, operation_count),
    {
        let mut bytes: Vec<u8> = Vec::new();
        push_str_bytes(&mut bytes, merkle_root);
        push_le_bytes(&mut bytes, operation_count);
        let hex = sha256_hex(bytes.as_slice());
        let mut id = String::from_str("snap_");
        crate::text::string_push_str(&mut id, hex.as_str().substring_char(0, 19));
        id
    }
}

/// The sum of the compressed sizes.
pub open spec fn sizes_sum(s: Seq<Snapshot>) -> int
    decreases s.len(),
{
    if s.len() == 0 { 0 } else { sizes_sum(s.drop_last()) + s.last().compressed_size }
}

/// Manages recent snapshots: one every `snapshot_interval` operations, at
/// most `max_snapshots` kept, older ones archived by ID.
#[derive(Debug)]
pub struct SnapshotManager {
    snapshots: Vec<Snapshot>,
    max_snapshots: usize,
    snapshot_interval: usize,
    total_operations: u64,
    archived_ids: Vec<String>,
}

impl SnapshotManager {
    /// Recent snapshots, oldest first.
    pub closed spec fn snapshots(self) -> Seq<Snapshot> {
        self.snapshots@
    }

    /// The most snapshots kept.
    pub closed spec fn max_snapshots(self) -> usize {
        self.max_snapshots
    }

    /// Operations per snapshot.
    pub closed spec fn interval(self) -> usize {
        self.snapshot_interval
    }

    /// Operations processed.
    pub closed spec fn total(self) -> u64 {
        self.total_operations
    }

    /// IDs of archived snapshots, oldest first.
    pub closed spec fn archived(self) -> Seq<Seq<char>> {
        self.archived_ids@.map_values(|s: String| s@)
    }

    /// A manager with no snapshots.
    pub fn new(max_snapshots: usize, snapshot_interval: usize) -> (m: Self)
        ensures
            m.snapshots().len() == 0,
            m.max_snapshots() == max_snapshots,
            m.interval() == snapshot_interval,
            m.total() == 0,
            m.archived().len() == 0,
    {
        SnapshotManager {
            snapshots: Vec::new(),
            max_snapshots,
            snapshot_interval,
            total_operations: 0,
            archived_ids: Vec::new(),
        }
    }

    /// Whether a snapshot is due: some operations done, a whole number of
    /// intervals.
    pub fn should_snapshot(&self) -> (b: bool)
        requires
            self.total() > 0 ==> self.interval() > 0,
        ensures
            b == (self.total() > 0 && self.total() % (self.interval() as u64) == 0),
    {
        self.total_operations > 0 && self.total_operations % (self.snapshot_interval as u64) == 0
    }

    /// Take a snapshot at the current operation count; the oldest beyond
    /// the limit are archived. Returns the new snapshot.
    pub fn create_snapshot(&mut self, state: Json, merkle_root: String, version_vector: VersionVector) -> (s:
        &Snapshot)
        requires
            old(self).max_snapshots() > 0,
        ensures
            ({
                let all = old(self).snapshots().push(*s);
                let cut = if all.len() > old(self).max_snapshots() {
                    all.len() - old(self).max_snapshots()
                } else {
                    0
                };
                &&& final(self).snapshots() == all.subrange(cut as int, all.len() as int)
                &&& final(self).archived() == old(self).archived() + all.subrange(0, cut as int).map_values(
                    |x: Snapshot| x.id@,
                )
            }),
            s.id@ == snapshot_id(merkle_root@, old(self).total()),
            s.state == state,
            s.merkle_root == merkle_root,
            s.version_vector == version_vector,
            s.operation_count == old(self).total(),
            final(self).max_snapshots() == old(self).max_snapshots(),
            final(self).interval() == old(self).interval(),
            final(self).total() == old(self).total(),
    {
        let snapshot = Snapshot::new(state, merkle_root, version_vector, self.total_operations);
        let ghost all = self.snapshots@.push(snapshot);
        let ghost arch0 = self.archived();
        let ghost max = self.max_snapshots;
        let ghost interval0 = self.snapshot_interval;
        let ghost total0 = self.total_operations;
        self.snapshots.push(snapshot);
        let ghost cut: int = if all.len() > max { all.len() - max } else { 0 };
        let ghost removed: int = 0;
        while self.snapshots.len() > self.max_snapshots
            invariant
                self.max_snapshots == max,
                self.snapshot_interval == interval0,
                self.total_operations == total0,
                max > 0,
                0 <= removed <= cut,
                cut == (if all.len() > max { all.len() - max } else { 0 }),
                self.snapshots@ == all.subrange(removed, all.len() as int),
                self.archived() == arch0 + all.subrange(0, removed).map_values(|x: Snapshot| x.id@),
                self.snapshots@.len() > 0,
            decreases self.snapshots@.len(),
        {
            let ghost arch_before = self.archived();
            let ghost snaps_before = self.snapshots@;
            let old_snap = self.snapshots.remove(0);
            let ghost old_id = old_snap.id@;
            self.archived_ids.push(old_snap.id);
            proof {
                assert(self.archived() =~= arch_before.push(old_id));
                assert(snaps_before[0] == all[removed]);
                removed = removed + 1;
                assert(self.snapshots@ =~= all.subrange(removed, all.len() as int));
                assert(all.subrange(0, removed).map_values(|x: Snapshot| x.id@) =~= all.subrange(
                    0,
                    removed - 1,
                ).map_values(|x: Snapshot| x.id@).push(old_id));
                assert(self.archived() =~= arch0 + all.subrange(0, removed).map_values(|x: Snapshot| x.id@));
            }
        }
        proof {
            assert(removed == cut);
        }
        let n = self.snapshots.len();
        &self.snapshots[n - 1]
    }

    /// Count one more operation.
    pub fn increment_operation_count(&mut self)
        requires
            old(self).total() < u64::MAX,
        ensures
            final(self).total() == old(self).total() + 1,
            final(self).snapshots() == old(self).snapshots(),
            final(self).max_snapshots() == old(self).max_snapshots(),
            final(self).interval() == old(self).interval(),
            final(self).archived() == old(self).archived(),
    {
        self.total_operations = self.total_operations + 1;
    }

    /// The operation count of the second most recent snapshot, if there are
    /// two: operations before it may be trimmed.
    pub fn get_trimable_threshold(&self) -> (t: Option<u64>)
        ensures
            t == (if self.snapshots().len() >= 2 {
                Some(self.snapshots()[self.snapshots().len() - 2].operation_count)
            } else {
                None::<u64>
            }),
    {
        let n = self.snapshots.len();
        if n >= 2 {
            Some(self.snapshots[n - 2].operation_count)
        } else {
            None
        }
    }

    /// The most recent snapshot.
    pub fn get_latest(&self) -> (s: Option<&Snapshot>)
        ensures
            s == (if self.snapshots().len() > 0 {
                Some(&self.snapshots()[self.snapshots().len() - 1])
            } else {
                None::<&Snapshot>
            }),
    {
        let n = self.snapshots.len();
        if n > 0 {
            Some(&self.snapshots[n - 1])
        } else {
            None
        }
    }

    /// The oldest kept snapshot with an ID.
    pub fn get_by_id(&self, id: &str) -> (s: Option<&Snapshot>)
        ensures
            match s {
                Some(x) => exists|i: int| 0 <= i < self.snapshots().len() && self.snapshots()[i] == *x && x.id@ == id@
                    && forall|j: int| 0 <= j < i ==> self.snapshots()[j].id@ != id@,
                None => forall|j: int| 0 <= j < self.snapshots().len() ==> self.snapshots()[j].id@ != id@,
            },
    {
        let mut i: usize = 0;
        while i < self.snapshots.len()
            invariant
                i <= self.snapshots@.len(),
                forall|j: int| 0 <= j < i ==> self.snapshots@[j].id@ != id@,
            decreases self.snapshots@.len() - i,
        {
            if str_eq(self.snapshots[i].id.as_str(), id) {
                return Some(&self.snapshots[i]);
            }
            i = i + 1;
        }
        None
    }

    /// The IDs of the kept snapshots, oldest first.
    pub fn get_snapshot_ids(&self) -> (v: Vec<String>)
        ensures
            v@.map_values(|s: String| s@) == self.snapshots().map_values(|x: Snapshot| x.id@),
    {
        let mut v: Vec<String> = Vec::new();
        let mut i: usize = 0;
        while i < self.snapshots.len()
            invariant
                i <= self.snapshots@.len(),
                v@.len() == i,
                v@.map_values(|s: String| s@) == self.snapshots@.subrange(0, i as int).map_values(|x: Snapshot| x.id@),
            decreases self.snapshots@.len() - i,
        {
            let ghost before = v@;
            v.push(self.snapshots[i].id.clone());
            assert(v@.map_values(|s: String| s@) =~= before.map_values(|s: String| s@).push(self.snapshots@[i as int].id@));
            assert(v@.map_values(|s: String| s@) =~= self.snapshots@.subrange(0, i + 1).map_values(
                |x: Snapshot| x.id@,
            ));
            i = i + 1;
        }
        assert(self.snapshots@.subrange(0, self.snapshots@.len() as int) =~= self.snapshots@);
        v
    }

    /// The most recent kept snapshot whose ID the peer also has.
    pub fn find_common_snapshot(&self, peer_snapshot_ids: &[String]) -> (s: Option<&Snapshot>)
        ensures
            match s {
                Some(x) => exists|i: int| 0 <= i < self.snapshots().len() && self.snapshots()[i] == *x
                    && peer_snapshot_ids@.map_values(|p: String| p@).contains(x.id@) && forall|j: int| i < j
                    < self.snapshots().len() ==> !peer_snapshot_ids@.map_values(|p: String| p@).contains(
                    self.snapshots()[j].id@,
                ),
                None => forall|j: int| 0 <= j < self.snapshots().len() ==> !peer_snapshot_ids@.map_values(
                    |p: String| p@,
                ).contains(self.snapshots()[j].id@),
            },
    {
        let ghost peers = peer_snapshot_ids@.map_values(|p: String| p@);
        let mut i: usize = self.snapshots.len();
        while i > 0
            invariant
                i <= self.snapshots@.len(),
                peers == peer_snapshot_ids@.map_values(|p: String| p@),
                forall|j: int| i <= j < self.snapshots@.len() ==> !peers.contains(self.snapshots@[j].id@),
            decreases i,
        {
            i = i - 1;
            let id = self.snapshots[i].id.as_str();
            let mut k: usize = 0;
            let mut found = false;
            while k < peer_snapshot_ids.len()
                invariant
                    k <= peer_snapshot_ids@.len(),
                    peers == peer_snapshot_ids@.map_values(|p: String| p@),
                    found == (exists|q: int| 0 <= q < k && peers[q] == id@),
                decreases peer_snapshot_ids@.len() - k,
            {
                if str_eq(peer_snapshot_ids[k].as_str(), id) {
                    found = true;
                    assert(peers[k as int] == id@);
                }
                k = k + 1;
            }
            if found {
                return Some(&self.snapshots[i]);
            }
        }
        None
    }

    /// The total compressed size of the kept snapshots.
    pub fn memory_footprint(&self) -> (n: usize)
        requires
            sizes_sum(self.snapshots()) <= usize::MAX,
        ensures
            n == sizes_sum(self.snapshots()),
    {
        let mut n: usize = 0;
        let mut i: usize = 0;
        while i < self.snapshots.len()
            invariant
                i <= self.snapshots@.len(),
                n == sizes_sum(self.snapshots@.subrange(0, i as int)),
                sizes_sum(self.snapshots@) <= usize::MAX,
            decreases self.snapshots@.len() - i,
        {
            proof {
                assert(self.snapshots@.subrange(0, i + 1).drop_last() =~= self.snapshots@.subrange(0, i as int));
                lemma_sizes_prefix(self.snapshots@, i + 1);
            }
            n = n + self.snapshots[i].compressed_size;
            i = i + 1;
        }
        assert(self.snapshots@.subrange(0, self.snapshots@.len() as int) =~= self.snapshots@);
        n
    }

    /// Operations processed.
    pub fn total_operations(&self) -> (n: u64)
        ensures
            n == self.total(),
    {
        self.total_operations
    }

    /// The number of kept snapshots.
    pub fn snapshot_count(&self) -> (n: usize)
        ensures
            n == self.snapshots().len(),
    {
        self.snapshots.len()
    }
}

proof fn lemma_sizes_prefix(s: Seq<Snapshot>, k: int)
    requires
        0 <= k <= s.len(),
    ensures
        sizes_sum(s.subrange(0, k)) <= sizes_sum(s),
    decreases s.len() - k,
{
    if k < s.len() {
        lemma_sizes_prefix(s, k + 1);
        assert(s.subrange(0, k + 1).drop_last() =~= s.subrange(0, k));
    } else {
        assert(s.subrange(0, k) =~= s);
    }
}

/// Compressing then decompressing gives the text back.
pub proof fn lemma_compression_round_trip(t: Seq<char>, c: Seq<u8>, r: Seq<char>)
    requires
        c == gzip_best_of(encode_utf8(t)),
        forall|u: Seq<char>| c == gzip_best_of(encode_utf8(u)) ==> r == u,
    ensures
        r == t,
{
}

} // verus!
