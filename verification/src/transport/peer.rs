//! Peer management: connected peers, their state and capabilities.

use vstd::prelude::*;
use std::time::{Duration, Instant};
use crate::assoc::StrMap;
use crate::order::string_views;
use crate::version_vector::VersionVector;
use crate::assoc::map_sum;
use crate::clock::{instant_now, elapsed_millis, over_limit, duration_from_secs};

verus! {

/// State of a peer connection.
#[derive(Debug, Clone, Copy, PartialEq, Eq, Structural)]
pub enum PeerState {
    /// Connecting (handshake in progress).
    Connecting,
    /// Connected and ready.
    Connected,
    /// Syncing data.
    Syncing,
    /// Connection lost, will retry.
    Reconnecting,
    /// Permanently disconnected.
    Disconnected,
}

/// Information about a peer.
pub struct PeerInfo {
    /// Peer's node ID.
    pub node_id: String,
    /// Connection address.
    pub address: String,
    /// Current state.
    pub state: PeerState,
    /// Peer's capabilities.
    pub capabilities: Vec<String>,
    /// Session token.
    pub session_token: Option<String>,
    /// Last known version vector.
    pub version_vector: Option<VersionVector>,
    /// Last activity time.
    pub last_seen: Instant,
    /// Last ping latency.
    pub latency_ms: Option<u32>,
    /// Connection attempt count.
    pub connect_attempts: u32,
    /// Whether this is an outbound connection.
    pub outbound: bool,
}

/// `p` is a peer record just created for `node_id` at `address`.
pub open spec fn is_new_peer(p: PeerInfo, node_id: Seq<char>, address: Seq<char>, outbound: bool) -> bool {
    &&& p.node_id@ == node_id
    &&& p.address@ == address
    &&& p.state == PeerState::Connecting
    &&& p.capabilities@.len() == 0
    &&& p.session_token is None
    &&& p.version_vector is None
    &&& p.latency_ms is None
    &&& p.connect_attempts == (if outbound { 1u32 } else { 0u32 })
    &&& p.outbound == outbound
}

/// `a` and `b` agree on everything but the last-seen time.
pub open spec fn same_but_time(a: PeerInfo, b: PeerInfo) -> bool {
    &&& a.node_id == b.node_id
    &&& a.address == b.address
    &&& a.state == b.state
    &&& a.capabilities == b.capabilities
    &&& a.session_token == b.session_token
    &&& a.version_vector == b.version_vector
    &&& a.latency_ms == b.latency_ms
    &&& a.connect_attempts == b.connect_attempts
    &&& a.outbound == b.outbound
}

/// A peer counts as connected when connected or syncing.
pub open spec fn peer_connected(p: PeerInfo) -> bool {
    p.state == PeerState::Connected || p.state == PeerState::Syncing
}

/// `b` is `a` after a successful handshake.
pub open spec fn is_handshaken(a: PeerInfo, b: PeerInfo, capabilities: Seq<String>, token: String) -> bool {
    &&& b.node_id == a.node_id
    &&& b.address == a.address
    &&& b.state == PeerState::Connected
    &&& b.capabilities@ == capabilities
    &&& b.session_token == Some(token)
    &&& b.version_vector == a.version_vector
    &&& b.latency_ms == a.latency_ms
    &&& b.connect_attempts == a.connect_attempts
    &&& b.outbound == a.outbound
}

impl PeerInfo {
    /// Create a new peer info for an outbound connection.
    pub fn new_outbound(node_id: String, address: String) -> (p: Self)
        ensures
            is_new_peer(p, node_id@, address@, true),
    {
        PeerInfo {
            node_id,
            address,
            state: PeerState::Connecting,
            capabilities: Vec::new(),
            session_token: None,
            version_vector: None,
            last_seen: instant_now(),
            latency_ms: None,
            connect_attempts: 1,
            outbound: true,
        }
    }

    /// Create a new peer info for an inbound connection.
    pub fn new_inbound(node_id: String, address: String) -> (p: Self)
        ensures
            is_new_peer(p, node_id@, address@, false),
    {
        PeerInfo {
            node_id,
            address,
            state: PeerState::Connecting,
            capabilities: Vec::new(),
            session_token: None,
            version_vector: None,
            last_seen: instant_now(),
            latency_ms: None,
            connect_attempts: 0,
            outbound: false,
        }
    }

    /// Update the last-seen time to now.
    pub fn touch(&mut self)
        ensures
            same_but_time(*old(self), *final(self)),
    {
        self.last_seen = instant_now();
    }

    /// Whether a peer silent for `elapsed_ms` milliseconds is stale under
    /// a timeout of `timeout_ms` milliseconds.
    pub fn is_stale_at(&self, elapsed_ms: u64, timeout_ms: u64) -> (b: bool)
        ensures
            b == over_limit(elapsed_ms, timeout_ms),
    {
        elapsed_ms > timeout_ms
    }

    /// Check if the peer has had no activity for longer than `timeout_ms`
    /// milliseconds (the clock gives the time passed; see `is_stale_at`).
    pub fn is_stale(&self, timeout_ms: u64) -> (b: bool)
        ensures
            exists|elapsed_ms: u64| b == #[trigger] over_limit(elapsed_ms, timeout_ms),
    {
        let e = elapsed_millis(&self.last_seen);
        self.is_stale_at(e, timeout_ms)
    }

    /// Check if the peer is connected (or syncing).
    pub fn is_connected(&self) -> (b: bool)
        ensures
            b == peer_connected(*self),
    {
        match self.state {
            PeerState::Connected | PeerState::Syncing => true,
            _ => false,
        }
    }

    /// Set connected state after a successful handshake.
    pub fn set_connected(&mut self, capabilities: Vec<String>, session_token: String)
        ensures
            is_handshaken(*old(self), *final(self), capabilities@, session_token),
    {
        self.state = PeerState::Connected;
        self.capabilities = capabilities;
        self.session_token = Some(session_token);
        self.touch();
    }

    /// Update latency from a ping/pong.
    pub fn update_latency(&mut self, latency_ms: u32)
        ensures
            final(self).latency_ms == Some(latency_ms),
            final(self).node_id == old(self).node_id,
            final(self).address == old(self).address,
            final(self).state == old(self).state,
            final(self).capabilities == old(self).capabilities,
            final(self).session_token == old(self).session_token,
            final(self).version_vector == old(self).version_vector,
            final(self).connect_attempts == old(self).connect_attempts,
            final(self).outbound == old(self).outbound,
    {
        self.latency_ms = Some(latency_ms);
        self.touch();
    }
}

/// The connected peers among a list of entries, in order.
pub open spec fn connected_list(s: Seq<(String, PeerInfo)>) -> Seq<PeerInfo>
    decreases s.len(),
{
    if s.len() == 0 {
        Seq::empty()
    } else if peer_connected(s.last().1) {
        connected_list(s.drop_last()).push(s.last().1)
    } else {
        connected_list(s.drop_last())
    }
}

/// The latency a peer is sorted by: unknown latency sorts last.
pub open spec fn latency_key(p: PeerInfo) -> u32 {
    match p.latency_ms {
        Some(l) => l,
        None => u32::MAX,
    }
}

/// A peer's version vector, if known, counts at most `u64::MAX` operations.
pub open spec fn vv_total_fits(p: PeerInfo) -> bool {
    match p.version_vector {
        Some(w) => map_sum(w@) <= u64::MAX,
        None => true,
    }
}

/// The latency by which peers are ordered, unknown latency counting as
/// the largest.
fn latency_of(p: &PeerInfo) -> (k: u32)
    ensures
        k == latency_key(*p),
{
    match p.latency_ms {
        Some(l) => l,
        None => u32::MAX,
    }
}

/// Inserts `x` into a latency-sorted list after every peer whose latency
/// is not above its own (so equal latencies keep their order).
pub open spec fn insert_by_latency(s: Seq<PeerInfo>, x: PeerInfo) -> Seq<PeerInfo>
    decreases s.len(),
{
    if s.len() == 0 {
        seq![x]
    } else if latency_key(s.last()) <= latency_key(x) {
        s.push(x)
    } else {
        insert_by_latency(s.drop_last(), x).push(s.last())
    }
}

/// A stable sort of peers by latency, best first.
pub open spec fn sort_by_latency(s: Seq<PeerInfo>) -> Seq<PeerInfo>
    decreases s.len(),
{
    if s.len() == 0 {
        s
    } else {
        insert_by_latency(sort_by_latency(s.drop_last()), s.last())
    }
}

/// The connected peers whose version vector records more operations than
/// `ours`.
pub open spec fn ahead_list(s: Seq<PeerInfo>, ours: int) -> Seq<PeerInfo>
    decreases s.len(),
{
    if s.len() == 0 {
        Seq::empty()
    } else if s.last().version_vector matches Some(v) && map_sum(v@) > ours {
        ahead_list(s.drop_last(), ours).push(s.last())
    } else {
        ahead_list(s.drop_last(), ours)
    }
}

/// Inserting at the position found by scanning back over the peers with a
/// higher latency is the sorted insertion.
proof fn lemma_insert_by_latency(s: Seq<PeerInfo>, x: PeerInfo, j: int)
    requires
        0 <= j <= s.len(),
        forall|k: int| j <= k < s.len() ==> latency_key(#[trigger] s[k]) > latency_key(x),
        j > 0 ==> latency_key(s[j - 1]) <= latency_key(x),
    ensures
        insert_by_latency(s, x) == s.insert(j, x),
    decreases s.len(),
{
    if s.len() == 0 {
        assert(s.insert(j, x) =~= seq![x]);
    } else if j == s.len() {
        assert(s.insert(j, x) =~= s.push(x));
    } else {
        let p = s.drop_last();
        assert(latency_key(s.last()) > latency_key(x)) by {
            assert(s[s.len() - 1] == s.last());
        }
        assert forall|k: int| j <= k < p.len() implies latency_key(#[trigger] p[k]) > latency_key(x) by {
            assert(p[k] == s[k]);
        }
        if j > 0 {
            assert(p[j - 1] == s[j - 1]);
        }
        lemma_insert_by_latency(p, x, j);
        assert(p.insert(j, x).push(s.last()) =~= s.insert(j, x));
    }
}

/// The keys of the first `n` entries whose reading is above `limit`, in
/// order.
pub open spec fn flagged_keys<V>(es: Seq<(String, V)>, rs: Seq<u64>, limit: u64, n: int) -> Seq<Seq<char>>
    decreases n,
{
    if n <= 0 || n > es.len() || n > rs.len() {
        Seq::empty()
    } else {
        let r = flagged_keys(es, rs, limit, n - 1);
        if rs[n - 1] > limit { r.push(es[n - 1].0@) } else { r }
    }
}

/// The keys of the first `n` peers that are connected and whose reading is
/// above `limit`, in order.
pub open spec fn due_keys(es: Seq<(String, PeerInfo)>, rs: Seq<u64>, limit: u64, n: int) -> Seq<Seq<char>>
    decreases n,
{
    if n <= 0 || n > es.len() || n > rs.len() {
        Seq::empty()
    } else {
        let r = due_keys(es, rs, limit, n - 1);
        if peer_connected(es[n - 1].1) && rs[n - 1] > limit { r.push(es[n - 1].0@) } else { r }
    }
}

/// Manages all peer connections.
pub struct PeerManager {
    node_id: String,
    peers: StrMap<PeerInfo>,
    max_peers: usize,
    /// Heartbeat interval, milliseconds.
    heartbeat_interval_ms: u64,
    connection_timeout: Duration,
    /// Silence after which a peer is stale, milliseconds.
    stale_timeout_ms: u64,
}

impl PeerManager {
    #[verifier::type_invariant]
    closed spec fn inv(self) -> bool {
        self.peers.wf()
    }

    /// Peers by node ID.
    pub closed spec fn peers(self) -> Map<Seq<char>, PeerInfo> {
        self.peers@
    }

    /// Peer entries in storage order.
    pub closed spec fn peer_entries(self) -> Seq<(String, PeerInfo)> {
        self.peers.entries()
    }

    /// The largest number of peers kept.
    pub closed spec fn max_peers(self) -> nat {
        self.max_peers as nat
    }

    /// Our node ID.
    pub closed spec fn node(self) -> Seq<char> {
        self.node_id@
    }

    /// The entries are the map's entries, and the map is finite.
    proof fn lemma_entries(self)
        requires
            self.peers.wf(),
        ensures
            self.peers().dom().finite(),
            self.peers().dom().len() == self.peer_entries().len(),
            forall|i: int| 0 <= i < self.peer_entries().len() ==> #[trigger] self.peers().contains_key(
                self.peer_entries()[i].0@,
            ) && self.peers()[self.peer_entries()[i].0@] == self.peer_entries()[i].1,
    {
        self.peers.lemma_len();
        assert forall|i: int| 0 <= i < self.peer_entries().len() implies #[trigger] self.peers().contains_key(
            self.peer_entries()[i].0@,
        ) && self.peers()[self.peer_entries()[i].0@] == self.peer_entries()[i].1 by {
            self.peers.lemma_entry_in_view(i);
        }
    }

    /// Create a new peer manager: at most 50 peers.
    pub fn new(node_id: String) -> (m: Self)
        ensures
            m.peers() == Map::<Seq<char>, PeerInfo>::empty(),
            m.max_peers() == 50,
            m.node() == node_id@,
    {
        PeerManager {
            node_id,
            peers: StrMap::new(),
            max_peers: 50,
            heartbeat_interval_ms: 30_000,
            connection_timeout: duration_from_secs(10),
            stale_timeout_ms: 120_000,
        }
    }

    /// Configure max peers.
    pub fn with_max_peers(self, max: usize) -> (m: Self)
        ensures
            m.max_peers() == max,
            m.peers() == self.peers(),
            m.peer_entries() == self.peer_entries(),
            m.node() == self.node(),
    {
        proof { use_type_invariant(&self); }
        PeerManager { max_peers: max, ..self }
    }

    fn add_peer(&mut self, node_id: String, address: String, outbound: bool) -> (added: bool)
        ensures
            added == (old(self).peers().dom().len() < old(self).max_peers() && !old(self).peers().contains_key(
                node_id@,
            )),
            added ==> final(self).peers().dom() == old(self).peers().dom().insert(node_id@)
                && is_new_peer(final(self).peers()[node_id@], node_id@, address@, outbound) && forall|k: Seq<char>|
                k != node_id@ && #[trigger] old(self).peers().contains_key(k) ==> final(self).peers()[k] == old(
                self,
            ).peers()[k],
            !added ==> final(self).peers() == old(self).peers(),
            final(self).max_peers() == old(self).max_peers(),
            final(self).node() == old(self).node(),
    {
        proof { use_type_invariant(&*self); }
        if self.peers.len() >= self.max_peers {
            return false;
        }
        if self.peers.contains_str(node_id.as_str()) {
            return false;
        }
        let info = if outbound {
            PeerInfo::new_outbound(node_id.clone(), address)
        } else {
            PeerInfo::new_inbound(node_id.clone(), address)
        };
        let mut peers = StrMap::new();
        std::mem::swap(&mut peers, &mut self.peers);
        peers.push_new(node_id, info);
        self.peers = peers;
        true
    }

    /// Add a new outbound peer: refused when full or already known.
    pub fn add_outbound(&mut self, node_id: String, address: String) -> (added: bool)
        ensures
            added == (old(self).peers().dom().len() < old(self).max_peers() && !old(self).peers().contains_key(
                node_id@,
            )),
            added ==> final(self).peers().dom() == old(self).peers().dom().insert(node_id@)
                && is_new_peer(final(self).peers()[node_id@], node_id@, address@, true) && forall|k: Seq<char>|
                k != node_id@ && #[trigger] old(self).peers().contains_key(k) ==> final(self).peers()[k] == old(
                self,
            ).peers()[k],
            !added ==> final(self).peers() == old(self).peers(),
            final(self).max_peers() == old(self).max_peers(),
            final(self).node() == old(self).node(),
            final(self).peers().dom().finite(),
    {
        proof { use_type_invariant(&*self); self.peers.lemma_len(); }
        let added = self.add_peer(node_id, address, true);
        proof { use_type_invariant(&*self); self.peers.lemma_len(); }
        added
    }

    /// Add a new inbound peer: refused when full or already known.
    pub fn add_inbound(&mut self, node_id: String, address: String) -> (added: bool)
        ensures
            added == (old(self).peers().dom().len() < old(self).max_peers() && !old(self).peers().contains_key(
                node_id@,
            )),
            added ==> final(self).peers().dom() == old(self).peers().dom().insert(node_id@)
                && is_new_peer(final(self).peers()[node_id@], node_id@, address@, false) && forall|k: Seq<char>|
                k != node_id@ && #[trigger] old(self).peers().contains_key(k) ==> final(self).peers()[k] == old(
                self,
            ).peers()[k],
            !added ==> final(self).peers() == old(self).peers(),
            final(self).max_peers() == old(self).max_peers(),
            final(self).node() == old(self).node(),
            final(self).peers().dom().finite(),
    {
        proof { use_type_invariant(&*self); self.peers.lemma_len(); }
        let added = self.add_peer(node_id, address, false);
        proof { use_type_invariant(&*self); self.peers.lemma_len(); }
        added
    }

    /// Get a peer by node ID.
    pub fn get(&self, node_id: &str) -> (r: Option<&PeerInfo>)
        ensures
            match r {
                Some(p) => self.peers().contains_key(node_id@) && *p == self.peers()[node_id@],
                None => !self.peers().contains_key(node_id@),
            },
    {
        proof { use_type_invariant(self); }
        self.peers.get_str(node_id)
    }

    /// Get a mutable peer by node ID.
    pub fn get_mut(&mut self, node_id: &str) -> (r: Option<&mut PeerInfo>)
        ensures
            match r {
                Some(p) => old(self).peers().contains_key(node_id@) && *p == old(self).peers()[node_id@]
                    && final(self).peers() == old(self).peers().insert(node_id@, *final(p)),
                None => !old(self).peers().contains_key(node_id@) && final(self).peers() == old(self).peers(),
            },
            final(self).max_peers() == old(self).max_peers(),
            final(self).node() == old(self).node(),
    {
        proof { use_type_invariant(&*self); }
        match self.peers.find_str(node_id) {
            Some(i) => Some(self.peers.value_at_mut(i)),
            None => None,
        }
    }

    /// Remove a peer.
    pub fn remove(&mut self, node_id: &str) -> (r: Option<PeerInfo>)
        ensures
            final(self).peers() == old(self).peers().remove(node_id@),
            match r {
                Some(p) => old(self).peers().contains_key(node_id@) && p == old(self).peers()[node_id@],
                None => !old(self).peers().contains_key(node_id@),
            },
            final(self).max_peers() == old(self).max_peers(),
            final(self).node() == old(self).node(),
            final(self).stale_limit() == old(self).stale_limit(),
            final(self).heartbeat_limit() == old(self).heartbeat_limit(),
    {
        proof { use_type_invariant(&*self); }
        let mut peers = StrMap::new();
        std::mem::swap(&mut peers, &mut self.peers);
        let r = peers.remove_str(node_id);
        self.peers = peers;
        r
    }

    /// Get all connected peers (in storage order).
    pub fn connected_peers(&self) -> (v: Vec<&PeerInfo>)
        ensures
            v@.len() == connected_list(self.peer_entries()).len(),
            forall|i: int| 0 <= i < v@.len() ==> *(#[trigger] v@[i]) == connected_list(self.peer_entries())[i],
    {
        let n = self.peers.len_raw();
        let mut v: Vec<&PeerInfo> = Vec::new();
        let mut i: usize = 0;
        while i < n
            invariant
                n == self.peers.entries().len(),
                i <= n,
                v@.len() == connected_list(self.peers.entries().subrange(0, i as int)).len(),
                forall|j: int| 0 <= j < v@.len() ==> *(#[trigger] v@[j]) == connected_list(
                    self.peers.entries().subrange(0, i as int),
                )[j],
            decreases n - i,
        {
            proof {
                let e = self.peers.entries();
                assert(e.subrange(0, i + 1).drop_last() =~= e.subrange(0, i as int));
            }
            let p = self.peers.value_at(i);
            if p.is_connected() {
                v.push(p);
            }
            i = i + 1;
        }
        proof { assert(self.peers.entries().subrange(0, n as int) =~= self.peers.entries()); }
        v
    }

    /// Get all peer IDs (in storage order).
    pub fn peer_ids(&self) -> (v: Vec<String>)
        ensures
            v@.len() == self.peer_entries().len(),
            forall|i: int| 0 <= i < v@.len() ==> (#[trigger] v@[i])@ == self.peer_entries()[i].0@,
    {
        let n = self.peers.len_raw();
        let mut v: Vec<String> = Vec::new();
        let mut i: usize = 0;
        while i < n
            invariant
                n == self.peers.entries().len(),
                i <= n,
                v@.len() == i,
                forall|j: int| 0 <= j < i ==> (#[trigger] v@[j])@ == self.peers.entries()[j].0@,
            decreases n - i,
        {
            v.push(self.peers.key_at(i).clone());
            i = i + 1;
        }
        v
    }

    /// Get connected peer count.
    pub fn connected_count(&self) -> (n: usize)
        ensures
            n == connected_list(self.peer_entries()).len(),
    {
        self.connected_peers().len()
    }

    /// Get total peer count.
    pub fn total_count(&self) -> (n: usize)
        ensures
            n == self.peers().dom().len(),
            self.peers().dom().finite(),
    {
        proof {
            use_type_invariant(self);
            self.peers.lemma_len();
        }
        self.peers.len()
    }

    /// Mark a peer as connected after a handshake; false when unknown.
    pub fn mark_connected(&mut self, node_id: &str, capabilities: Vec<String>, session_token: String) -> (b: bool)
        ensures
            b == old(self).peers().contains_key(node_id@),
            b ==> final(self).peers().dom() == old(self).peers().dom() && is_handshaken(
                old(self).peers()[node_id@],
                final(self).peers()[node_id@],
                capabilities@,
                session_token,
            ) && forall|k: Seq<char>| k != node_id@ && #[trigger] old(self).peers().contains_key(k)
                ==> final(self).peers()[k] == old(self).peers()[k],
            !b ==> final(self).peers() == old(self).peers(),
            final(self).max_peers() == old(self).max_peers(),
            final(self).node() == old(self).node(),
    {
        match self.get_mut(node_id) {
            Some(peer) => {
                peer.set_connected(capabilities, session_token);
                true
            },
            None => false,
        }
    }

    /// Update a peer's version vector (and its last-seen time).
    pub fn update_version_vector(&mut self, node_id: &str, vv: VersionVector)
        ensures
            final(self).peers().dom() == old(self).peers().dom(),
            old(self).peers().contains_key(node_id@) ==> {
                let a = old(self).peers()[node_id@];
                let b = final(self).peers()[node_id@];
                b.version_vector == Some(vv) && b.node_id == a.node_id && b.address == a.address && b.state
                    == a.state && b.capabilities == a.capabilities && b.session_token == a.session_token
                    && b.latency_ms == a.latency_ms && b.connect_attempts == a.connect_attempts && b.outbound
                    == a.outbound
            },
            forall|k: Seq<char>| k != node_id@ && #[trigger] old(self).peers().contains_key(k)
                ==> final(self).peers()[k] == old(self).peers()[k],
            final(self).max_peers() == old(self).max_peers(),
            final(self).node() == old(self).node(),
    {
        match self.get_mut(node_id) {
            Some(peer) => {
                peer.version_vector = Some(vv);
                peer.touch();
            },
            None => {},
        }
    }

    /// Mark a peer as disconnected.
    pub fn mark_disconnected(&mut self, node_id: &str)
        ensures
            final(self).peers().dom() == old(self).peers().dom(),
            old(self).peers().contains_key(node_id@) ==> final(self).peers()[node_id@] == (PeerInfo {
                state: PeerState::Disconnected,
                ..old(self).peers()[node_id@]
            }),
            forall|k: Seq<char>| k != node_id@ && #[trigger] old(self).peers().contains_key(k)
                ==> final(self).peers()[k] == old(self).peers()[k],
            final(self).max_peers() == old(self).max_peers(),
            final(self).node() == old(self).node(),
    {
        match self.get_mut(node_id) {
            Some(peer) => {
                peer.state = PeerState::Disconnected;
            },
            None => {},
        }
    }

    /// Mark a peer as reconnecting, counting one more connection attempt.
    pub fn mark_reconnecting(&mut self, node_id: &str)
        requires
            old(self).peers().contains_key(node_id@) ==> old(self).peers()[node_id@].connect_attempts < u32::MAX,
        ensures
            final(self).peers().dom() == old(self).peers().dom(),
            old(self).peers().contains_key(node_id@) ==> final(self).peers()[node_id@] == (PeerInfo {
                state: PeerState::Reconnecting,
                connect_attempts: (old(self).peers()[node_id@].connect_attempts + 1) as u32,
                ..old(self).peers()[node_id@]
            }),
            forall|k: Seq<char>| k != node_id@ && #[trigger] old(self).peers().contains_key(k)
                ==> final(self).peers()[k] == old(self).peers()[k],
            final(self).max_peers() == old(self).max_peers(),
            final(self).node() == old(self).node(),
    {
        match self.get_mut(node_id) {
            Some(peer) => {
                peer.state = PeerState::Reconnecting;
                peer.connect_attempts = peer.connect_attempts + 1;
            },
            None => {},
        }
    }

    /// The silence after which a peer is stale, milliseconds.
    pub closed spec fn stale_limit(self) -> u64 {
        self.stale_timeout_ms
    }

    /// The heartbeat interval, milliseconds.
    pub closed spec fn heartbeat_limit(self) -> u64 {
        self.heartbeat_interval_ms
    }

    /// Removes the listed peers, one after the other.
    fn remove_all(&mut self, ids: &Vec<String>)
        ensures
            final(self).peers() == old(self).peers().remove_keys(string_views(ids@).to_set()),
            final(self).max_peers() == old(self).max_peers(),
            final(self).node() == old(self).node(),
            final(self).stale_limit() == old(self).stale_limit(),
            final(self).heartbeat_limit() == old(self).heartbeat_limit(),
    {
        let ghost w = string_views(ids@);
        let mut j: usize = 0;
        while j < ids.len()
            invariant
                w == string_views(ids@),
                j <= ids@.len(),
                self.peers() == old(self).peers().remove_keys(w.subrange(0, j as int).to_set()),
                self.max_peers() == old(self).max_peers(),
                self.node() == old(self).node(),
                self.stale_limit() == old(self).stale_limit(),
                self.heartbeat_limit() == old(self).heartbeat_limit(),
            decreases ids@.len() - j,
        {
            let _ = self.remove(ids[j].as_str());
            proof {
                assert(w.subrange(0, j + 1) =~= w.subrange(0, j as int).push(w[j as int]));
                w.subrange(0, j as int).lemma_push_to_set_commute(w[j as int]);
                assert(self.peers() =~= old(self).peers().remove_keys(w.subrange(0, j + 1).to_set()));
            }
            j = j + 1;
        }
        assert(w.subrange(0, w.len() as int) =~= w);
    }

    /// Removes the peers silent for longer than the stale timeout, given how
    /// long each stored peer has been silent (`elapsed_ms[i]` for the `i`th
    /// entry), and returns their IDs in storage order.
    pub fn cleanup_stale_at(&mut self, elapsed_ms: &Vec<u64>) -> (removed: Vec<String>)
        requires
            elapsed_ms@.len() == old(self).peer_entries().len(),
        ensures
            string_views(removed@) == flagged_keys(
                old(self).peer_entries(),
                elapsed_ms@,
                old(self).stale_limit(),
                old(self).peer_entries().len() as int,
            ),
            final(self).peers() == old(self).peers().remove_keys(string_views(removed@).to_set()),
            final(self).max_peers() == old(self).max_peers(),
            final(self).node() == old(self).node(),
    {
        proof { use_type_invariant(&*self); }
        let n = self.peers.len_raw();
        let mut ids: Vec<String> = Vec::new();
        let mut i: usize = 0;
        while i < n
            invariant
                n == self.peers.entries().len(),
                elapsed_ms@.len() == n,
                i <= n,
                string_views(ids@) == flagged_keys(self.peer_entries(), elapsed_ms@, self.stale_limit(), i as int),
            decreases n - i,
        {
            if elapsed_ms[i] > self.stale_timeout_ms {
                let ghost v0 = ids@;
                ids.push(self.peers.key_at(i).clone());
                proof { assert(string_views(ids@) =~= string_views(v0).push(self.peer_entries()[i as int].0@)); }
            }
            i = i + 1;
        }
        self.remove_all(&ids);
        ids
    }

    /// Remove the peers that have been silent longer than the stale timeout
    /// (the clock gives each peer's silence; see `cleanup_stale_at`),
    /// returning their IDs.
    pub fn cleanup_stale(&mut self) -> (removed: Vec<String>)
        ensures
            exists|elapsed_ms: Seq<u64>|
                elapsed_ms.len() == old(self).peer_entries().len() && string_views(removed@) == flagged_keys(
                    old(self).peer_entries(),
                    elapsed_ms,
                    old(self).stale_limit(),
                    old(self).peer_entries().len() as int,
                ),
            final(self).peers() == old(self).peers().remove_keys(string_views(removed@).to_set()),
            final(self).max_peers() == old(self).max_peers(),
            final(self).node() == old(self).node(),
    {
        let readings = self.silences();
        self.cleanup_stale_at(&readings)
    }

    /// How long each stored peer has been silent, milliseconds, by the clock.
    fn silences(&self) -> (r: Vec<u64>)
        ensures
            r@.len() == self.peer_entries().len(),
    {
        let n = self.peers.len_raw();
        let mut r: Vec<u64> = Vec::new();
        let mut i: usize = 0;
        while i < n
            invariant
                n == self.peers.entries().len(),
                i <= n,
                r@.len() == i,
            decreases n - i,
        {
            r.push(elapsed_millis(&self.peers.value_at(i).last_seen));
            i = i + 1;
        }
        r
    }

    /// IDs of connected peers silent for longer than the heartbeat interval,
    /// given how long each stored peer has been silent (`elapsed_ms[i]` for
    /// the `i`th entry), in storage order.
    pub fn needs_heartbeat_at(&self, elapsed_ms: &Vec<u64>) -> (v: Vec<String>)
        requires
            elapsed_ms@.len() == self.peer_entries().len(),
        ensures
            string_views(v@) == due_keys(
                self.peer_entries(),
                elapsed_ms@,
                self.heartbeat_limit(),
                self.peer_entries().len() as int,
            ),
    {
        let n = self.peers.len_raw();
        let mut v: Vec<String> = Vec::new();
        let mut i: usize = 0;
        while i < n
            invariant
                n == self.peers.entries().len(),
                elapsed_ms@.len() == n,
                i <= n,
                string_views(v@) == due_keys(self.peer_entries(), elapsed_ms@, self.heartbeat_limit(), i as int),
            decreases n - i,
        {
            let p = self.peers.value_at(i);
            if p.is_connected() && elapsed_ms[i] > self.heartbeat_interval_ms {
                let ghost v0 = v@;
                v.push(self.peers.key_at(i).clone());
                proof { assert(string_views(v@) =~= string_views(v0).push(self.peer_entries()[i as int].0@)); }
            }
            i = i + 1;
        }
        v
    }

    /// IDs of connected peers silent for longer than the heartbeat interval
    /// (the clock gives each peer's silence; see `needs_heartbeat_at`).
    pub fn needs_heartbeat(&self) -> (v: Vec<String>)
        ensures
            exists|elapsed_ms: Seq<u64>|
                elapsed_ms.len() == self.peer_entries().len() && string_views(v@) == due_keys(
                    self.peer_entries(),
                    elapsed_ms,
                    self.heartbeat_limit(),
                    self.peer_entries().len() as int,
                ),
    {
        let readings = self.silences();
        self.needs_heartbeat_at(&readings)
    }

    /// Get connected peers sorted by latency, best first (a stable sort;
    /// unknown latency last).
    pub fn peers_by_latency(&self) -> (v: Vec<&PeerInfo>)
        ensures
            v@.len() == sort_by_latency(connected_list(self.peer_entries())).len(),
            forall|i: int| 0 <= i < v@.len() ==> *(#[trigger] v@[i]) == sort_by_latency(
                connected_list(self.peer_entries()),
            )[i],
    {
        let connected = self.connected_peers();
        let ghost c = connected_list(self.peer_entries());
        let mut out: Vec<&PeerInfo> = Vec::new();
        let mut i: usize = 0;
        while i < connected.len()
            invariant
                connected@.len() == c.len(),
                forall|j: int| 0 <= j < c.len() ==> *(#[trigger] connected@[j]) == c[j],
                i <= c.len(),
                out@.len() == sort_by_latency(c.subrange(0, i as int)).len(),
                forall|j: int| 0 <= j < out@.len() ==> *(#[trigger] out@[j]) == sort_by_latency(c.subrange(0, i as int))[j],
            decreases c.len() - i,
        {
            let x = connected[i];
            let key: u32 = latency_of(x);
            let ghost s = sort_by_latency(c.subrange(0, i as int));
            let mut j: usize = out.len();
            while j > 0 && latency_of(out[j - 1]) > key
                invariant
                    j <= out@.len(),
                    out@.len() == s.len(),
                    forall|q: int| 0 <= q < out@.len() ==> *(#[trigger] out@[q]) == s[q],
                    forall|k: int| j <= k < s.len() ==> latency_key(#[trigger] s[k]) > key,
                    key == latency_key(*x),
                decreases j,
            {
                j = j - 1;
            }
            proof {
                lemma_insert_by_latency(s, *x, j as int);
                assert(c.subrange(0, i + 1).drop_last() =~= c.subrange(0, i as int));
                assert(c.subrange(0, i + 1).last() == c[i as int]);
            }
            let ghost old_out = out@;
            out.insert(j, x);
            proof {
                assert forall|q: int| 0 <= q < out@.len() implies *(#[trigger] out@[q]) == sort_by_latency(
                    c.subrange(0, i + 1),
                )[q] by {
                    if q < j {
                        assert(out@[q] == old_out[q]);
                    } else if q > j {
                        assert(out@[q] == old_out[q - 1]);
                    }
                }
            }
            i = i + 1;
        }
        proof { assert(c.subrange(0, c.len() as int) =~= c); }
        out
    }

    /// Get connected peers whose version vector records more operations than
    /// ours.
    pub fn peers_ahead_of(&self, our_vv: &VersionVector) -> (v: Vec<&PeerInfo>)
        requires
            map_sum(our_vv@) <= u64::MAX,
            forall|i: int| 0 <= i < connected_list(self.peer_entries()).len() ==> vv_total_fits(
                #[trigger] connected_list(self.peer_entries())[i],
            ),
        ensures
            v@.len() == ahead_list(connected_list(self.peer_entries()), map_sum(our_vv@)).len(),
            forall|i: int| 0 <= i < v@.len() ==> *(#[trigger] v@[i]) == ahead_list(
                connected_list(self.peer_entries()),
                map_sum(our_vv@),
            )[i],
    {
        let connected = self.connected_peers();
        let ghost c = connected_list(self.peer_entries());
        let ours = our_vv.total_operations();
        let mut out: Vec<&PeerInfo> = Vec::new();
        let mut i: usize = 0;
        while i < connected.len()
            invariant
                connected@.len() == c.len(),
                forall|j: int| 0 <= j < c.len() ==> *(#[trigger] connected@[j]) == c[j],
                forall|j: int| 0 <= j < c.len() ==> vv_total_fits(#[trigger] c[j]),
                i <= c.len(),
                ours == map_sum(our_vv@),
                out@.len() == ahead_list(c.subrange(0, i as int), ours as int).len(),
                forall|j: int| 0 <= j < out@.len() ==> *(#[trigger] out@[j]) == ahead_list(
                    c.subrange(0, i as int),
                    ours as int,
                )[j],
            decreases c.len() - i,
        {
            proof {
                assert(c.subrange(0, i + 1).drop_last() =~= c.subrange(0, i as int));
                assert(c.subrange(0, i + 1).last() == c[i as int]);
            }
            let p = connected[i];
            let ahead = match &p.version_vector {
                Some(w) => w.total_operations() > ours,
                None => false,
            };
            if ahead {
                out.push(p);
            }
            i = i + 1;
        }
        proof { assert(c.subrange(0, c.len() as int) =~= c); }
        out
    }
}

/// Statistics about peer connections.
pub struct PeerStats {
    pub total_peers: usize,
    pub connected_peers: usize,
    pub average_latency_ms: Option<u32>,
    pub total_bytes_sent: u64,
    pub total_bytes_received: u64,
}

} // verus!
