//! Sync server configuration.

use vstd::prelude::*;
use crate::assoc::map_sum;
use crate::ident::new_uuid_v4;
use crate::order::string_views;
use crate::transport::message::{
    summary_hash, version_mismatch_text, ErrorPayload, HelloPayload, MessageType, SyncMessage, WelcomePayload,
    VersionVectorSummary,
};
use crate::transport::message::error_codes;
use crate::version_vector::VersionVector;

verus! {

/// Sync server configuration.
#[derive(Debug, Clone)]
pub struct ServerConfig {
    pub bind_address: String,
    pub max_connections: usize,
    pub heartbeat_interval_secs: u64,
    pub protocol_version: u32,
    pub node_id: String,
}

impl Default for ServerConfig {
    /// Bind to `0.0.0.0:8765`, at most 100 connections, a 30 s heartbeat,
    /// protocol 1, a random node ID.
    fn default() -> (c: Self)
        ensures
            c.bind_address@ == "0.0.0.0:8765"@,
            c.max_connections == 100,
            c.heartbeat_interval_secs == 30,
            c.protocol_version == 1,
            c.node_id@.len() == 36,
    {
        ServerConfig {
            bind_address: String::from_str("0.0.0.0:8765"),
            max_connections: 100,
            heartbeat_interval_secs: 30,
            protocol_version: 1,
            node_id: new_uuid_v4(),
        }
    }
}

/// The capabilities a server accepts.
pub open spec fn server_capabilities() -> Seq<Seq<char>> {
    seq!["sync"@, "push"@]
}

/// The reply to a peer's Hello, under the request's ID, and whether the peer
/// is to be registered: on a protocol version other than the server's, an
/// error (`VERSION_MISMATCH`, with both versions); otherwise a Welcome with
/// the server's node ID, the capabilities `sync` and `push`, the session
/// token and the summary of the server's version vector.
pub fn hello_reply(
    config: &ServerConfig,
    request_id: &str,
    hello: &HelloPayload,
    token: String,
    vv: &VersionVector,
) -> (r: (bool, SyncMessage))
    requires
        map_sum(vv@) <= u64::MAX,
    ensures
        r.0 == (hello.version == config.protocol_version),
        r.1.id@ == request_id@,
        !r.0 ==> (r.1.message matches MessageType::Error(e) && e.code == error_codes::VERSION_MISMATCH
            && e.message@ == version_mismatch_text(config.protocol_version, hello.version) && e.details is None),
        r.0 ==> (r.1.message matches MessageType::Welcome(w) && w.node_id@ == config.node_id@ && string_views(
            w.capabilities@,
        ) == server_capabilities() && w.session_token == token && w.version_summary.total_ops == map_sum(vv@)
            && w.version_summary.node_count == vv@.dom().len() && w.version_summary.hash@ == summary_hash(
            vv.entries(),
        )),
{
    if hello.version != config.protocol_version {
        let e = ErrorPayload::version_mismatch(config.protocol_version, hello.version);
        return (false, SyncMessage::response_to(request_id, MessageType::Error(e)));
    }
    let caps = vec![String::from_str("sync"), String::from_str("push")];
    proof {
        reveal_strlit("sync");
        reveal_strlit("push");
        assert(string_views(caps@) =~= server_capabilities());
    }
    let w = WelcomePayload {
        node_id: config.node_id.clone(),
        capabilities: caps,
        session_token: token,
        version_summary: VersionVectorSummary::from_version_vector(vv),
    };
    (true, SyncMessage::response_to(request_id, MessageType::Welcome(w)))
}

} // verus!
