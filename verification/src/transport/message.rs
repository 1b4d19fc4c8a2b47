//! Payloads of the sync wire protocol.

use vstd::prelude::*;
use vstd::utf8::encode_utf8;
use crate::assoc::map_sum;
use crate::digest::{sha256_hex, sha256_hex_of};
use crate::causal_op::{CausalOp, OpView};
use crate::clock::unix_millis;
use crate::ident::new_uuid_v4;
use crate::json::Json;
use crate::text::{decimal, push_decimal, string_push_str};
use crate::version_vector::{VersionVector, entries_debug};

pub mod error_codes;

verus! {

/// Compact version vector summary for the handshake.
#[derive(Debug, Clone)]
pub struct VersionVectorSummary {
    /// Total operations over all nodes.
    pub total_ops: u64,
    /// Number of known nodes.
    pub node_count: usize,
    /// First 16 hex digits of the SHA-256 of the vector's `Debug` text.
    pub hash: String,
}

/// The hash a summary carries for a vector with these entries.
pub open spec fn summary_hash(e: Seq<(String, u64)>) -> Seq<char> {
    sha256_hex_of(encode_utf8("VersionVector { versions: {"@ + entries_debug(e) + "} }"@)).subrange(0, 16)
}

impl VersionVectorSummary {
    /// The summary of a version vector.
    pub fn from_version_vector(vv: &VersionVector) -> (s: Self)
        requires
            map_sum(vv@) <= u64::MAX,
        ensures
            s.total_ops == map_sum(vv@),
            s.node_count == vv@.dom().len(),
            s.hash@ == summary_hash(vv.entries()),
    {
        let text = vv.debug_text();
        let h = sha256_hex(text.as_str().as_bytes());
        let hash = String::from_str(h.as_str().substring_char(0, 16));
        VersionVectorSummary { total_ops: vv.total_operations(), node_count: vv.node_ids().len(), hash }
    }
}

/// Hello handshake payload.
#[derive(Debug, Clone)]
pub struct HelloPayload {
    /// Protocol version.
    pub version: u32,
    pub node_id: String,
    /// Supported features.
    pub capabilities: Vec<String>,
    pub version_summary: VersionVectorSummary,
}

/// Welcome response payload.
#[derive(Debug, Clone)]
pub struct WelcomePayload {
    pub node_id: String,
    /// Accepted features.
    pub capabilities: Vec<String>,
    /// Session token of this connection.
    pub session_token: String,
    pub version_summary: VersionVectorSummary,
}

/// Sync request payload.
#[derive(Debug, Clone)]
pub struct SyncRequestPayload {
    pub version_vector: VersionVector,
    /// Most operations to receive.
    pub max_ops: Option<usize>,
    /// Document or key to sync, if only one.
    pub scope: Option<String>,
}

/// Operation acknowledgement payload.
#[derive(Debug, Clone)]
pub struct OperationAckPayload {
    pub operation_id: String,
    pub success: bool,
    pub error: Option<String>,
}

/// Request for specific operations.
#[derive(Debug, Clone)]
pub struct FetchOpsPayload {
    pub operation_ids: Vec<String>,
}

/// Sync response payload.
#[derive(Debug)]
pub struct SyncResponsePayload {
    /// Operations the requester is missing.
    pub operations: Vec<CausalOp>,
    /// Whether more operations are available.
    pub has_more: bool,
    /// Continuation token for pagination.
    pub continuation: Option<String>,
    /// The server's current version vector.
    pub version_vector: VersionVector,
}

/// Single operation push payload.
#[derive(Debug)]
pub struct OperationPayload {
    pub operation: CausalOp,
    /// Whether an acknowledgement is requested.
    pub require_ack: bool,
}

/// Response with requested operations.
#[derive(Debug)]
pub struct FetchOpsResponsePayload {
    pub operations: Vec<CausalOp>,
    /// IDs that were not found.
    pub not_found: Vec<String>,
}

/// Error payload.
#[derive(Debug)]
pub struct ErrorPayload {
    /// Error code (see `error_codes`).
    pub code: u32,
    /// Human-readable message.
    pub message: String,
    /// Additional details.
    pub details: Option<Json>,
}

/// The text of a protocol version mismatch.
pub open spec fn version_mismatch_text(expected: u32, got: u32) -> Seq<char> {
    "Protocol version mismatch: expected "@ + decimal(expected as nat) + ", got "@ + decimal(got as nat)
}

impl ErrorPayload {
    /// The error sent when a peer speaks another protocol version.
    pub fn version_mismatch(expected: u32, got: u32) -> (e: Self)
        ensures
            e.code == error_codes::VERSION_MISMATCH,
            e.message@ == version_mismatch_text(expected, got),
            e.details is None,
    {
        let mut message = String::from_str("Protocol version mismatch: expected ");
        push_decimal(&mut message, expected as u64);
        string_push_str(&mut message, ", got ");
        push_decimal(&mut message, got as u64);
        ErrorPayload { code: error_codes::VERSION_MISMATCH, message, details: None }
    }
}

/// The kinds of message of the sync protocol.
#[derive(Debug)]
pub enum MessageType {
    /// Handshake: initial connection setup.
    Hello(HelloPayload),
    /// Handshake response.
    Welcome(WelcomePayload),
    /// Request to sync from a version vector.
    SyncRequest(SyncRequestPayload),
    /// Response with operations.
    SyncResponse(SyncResponsePayload),
    /// Push of a single operation.
    Operation(OperationPayload),
    /// Acknowledgement of an operation.
    OperationAck(OperationAckPayload),
    /// Request for operations by ID.
    FetchOps(FetchOpsPayload),
    /// Response with requested operations.
    FetchOpsResponse(FetchOpsResponsePayload),
    /// Heartbeat, with a timestamp.
    Ping(u64),
    /// Heartbeat response, echoing the timestamp.
    Pong(u64),
    /// Error.
    Error(ErrorPayload),
    /// Graceful disconnect, with a reason.
    Goodbye(String),
}

/// A message on the wire, with an ID for request/response correlation.
#[derive(Debug)]
pub struct SyncMessage {
    pub id: String,
    /// Milliseconds since the Unix epoch.
    pub timestamp: u64,
    pub message: MessageType,
}

impl SyncMessage {
    /// A message with a fresh random ID, stamped now.
    pub fn new(message: MessageType) -> (m: Self)
        ensures
            m.id@.len() == 36,
            m.message == message,
    {
        SyncMessage { id: new_uuid_v4(), timestamp: unix_millis(), message }
    }

    /// A response carrying the ID of the request it answers, stamped now.
    pub fn response_to(request_id: &str, message: MessageType) -> (m: Self)
        ensures
            m.id@ == request_id@,
            m.message == message,
    {
        SyncMessage { id: String::from_str(request_id), timestamp: unix_millis(), message }
    }

    /// The reply to a ping: a pong echoing its timestamp, under its ID;
    /// nothing for any other message.
    pub fn pong_for(&self) -> (r: Option<SyncMessage>)
        ensures
            match self.message {
                MessageType::Ping(ts) => r matches Some(m) && m.id@ == self.id@ && m.message == MessageType::Pong(ts),
                _ => r is None,
            },
    {
        match &self.message {
            MessageType::Ping(ts) => Some(SyncMessage::response_to(self.id.as_str(), MessageType::Pong(*ts))),
            _ => None,
        }
    }
}

/// A message between peers, with routing information.
#[derive(Debug)]
pub struct PeerMessage {
    /// Sender node ID.
    pub from: String,
    /// Recipient node ID (none for broadcast).
    pub to: Option<String>,
    /// Hop count, for loop detection.
    pub hops: u8,
    pub payload: SyncMessage,
}

impl PeerMessage {
    /// A broadcast message from `from`, not yet forwarded.
    pub fn new(from: String, payload: SyncMessage) -> (m: Self)
        ensures
            m.from == from,
            m.to is None,
            m.hops == 0,
            m.payload == payload,
    {
        PeerMessage { from, to: None, hops: 0, payload }
    }

    /// The message addressed to `recipient`.
    pub fn to(self, recipient: String) -> (m: Self)
        ensures
            m.from == self.from,
            m.to == Some(recipient),
            m.hops == self.hops,
            m.payload == self.payload,
    {
        PeerMessage { from: self.from, to: Some(recipient), hops: self.hops, payload: self.payload }
    }
}

/// The first `max` operations when there are more, with whether some were
/// held back; all of them when there is no limit or they fit.
pub fn limit_operations(ops: Vec<CausalOp>, max_ops: Option<usize>) -> (r: (Vec<CausalOp>, bool))
    ensures
        match max_ops {
            Some(max) if ops@.len() > max => r.0@ == ops@.subrange(0, max as int) && r.1,
            _ => r.0@ == ops@ && !r.1,
        },
{
    match max_ops {
        Some(max) => {
            if ops.len() > max {
                let mut ops = ops;
                ops.truncate(max);
                (ops, true)
            } else {
                (ops, false)
            }
        },
        None => (ops, false),
    }
}

} // verus!
