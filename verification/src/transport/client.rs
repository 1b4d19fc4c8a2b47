//! Sync client configuration and errors.

use vstd::prelude::*;
use std::time::Duration;
use crate::clock::duration_from_secs;
use crate::ident::new_uuid_v4;
use crate::text::string_push_str;

verus! {

/// Sync client configuration.
#[derive(Debug, Clone)]
pub struct ClientConfig {
    pub node_id: String,
    pub protocol_version: u32,
    pub connect_timeout: Duration,
    pub request_timeout: Duration,
    pub reconnect_delay: Duration,
    pub max_reconnect_attempts: u32,
}

impl Default for ClientConfig {
    /// A random node ID, protocol 1, timeouts of 10 s to connect and 30 s
    /// per request, 5 s between reconnects, at most 10 reconnects.
    fn default() -> (c: Self)
        ensures
            c.node_id@.len() == 36,
            c.protocol_version == 1,
            c.max_reconnect_attempts == 10,
    {
        ClientConfig {
            node_id: new_uuid_v4(),
            protocol_version: 1,
            connect_timeout: duration_from_secs(10),
            request_timeout: duration_from_secs(30),
            reconnect_delay: duration_from_secs(5),
            max_reconnect_attempts: 10,
        }
    }
}

/// Sync client errors.
#[derive(Debug, Clone)]
pub enum ClientError {
    NotConnected,
    Disconnected,
    Timeout,
    RequestCancelled,
    UnexpectedResponse,
    ServerError(String),
    ConnectionFailed(String),
}

/// The text of a client error.
pub open spec fn client_error_text(e: ClientError) -> Seq<char> {
    match e {
        ClientError::NotConnected => "Not connected to server"@,
        ClientError::Disconnected => "Disconnected from server"@,
        ClientError::Timeout => "Request timed out"@,
        ClientError::RequestCancelled => "Request was cancelled"@,
        ClientError::UnexpectedResponse => "Unexpected response from server"@,
        ClientError::ServerError(msg) => "Server error: "@ + msg@,
        ClientError::ConnectionFailed(msg) => "Connection failed: "@ + msg@,
    }
}

impl ClientError {
    /// The error's text.
    pub fn message(&self) -> (s: String)
        ensures
            s@ == client_error_text(*self),
    {
        match self {
            ClientError::NotConnected => String::from_str("Not connected to server"),
            ClientError::Disconnected => String::from_str("Disconnected from server"),
            ClientError::Timeout => String::from_str("Request timed out"),
            ClientError::RequestCancelled => String::from_str("Request was cancelled"),
            ClientError::UnexpectedResponse => String::from_str("Unexpected response from server"),
            ClientError::ServerError(msg) => {
                let mut s = String::from_str("Server error: ");
                string_push_str(&mut s, msg.as_str());
                s
            },
            ClientError::ConnectionFailed(msg) => {
                let mut s = String::from_str("Connection failed: ");
                string_push_str(&mut s, msg.as_str());
                s
            },
        }
    }
}

} // verus!
