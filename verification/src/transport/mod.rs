//! Transport layer bookkeeping: which peers are known and in what state.

pub mod peer;
pub mod client;
pub mod server;
pub mod message;
