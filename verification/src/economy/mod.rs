//! Token economy: CRDT-based balances and the transaction ledger.

pub mod token;
pub mod ledger;
pub mod pricing;
