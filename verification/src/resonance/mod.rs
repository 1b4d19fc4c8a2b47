//! Sync routing by node affinity.

pub mod router;
