//! Conflict-free replicated data types.

pub mod counter;
pub mod rga;
pub mod lww;
pub mod orset;
pub mod document;
