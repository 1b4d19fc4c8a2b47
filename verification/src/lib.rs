//! Verified core of the NEXUS bio-inspired governance stack: causal
//! version tracking, CRDTs, the token economy, peer bookkeeping,
//! developmental capability gates and autonomic mode rules.

pub mod assoc;
pub mod clock;
pub mod version_vector;
pub mod text;
pub mod order;
pub mod gates;
pub mod autonomic;
pub mod crdt;
pub mod economy;
pub mod transport;
pub mod observability;
pub mod digest;
pub mod content_address;
pub mod presence;
pub mod atom;
pub mod ident;
pub mod compute;
pub mod conflict;
pub mod dag;
pub mod runtime;
pub mod storage;
pub mod network;
pub mod resonance;
pub mod sync;
pub mod json;
pub mod crypto;
pub mod causal_op;
pub mod bft;
pub mod snapshot;
pub mod envelope;
