//! Developmental gates: staged capability unlock.

pub mod stage;
pub mod registry;
pub mod enforcer;
