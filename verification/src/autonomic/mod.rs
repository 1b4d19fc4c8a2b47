//! Autonomic system: involuntary mode control (CALM, ACT, EMERGENCY,
//! RECOVERY) and reflexes.

pub mod mode;
pub mod reflex;
