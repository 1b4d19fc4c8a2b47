//! Error codes carried by error payloads.

use vstd::prelude::*;

verus! {

pub const UNKNOWN: u32 = 0;
pub const PROTOCOL_ERROR: u32 = 1;
pub const AUTH_REQUIRED: u32 = 2;
pub const AUTH_FAILED: u32 = 3;
pub const RATE_LIMITED: u32 = 4;
pub const VERSION_MISMATCH: u32 = 5;
pub const OPERATION_INVALID: u32 = 6;
pub const INTERNAL_ERROR: u32 = 7;

} // verus!
