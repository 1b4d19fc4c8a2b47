//! Kinds of priced operations.

use vstd::prelude::*;

verus! {

/// The kinds of operation that are priced.
#[derive(Debug, Clone, PartialEq, Eq, Hash)]
pub enum OperationType {
    DocumentInsert,
    DocumentDelete,
    DocumentUpdate,
    CounterIncrement,
    CounterDecrement,
    SetAdd,
    SetRemove,
    MapPut,
    MapDelete,
    SyncRequest,
    SyncResponse,
    GradientCompute,
    GradientSync,
    StorageWrite,
    StorageRead,
    /// Any other operation.
    Custom(String),
}

} // verus!
