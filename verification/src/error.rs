//! Errors of the storage engine.

use vstd::prelude::*;

verus! {

/// Why an operation of the engine failed.
#[derive(Clone, Copy, Debug, PartialEq, Eq, Structural)]
pub enum HummockError {
    /// No table id could be had for a new table.
    CompactionExecutor,
    /// The memory quota does not cover another open table builder.
    MemoryLimit,
    /// A table that a task names is not at hand.
    ObjectIoError,
    /// A task or request that breaks the protocol.
    Other,
}

/// Result of an operation of the engine.
pub type HummockResult<T> = Result<T, HummockError>;

} // verus!
