//! Status values reported by step-wise processing.

use vstd::prelude::*;

verus! {

/// Status of one processing step of a queue of changes.
#[derive(Clone, Copy, Debug, PartialEq, Eq, Structural)]
pub enum ProcessStatus {
    /// There are no pending changes.
    Idle,
    /// There are changes waiting for processing.
    InProgress,
    /// The inner mesh was updated during the last processing step.
    MeshChanged,
}

} // verus!
