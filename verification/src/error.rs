//! The conditions under which a construction or a tick does not go through.

use vstd::prelude::*;

verus! {

/// What can keep the simulation from being built or a tick from being dispatched.
#[derive(Debug, Clone, Copy, PartialEq, Eq, Structural)]
pub enum SolverError {
    /// The compute kernel is not compiled yet; the tick is skipped and retried.
    PipelineNotReady,
    /// A buffer the dispatch needs is not allocated yet; the tick is skipped and retried.
    MissingDeviceResource,
    /// The bounded wait for a readback did not complete; that one sample is dropped.
    DeviceWaitFailure,
    /// The mesh is not a closed manifold the solver can run on; construction stops.
    MalformedTopology,
}

impl SolverError {
    /// A recoverable condition heals on a later tick; a fatal one keeps the
    /// simulation from starting.
    pub open spec fn recoverable(self) -> bool {
        self != SolverError::MalformedTopology
    }

    /// Whether the simulation goes on after this condition.
    pub fn is_recoverable(&self) -> (r: bool)
        ensures
            r == self.recoverable(),
    {
        match self {
            SolverError::PipelineNotReady => true,
            SolverError::MissingDeviceResource => true,
            SolverError::DeviceWaitFailure => true,
            SolverError::MalformedTopology => false,
        }
    }
}

} // verus!
