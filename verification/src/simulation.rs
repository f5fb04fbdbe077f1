//! One whole tick on the host-side image of the buffers.
//!
//! The stages run in a fixed order: the diffusion step, then the average at
//! each vertex, then the readback. The two later stages work on the array
//! that is active once the diffusion step is over, so that they see what this
//! tick produced and never what an earlier tick left behind.

use vstd::prelude::*;
use crate::error::SolverError;
use crate::pressure_buffers::PressureBuffers;
use crate::pressure_solver::{
    diffused, dispatch_pressure_solver, dispatch_vertex_pressure_solver, policy_accepts,
    vertex_average, workgroups_for, DiffusionDispatch,
};
use crate::readback::{readback_pressure, ReadbackSampler};

verus! {

/// Which stages of a tick can run.
#[derive(Debug, Clone, Copy, PartialEq, Eq, Structural)]
pub struct Readiness {
    /// The diffusion pipeline is compiled.
    pub diffusion_pipeline: bool,
    /// The vertex-average pipeline is compiled.
    pub average_pipeline: bool,
    /// The buffer of the vertex pressures is allocated.
    pub vertex_buffer: bool,
}

/// What one tick hands on.
#[derive(Debug)]
pub struct TickOutput {
    /// The diffusion dispatch, or why the step was passed over.
    pub diffusion: Result<DiffusionDispatch, SolverError>,
    /// The pressure at every vertex, or why the average was passed over.
    pub vertex_pressures: Result<Vec<u32>, SolverError>,
    /// The pressures of the cells, at the ticks where a readback is due.
    pub sample: Option<Vec<u32>>,
}

/// Why the vertex average of a tick is passed over, if it is.
pub open spec fn average_skipped(ready: Readiness) -> Option<SolverError> {
    if !ready.average_pipeline {
        Some(SolverError::PipelineNotReady)
    } else if !ready.vertex_buffer {
        Some(SolverError::MissingDeviceResource)
    } else {
        None
    }
}

/// Runs one tick on the host-side image.
///
/// The diffusion step writes the inactive array from the active one and
/// flips the selector, or leaves everything alone while its pipeline is not
/// ready. The vertex average and the readback then read the array that is
/// active after that step.
pub fn run_tick<F: Fn(u32, u32, u32, u32) -> u32>(
    buffers: &mut PressureBuffers,
    sampler: &mut ReadbackSampler,
    ready: Readiness,
    policy: F,
) -> (output: TickOutput)
    requires
        old(buffers).wf(),
        old(sampler).wf(),
        ready.diffusion_pipeline ==> policy_accepts(
            policy,
            old(buffers).current(),
            old(buffers).neighbors_buffer@,
        ),
    ensures
        final(buffers).wf(),
        final(buffers).neighbors_buffer == old(buffers).neighbors_buffer,
        final(buffers).vertex_triangles_buffer == old(buffers).vertex_triangles_buffer,
        final(buffers).num_cells == old(buffers).num_cells,
        final(buffers).num_vertices == old(buffers).num_vertices,
        !ready.diffusion_pipeline ==> {
            &&& output.diffusion == Err::<DiffusionDispatch, SolverError>(
                SolverError::PipelineNotReady,
            )
            &&& *final(buffers) == *old(buffers)
        },
        ready.diffusion_pipeline ==> {
            &&& output.diffusion == Ok::<DiffusionDispatch, SolverError>(
                DiffusionDispatch {
                    read: old(buffers).active,
                    write: old(buffers).active.other(),
                    workgroups: workgroups_for(old(buffers).num_cells as int) as u32,
                },
            )
            &&& final(buffers).active == old(buffers).active.other()
            &&& diffused(
                policy,
                old(buffers).current(),
                old(buffers).neighbors_buffer@,
                final(buffers).current(),
            )
            &&& final(buffers).pressures_in(old(buffers).active) == old(buffers).current()
        },
        average_skipped(ready) matches Some(e) ==> output.vertex_pressures == Err::<
            Vec<u32>,
            SolverError,
        >(e),
        average_skipped(ready) is None ==> {
            &&& output.vertex_pressures matches Ok(averages)
            &&& averages@.len() == final(buffers).num_vertices
            &&& forall|v: int|
                0 <= v < averages@.len() ==> #[trigger] averages@[v] == vertex_average(
                    final(buffers).current(),
                    final(buffers).vertex_triangles_buffer@,
                    v,
                )
        },
        final(sampler).wf(),
        final(sampler).interval == old(sampler).interval,
        final(sampler).elapsed == (old(sampler).elapsed + 1) % (old(sampler).interval as int),
        final(sampler).elapsed != 0 ==> output.sample is None,
        final(sampler).elapsed == 0 ==> {
            &&& output.sample matches Some(sample)
            &&& sample@ == final(buffers).current()
        },
{
    let diffusion = dispatch_pressure_solver(buffers, ready.diffusion_pipeline);
    if let Ok(dispatch) = diffusion {
        buffers.apply_diffusion(dispatch, policy);
    }
    let planned =
        dispatch_vertex_pressure_solver(buffers, ready.average_pipeline, ready.vertex_buffer);
    let vertex_pressures = match planned {
        Ok(_) => Ok(buffers.vertex_pressures()),
        Err(e) => Err(e),
    };
    let sample = match readback_pressure(sampler, buffers) {
        Some(_) => Some(buffers.active_pressures().clone()),
        None => None,
    };
    TickOutput { diffusion, vertex_pressures, sample }
}

} // verus!
