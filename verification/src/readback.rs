//! The readback of the cell pressures for diagnostics, taken once in every so
//! many ticks.
//!
//! The sampler owns its tick counter. It decides when a copy of the active
//! pressure array is asked for; what is done with a copy that did or did not
//! arrive is decided apart from it, so that a lost sample never touches the
//! ticks that follow.

use vstd::prelude::*;
use vstd::arithmetic::div_mod::{lemma_add_mod_noop_right, lemma_mod_self_0, lemma_small_mod};
use crate::error::SolverError;
use crate::pressure_buffers::{ActiveBuffer, PressureBuffers};

verus! {

/// The number of ticks from one readback to the next, unless another is asked
/// for.
pub const READBACK_INTERVAL: u32 = 60;

/// Counts the ticks from one readback to the next.
#[derive(Debug, Clone, Copy, PartialEq, Eq, Structural)]
pub struct ReadbackSampler {
    /// The ticks since the last readback, always below `interval`.
    pub elapsed: u32,
    /// The number of ticks from one readback to the next.
    pub interval: u32,
}

/// A copy of a pressure array into memory the host can read: the array to
/// copy and the number of bytes.
#[derive(Debug, Clone, Copy, PartialEq, Eq, Structural)]
pub struct ReadbackRequest {
    pub source: ActiveBuffer,
    pub byte_len: u64,
}

/// The counter of a sampler that stood at `start` and has seen `ticks` ticks
/// since.
pub open spec fn elapsed_after(start: int, interval: int, ticks: nat) -> int
    decreases ticks,
{
    if ticks == 0 {
        start
    } else {
        (elapsed_after(start, interval, (ticks - 1) as nat) + 1) % interval
    }
}

/// The counter only depends on the number of ticks: after `ticks` ticks it
/// stands at `(start + ticks) % interval`. A fresh sampler is therefore due
/// at every tick whose number is a multiple of the interval, and at no other.
pub proof fn lemma_cadence(start: int, interval: int, ticks: nat)
    requires
        0 <= start < interval,
    ensures
        elapsed_after(start, interval, ticks) == (start + ticks) % interval,
    decreases ticks,
{
    if ticks == 0 {
        lemma_small_mod(start as nat, interval as nat);
    } else {
        lemma_cadence(start, interval, (ticks - 1) as nat);
        lemma_add_mod_noop_right(1, start + ticks - 1, interval);
    }
}

impl ReadbackSampler {
    /// The interval is positive and the counter is below it.
    pub open spec fn wf(&self) -> bool {
        0 < self.interval && self.elapsed < self.interval
    }

    /// A sampler that is due every `READBACK_INTERVAL` ticks.
    pub fn new() -> (sampler: ReadbackSampler)
        ensures
            sampler.wf(),
            sampler.elapsed == 0,
            sampler.interval == READBACK_INTERVAL,
    {
        ReadbackSampler { elapsed: 0, interval: READBACK_INTERVAL }
    }

    /// A sampler that is due every `interval` ticks.
    pub fn with_interval(interval: u32) -> (sampler: ReadbackSampler)
        requires
            interval > 0,
        ensures
            sampler.wf(),
            sampler.elapsed == 0,
            sampler.interval == interval,
    {
        ReadbackSampler { elapsed: 0, interval }
    }

    /// Counts one tick and says whether a readback is due at it.
    pub fn tick(&mut self) -> (due: bool)
        requires
            old(self).wf(),
        ensures
            final(self).wf(),
            final(self).interval == old(self).interval,
            final(self).elapsed == elapsed_after(
                old(self).elapsed as int,
                old(self).interval as int,
                1,
            ),
            final(self).elapsed == (old(self).elapsed + 1) % (old(self).interval as int),
            due == (final(self).elapsed == 0),
    {
        proof {
            reveal_with_fuel(elapsed_after, 2);
            if self.elapsed + 1 == self.interval {
                lemma_mod_self_0(self.interval as int);
            } else {
                lemma_small_mod((self.elapsed + 1) as nat, self.interval as nat);
            }
        }
        if self.elapsed + 1 == self.interval {
            self.elapsed = 0;
            true
        } else {
            self.elapsed = self.elapsed + 1;
            false
        }
    }
}

/// Counts one tick and, where a readback is due at it, says what to copy: the
/// pressure array that is active now, four bytes for each cell.
pub fn readback_pressure(sampler: &mut ReadbackSampler, buffers: &PressureBuffers) -> (request:
    Option<ReadbackRequest>)
    requires
        old(sampler).wf(),
    ensures
        final(sampler).wf(),
        final(sampler).interval == old(sampler).interval,
        final(sampler).elapsed == (old(sampler).elapsed + 1) % (old(sampler).interval as int),
        final(sampler).elapsed != 0 ==> request.is_none(),
        final(sampler).elapsed == 0 ==> request == Some(
            ReadbackRequest { source: buffers.active, byte_len: (4 * buffers.num_cells) as u64 },
        ),
{
    if sampler.tick() {
        Some(ReadbackRequest { source: buffers.active, byte_len: 4 * (buffers.num_cells as u64) })
    } else {
        None
    }
}

/// What becomes of a readback once the bounded wait for it is over: the
/// mapped data is the sample where the wait succeeded, and the sample is
/// dropped with `DeviceWaitFailure` where it did not.
pub fn collect_sample<T>(waited: bool, mapped: Vec<T>) -> (sample: Result<Vec<T>, SolverError>)
    ensures
        waited ==> sample == Ok::<Vec<T>, SolverError>(mapped),
        !waited ==> sample == Err::<Vec<T>, SolverError>(SolverError::DeviceWaitFailure),
{
    if waited {
        Ok(mapped)
    } else {
        Err(SolverError::DeviceWaitFailure)
    }
}

} // verus!
