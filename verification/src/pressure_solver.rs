//! The two stages of a tick that compute: the diffusion step over the cells
//! and the average at each vertex.
//!
//! Each stage is split in two. The dispatch functions decide what is to be
//! done on the device, or why nothing is done this tick; the kernels say what
//! the device work computes, and run it on the host-side image.

use vstd::prelude::*;
use crate::error::SolverError;
use crate::pressure_buffers::{
    incidence_rows, ActiveBuffer, PressureBuffers, MAX_TRIANGLES_PER_VERTEX, UNUSED_SLOT,
};

verus! {

/// The number of work items that are dispatched together.
pub const WORKGROUP_SIZE: u32 = 64;

/// The number of groups of `WORKGROUP_SIZE` that cover `items` work items.
pub open spec fn workgroups_for(items: int) -> int {
    (items + WORKGROUP_SIZE - 1) / (WORKGROUP_SIZE as int)
}

/// The number of groups of `WORKGROUP_SIZE` that cover `items` work items.
pub fn workgroup_count(items: u32) -> (groups: u32)
    ensures
        groups == workgroups_for(items as int),
{
    if items % WORKGROUP_SIZE == 0 {
        items / WORKGROUP_SIZE
    } else {
        items / WORKGROUP_SIZE + 1
    }
}

/// What one diffusion dispatch does: the array it reads, the array it
/// writes, and the number of work groups.
#[derive(Debug, Clone, Copy, PartialEq, Eq, Structural)]
pub struct DiffusionDispatch {
    pub read: ActiveBuffer,
    pub write: ActiveBuffer,
    pub workgroups: u32,
}

/// What one vertex-average dispatch does: the pressure array it reads and the
/// number of work groups.
#[derive(Debug, Clone, Copy, PartialEq, Eq, Structural)]
pub struct VertexDispatch {
    pub source: ActiveBuffer,
    pub workgroups: u32,
}

/// What the update of cell `i` reads: its own pressure and those of its three
/// neighbours, all from the array that is read this tick.
pub open spec fn cell_inputs(read: Seq<u32>, neighbors: Seq<u32>, i: int) -> (u32, u32, u32, u32) {
    (
        read[i],
        read[neighbors[3 * i] as int],
        read[neighbors[3 * i + 1] as int],
        read[neighbors[3 * i + 2] as int],
    )
}

/// The policy can be applied to every cell.
pub open spec fn policy_accepts<F: Fn(u32, u32, u32, u32) -> u32>(
    policy: F,
    read: Seq<u32>,
    neighbors: Seq<u32>,
) -> bool {
    forall|i: int|
        0 <= i < read.len() ==> policy.requires(#[trigger] cell_inputs(read, neighbors, i))
}

/// `written` is what the policy makes of `read`: every entry is the policy's
/// result on what the cell reads, and on nothing else.
pub open spec fn diffused<F: Fn(u32, u32, u32, u32) -> u32>(
    policy: F,
    read: Seq<u32>,
    neighbors: Seq<u32>,
    written: Seq<u32>,
) -> bool {
    &&& written.len() == read.len()
    &&& forall|i: int|
        0 <= i < read.len() ==> policy.ensures(
            cell_inputs(read, neighbors, i),
            #[trigger] written[i],
        )
}

/// The policy gives one result for each input.
pub open spec fn single_valued<F: Fn(u32, u32, u32, u32) -> u32>(policy: F) -> bool {
    forall|inputs: (u32, u32, u32, u32), a: u32, b: u32|
        policy.ensures(inputs, a) && policy.ensures(inputs, b) ==> a == b
}

/// Two runs of the diffusion step from the same pressures and the same
/// neighbour table write the same pressures, whatever the order in which the
/// cells are worked on.
pub proof fn lemma_diffusion_pure<F: Fn(u32, u32, u32, u32) -> u32>(
    policy: F,
    read: Seq<u32>,
    neighbors: Seq<u32>,
    first: Seq<u32>,
    second: Seq<u32>,
)
    requires
        single_valued(policy),
        diffused(policy, read, neighbors, first),
        diffused(policy, read, neighbors, second),
    ensures
        first == second,
{
    assert forall|i: int| 0 <= i < first.len() implies first[i] == second[i] by {
        assert(policy.ensures(cell_inputs(read, neighbors, i), first[i]));
        assert(policy.ensures(cell_inputs(read, neighbors, i), second[i]));
    }
    assert(first =~= second);
}

/// The diffusion kernel: the new pressure of every cell, from the pressures
/// in `read` alone.
pub fn diffuse<F: Fn(u32, u32, u32, u32) -> u32>(
    read: &Vec<u32>,
    neighbors: &Vec<u32>,
    policy: F,
) -> (written: Vec<u32>)
    requires
        neighbors@.len() == 3 * read@.len(),
        forall|p: int| 0 <= p < neighbors@.len() ==> #[trigger] neighbors@[p] < read@.len(),
        policy_accepts(policy, read@, neighbors@),
    ensures
        diffused(policy, read@, neighbors@, written@),
{
    let cells: usize = read.len();
    let places: usize = neighbors.len();
    let mut written: Vec<u32> = Vec::new();
    let mut i: usize = 0;
    while i < cells
        invariant
            cells == read@.len(),
            places == 3 * cells,
            places == neighbors@.len(),
            forall|p: int| 0 <= p < neighbors@.len() ==> #[trigger] neighbors@[p] < read@.len(),
            policy_accepts(policy, read@, neighbors@),
            i <= cells,
            written@.len() == i,
            forall|j: int|
                0 <= j < i ==> policy.ensures(
                    cell_inputs(read@, neighbors@, j),
                    #[trigger] written@[j],
                ),
        decreases cells - i,
    {
        let base: usize = 3 * i;
        let own: u32 = read[i];
        let first: u32 = read[neighbors[base] as usize];
        let second: u32 = read[neighbors[base + 1] as usize];
        let third: u32 = read[neighbors[base + 2] as usize];
        assert((own, first, second, third) == cell_inputs(read@, neighbors@, i as int));
        let next: u32 = policy(own, first, second, third);
        written.push(next);
        i += 1;
    }
    written
}

/// Whether a slot of an incidence row names a cell.
pub open spec fn live(slot: u32, cells: int) -> bool {
    slot != UNUSED_SLOT && slot < cells
}

/// Row `v` of the incidence buffer.
pub open spec fn row_of(slots: Seq<u32>, v: int) -> Seq<u32> {
    let width = MAX_TRIANGLES_PER_VERTEX as int;
    slots.subrange(width * v, width * v + width)
}

/// The pressures that the first `upto` slots of a row point at, in the order
/// of the slots.
pub open spec fn readings(pressures: Seq<u32>, row: Seq<u32>, upto: int) -> Seq<u32>
    decreases upto,
{
    if upto <= 0 {
        Seq::empty()
    } else {
        let rest = readings(pressures, row, upto - 1);
        if live(row[upto - 1], pressures.len() as int) {
            rest.push(pressures[row[upto - 1] as int])
        } else {
            rest
        }
    }
}

/// The sum of the values.
pub open spec fn total(values: Seq<u32>) -> int
    decreases values.len(),
{
    if values.len() == 0 {
        0
    } else {
        total(values.drop_last()) + values.last()
    }
}

/// The arithmetic mean of the values, rounded down; zero where there are none.
pub open spec fn mean(values: Seq<u32>) -> int {
    if values.len() == 0 {
        0
    } else {
        total(values) / (values.len() as int)
    }
}

/// The average at vertex `v`: the mean of the pressures of the cells that its
/// row names.
pub open spec fn vertex_average(pressures: Seq<u32>, slots: Seq<u32>, v: int) -> int {
    mean(readings(pressures, row_of(slots, v), MAX_TRIANGLES_PER_VERTEX as int))
}

/// The pressures of the listed cells, in the order of the list.
pub open spec fn pressures_of(pressures: Seq<u32>, cells: Seq<usize>) -> Seq<u32> {
    Seq::new(cells.len(), |i: int| pressures[cells[i] as int])
}

proof fn lemma_row_reads_prefix(pressures: Seq<u32>, table: Seq<Seq<usize>>, v: int, j: int)
    requires
        0 <= v < table.len(),
        0 <= j <= 8,
        table[v].len() <= 8,
        pressures.len() <= 0xffff_ffff,
        forall|i: int| 0 <= i < table[v].len() ==> #[trigger] table[v][i] < pressures.len(),
    ensures
        readings(pressures, row_of(incidence_rows(table), v), j) == pressures_of(
            pressures,
            table[v].take(
                if j <= table[v].len() {
                    j
                } else {
                    table[v].len() as int
                },
            ),
        ),
    decreases j,
{
    let row = row_of(incidence_rows(table), v);
    let list = table[v];
    if j > 0 {
        lemma_row_reads_prefix(pressures, table, v, j - 1);
        let p = 8 * v + j - 1;
        assert(p / 8 == v && p % 8 == j - 1);
        assert(row[j - 1] == incidence_rows(table)[p]);
        if j - 1 < list.len() {
            assert(list[j - 1] < pressures.len());
            assert(row[j - 1] == list[j - 1]);
            assert(pressures_of(pressures, list.take(j - 1)).push(pressures[list[j - 1] as int])
                =~= pressures_of(pressures, list.take(j)));
        }
    } else {
        assert(pressures_of(pressures, list.take(0)) =~= Seq::<u32>::empty());
    }
}

/// Through the rows of the incidence buffer the kernel reads, for a vertex,
/// the pressures of the triangles around it: all of them, once each, and no
/// other.
pub proof fn lemma_row_reads_incident(pressures: Seq<u32>, table: Seq<Seq<usize>>, v: int)
    requires
        0 <= v < table.len(),
        table[v].len() <= 8,
        pressures.len() <= 0xffff_ffff,
        forall|i: int| 0 <= i < table[v].len() ==> #[trigger] table[v][i] < pressures.len(),
    ensures
        readings(pressures, row_of(incidence_rows(table), v), 8) == pressures_of(
            pressures,
            table[v],
        ),
        vertex_average(pressures, incidence_rows(table), v) == mean(
            pressures_of(pressures, table[v]),
        ),
{
    lemma_row_reads_prefix(pressures, table, v, 8);
    assert(table[v].take(table[v].len() as int) =~= table[v]);
}

/// The values are at most `u32::MAX` each, so their sum is at most that many
/// times `u32::MAX`.
pub proof fn lemma_total_bound(values: Seq<u32>)
    ensures
        0 <= total(values) <= values.len() * 0xffff_ffff,
    decreases values.len(),
{
    if values.len() > 0 {
        lemma_total_bound(values.drop_last());
    }
}

/// The mean is the sum over the count, to within the rounding: with `k > 0`
/// values, `k * mean <= sum < k * (mean + 1)`, and the mean is exact where
/// `k` divides the sum.
pub proof fn lemma_mean_exact(values: Seq<u32>)
    requires
        values.len() > 0,
    ensures
        values.len() * mean(values) <= total(values) < values.len() * (mean(values) + 1),
        total(values) % (values.len() as int) == 0 ==> values.len() * mean(values) == total(values),
        0 <= mean(values) <= 0xffff_ffff,
{
    let k = values.len() as int;
    let sum = total(values);
    lemma_total_bound(values);
    assert(sum == k * (sum / k) + sum % k && 0 <= sum % k < k) by (nonlinear_arith)
        requires
            k > 0,
    ;
    assert(0 <= sum / k <= 0xffff_ffff) by (nonlinear_arith)
        requires
            k > 0,
            0 <= sum <= k * 0xffff_ffff,
    ;
    assert(k * (sum / k + 1) == k * (sum / k) + k) by (nonlinear_arith);
}

/// The vertex-average kernel: for every vertex, the mean of the pressures of
/// the cells that its row names. A slot that is unused or names no cell is
/// passed over; a vertex whose row names no cell gets zero.
pub fn average_vertices(pressures: &Vec<u32>, slots: &Vec<u32>) -> (averages: Vec<u32>)
    ensures
        averages@.len() == slots@.len() / 8,
        forall|v: int|
            0 <= v < averages@.len() ==> #[trigger] averages@[v] == vertex_average(
                pressures@,
                slots@,
                v,
            ),
{
    let cells: usize = pressures.len();
    let places: usize = slots.len();
    let vertices: usize = places / 8;
    let mut averages: Vec<u32> = Vec::new();
    let mut v: usize = 0;
    while v < vertices
        invariant
            cells == pressures@.len(),
            places == slots@.len(),
            vertices == places / 8,
            v <= vertices,
            averages@.len() == v,
            forall|w: int|
                0 <= w < v ==> #[trigger] averages@[w] == vertex_average(pressures@, slots@, w),
        decreases vertices - v,
    {
        let base: usize = 8 * v;
        let ghost row = row_of(slots@, v as int);
        let mut sum: u64 = 0;
        let mut count: u64 = 0;
        let mut j: usize = 0;
        while j < 8
            invariant
                cells == pressures@.len(),
                vertices == slots@.len() / 8,
                v < vertices,
                base == 8 * v,
                row == row_of(slots@, v as int),
                j <= 8,
                count == readings(pressures@, row, j as int).len(),
                count <= j,
                sum == total(readings(pressures@, row, j as int)),
                sum <= count * 0xffff_ffff,
            decreases 8 - j,
        {
            let slot: u32 = slots[base + j];
            assert(row[j as int] == slot);
            if slot != UNUSED_SLOT && (slot as usize) < cells {
                let ghost before = readings(pressures@, row, j as int);
                let reading: u32 = pressures[slot as usize];
                assert(readings(pressures@, row, j + 1) == before.push(reading));
                assert(before.push(reading).drop_last() =~= before);
                sum = sum + reading as u64;
                count = count + 1;
            }
            j += 1;
        }
        let ghost values = readings(pressures@, row, 8);
        let average: u32 = if count == 0 {
            0
        } else {
            proof {
                lemma_mean_exact(values);
            }
            (sum / count) as u32
        };
        averages.push(average);
        v += 1;
    }
    averages
}

/// Decides the diffusion dispatch of one tick.
///
/// While the compute pipeline is not ready the tick is passed over: nothing
/// is touched and the same tick is tried again at the next call. Otherwise
/// the dispatch reads the active array and writes the other one, and the
/// selector flips, so that the array just written is the active one for
/// everything that follows.
pub fn dispatch_pressure_solver(buffers: &mut PressureBuffers, pipeline_ready: bool) -> (result:
    Result<DiffusionDispatch, SolverError>)
    ensures
        !pipeline_ready ==> {
            &&& result == Err::<DiffusionDispatch, SolverError>(SolverError::PipelineNotReady)
            &&& *final(buffers) == *old(buffers)
        },
        pipeline_ready ==> {
            &&& result == Ok::<DiffusionDispatch, SolverError>(
                DiffusionDispatch {
                    read: old(buffers).active,
                    write: old(buffers).active.other(),
                    workgroups: workgroups_for(old(buffers).num_cells as int) as u32,
                },
            )
            &&& *final(buffers) == (PressureBuffers {
                active: old(buffers).active.other(),
                ..*old(buffers)
            })
        },
{
    if !pipeline_ready {
        return Err(SolverError::PipelineNotReady);
    }
    let read = buffers.active;
    let write = read.flipped();
    let workgroups = workgroup_count(buffers.num_cells);
    buffers.active = write;
    Ok(DiffusionDispatch { read, write, workgroups })
}

/// Decides the vertex-average dispatch of one tick.
///
/// The tick is passed over while the compute pipeline is not ready, and
/// while the vertex buffer is not allocated. Otherwise the dispatch reads the
/// active pressure array: the one the diffusion step of this tick wrote.
pub fn dispatch_vertex_pressure_solver(
    buffers: &PressureBuffers,
    pipeline_ready: bool,
    vertex_buffer_ready: bool,
) -> (result: Result<VertexDispatch, SolverError>)
    ensures
        !pipeline_ready ==> result == Err::<VertexDispatch, SolverError>(
            SolverError::PipelineNotReady,
        ),
        pipeline_ready && !vertex_buffer_ready ==> result == Err::<VertexDispatch, SolverError>(
            SolverError::MissingDeviceResource,
        ),
        pipeline_ready && vertex_buffer_ready ==> result == Ok::<VertexDispatch, SolverError>(
            VertexDispatch {
                source: buffers.active,
                workgroups: workgroups_for(buffers.num_vertices as int) as u32,
            },
        ),
{
    if !pipeline_ready {
        return Err(SolverError::PipelineNotReady);
    }
    if !vertex_buffer_ready {
        return Err(SolverError::MissingDeviceResource);
    }
    Ok(VertexDispatch { source: buffers.active, workgroups: workgroup_count(buffers.num_vertices) })
}

impl PressureBuffers {
    /// Runs a diffusion dispatch on the host-side image: the array the
    /// dispatch writes gets the new pressures, and nothing else changes. The
    /// array the dispatch reads is left as it was.
    pub fn apply_diffusion<F: Fn(u32, u32, u32, u32) -> u32>(
        &mut self,
        dispatch: DiffusionDispatch,
        policy: F,
    )
        requires
            old(self).wf(),
            dispatch.write == dispatch.read.other(),
            policy_accepts(
                policy,
                old(self).pressures_in(dispatch.read),
                old(self).neighbors_buffer@,
            ),
        ensures
            final(self).wf(),
            diffused(
                policy,
                old(self).pressures_in(dispatch.read),
                old(self).neighbors_buffer@,
                final(self).pressures_in(dispatch.write),
            ),
            final(self).pressures_in(dispatch.read) == old(self).pressures_in(dispatch.read),
            final(self).neighbors_buffer == old(self).neighbors_buffer,
            final(self).vertex_triangles_buffer == old(self).vertex_triangles_buffer,
            final(self).num_cells == old(self).num_cells,
            final(self).num_vertices == old(self).num_vertices,
            final(self).active == old(self).active,
    {
        match dispatch.read {
            ActiveBuffer::ActiveA => {
                let written = diffuse(&self.pressure_buffer_a, &self.neighbors_buffer, policy);
                self.pressure_buffer_b = written;
            },
            ActiveBuffer::ActiveB => {
                let written = diffuse(&self.pressure_buffer_b, &self.neighbors_buffer, policy);
                self.pressure_buffer_a = written;
            },
        }
    }

    /// One tick of diffusion on the host-side image: the inactive array is
    /// written from the active one, then the two change roles.
    pub fn step<F: Fn(u32, u32, u32, u32) -> u32>(&mut self, policy: F)
        requires
            old(self).wf(),
            policy_accepts(policy, old(self).current(), old(self).neighbors_buffer@),
        ensures
            final(self).wf(),
            final(self).active == old(self).active.other(),
            diffused(
                policy,
                old(self).current(),
                old(self).neighbors_buffer@,
                final(self).current(),
            ),
            final(self).pressures_in(old(self).active) == old(self).current(),
            final(self).neighbors_buffer == old(self).neighbors_buffer,
            final(self).vertex_triangles_buffer == old(self).vertex_triangles_buffer,
            final(self).num_cells == old(self).num_cells,
            final(self).num_vertices == old(self).num_vertices,
    {
        let read = self.active;
        let dispatch = DiffusionDispatch {
            read,
            write: read.flipped(),
            workgroups: workgroup_count(self.num_cells),
        };
        self.apply_diffusion(dispatch, policy);
        self.active = dispatch.write;
    }

    /// The pressure at every vertex, worked out anew from the current
    /// pressures of the cells.
    pub fn vertex_pressures(&self) -> (averages: Vec<u32>)
        requires
            self.wf(),
        ensures
            averages@.len() == self.num_vertices,
            forall|v: int|
                0 <= v < averages@.len() ==> #[trigger] averages@[v] == vertex_average(
                    self.current(),
                    self.vertex_triangles_buffer@,
                    v,
                ),
    {
        average_vertices(self.active_pressures(), &self.vertex_triangles_buffer)
    }
}

} // verus!
