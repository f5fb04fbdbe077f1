//! The buffers the solver works on, as the device sees them: two pressure
//! arrays that take turns, the neighbour table flattened to three entries for
//! each cell, and the vertex incidence lists padded to rows of a fixed width.

use vstd::prelude::*;
use crate::incidence::{incident, lemma_incidence_complete, lemma_incident_members};
use crate::table::{entries, rows};
use crate::mantle_grid::MantleGrid;
use crate::topology::lemma_three_neighbors;

verus! {

/// The width of a row of the vertex incidence buffer: the largest number of
/// triangles around a vertex that a row can hold.
pub const MAX_TRIANGLES_PER_VERTEX: usize = 8;

/// The mark of an unused slot in a row: an index that names no cell.
pub const UNUSED_SLOT: u32 = 0xffff_ffff;

/// Which of the two pressure arrays holds the current pressures.
#[derive(Debug, Clone, Copy, PartialEq, Eq, Structural)]
pub enum ActiveBuffer {
    ActiveA,
    ActiveB,
}

impl ActiveBuffer {
    /// The array that is not this one.
    pub open spec fn other(self) -> ActiveBuffer {
        match self {
            ActiveBuffer::ActiveA => ActiveBuffer::ActiveB,
            ActiveBuffer::ActiveB => ActiveBuffer::ActiveA,
        }
    }

    /// The array that is not this one.
    pub fn flipped(self) -> (r: ActiveBuffer)
        ensures
            r == self.other(),
    {
        match self {
            ActiveBuffer::ActiveA => ActiveBuffer::ActiveB,
            ActiveBuffer::ActiveB => ActiveBuffer::ActiveA,
        }
    }
}

/// The selector after `flips` dispatches, none of them skipped.
pub open spec fn selector_after(start: ActiveBuffer, flips: nat) -> ActiveBuffer
    decreases flips,
{
    if flips == 0 {
        start
    } else {
        selector_after(start, (flips - 1) as nat).other()
    }
}

/// After a number of dispatches the selector is back where it started
/// exactly when that number is even.
pub proof fn lemma_selector_parity(start: ActiveBuffer, flips: nat)
    ensures
        selector_after(start, flips) == start <==> flips % 2 == 0,
    decreases flips,
{
    if flips > 0 {
        lemma_selector_parity(start, (flips - 1) as nat);
    }
}

/// The neighbour table as the device reads it: entry `3 * t + k` is the
/// neighbour of cell `t` across its edge `k`.
pub open spec fn flat_neighbors(table: Seq<Seq<usize>>) -> Seq<u32> {
    Seq::new(3 * table.len(), |p: int| table[p / 3][p % 3] as u32)
}

/// The incidence lists as the device reads them: one row of
/// `MAX_TRIANGLES_PER_VERTEX` slots for each vertex, its triangles first and
/// the rest of the row unused.
pub open spec fn incidence_rows(table: Seq<Seq<usize>>) -> Seq<u32> {
    let width = MAX_TRIANGLES_PER_VERTEX as int;
    Seq::new(
        (width * table.len()) as nat,
        |p: int|
            if p % width < table[p / width].len() {
                table[p / width][p % width] as u32
            } else {
                UNUSED_SLOT
            },
    )
}

/// No vertex has more triangles around it than a row can hold.
pub open spec fn rows_fit(table: Seq<Seq<usize>>) -> bool {
    forall|v: int| 0 <= v < table.len() ==> (#[trigger] table[v]).len() <= MAX_TRIANGLES_PER_VERTEX
}

/// The number of slots among the first `upto` that are in use.
pub open spec fn used_slots(slots: Seq<u32>, upto: int) -> int
    decreases upto,
{
    if upto <= 0 {
        0
    } else {
        used_slots(slots, upto - 1) + if slots[upto - 1] != UNUSED_SLOT {
            1int
        } else {
            0int
        }
    }
}

/// Every entry of the table is an index that a slot can hold without being
/// taken for the mark of an unused slot.
pub open spec fn entries_storable(table: Seq<Seq<usize>>) -> bool {
    forall|v: int, i: int|
        0 <= v < table.len() && 0 <= i < table[v].len() ==> #[trigger] table[v][i] < UNUSED_SLOT
}

proof fn lemma_used_in_row(table: Seq<Seq<usize>>, v: int, j: int)
    requires
        0 <= v < table.len(),
        0 <= j <= 8,
        table[v].len() <= 8,
        entries_storable(table),
    ensures
        used_slots(incidence_rows(table), 8 * v + j) == used_slots(incidence_rows(table), 8 * v)
            + if j <= table[v].len() {
            j
        } else {
            table[v].len() as int
        },
    decreases j,
{
    if j > 0 {
        lemma_used_in_row(table, v, j - 1);
        let p = 8 * v + j - 1;
        assert(p / 8 == v && p % 8 == j - 1);
        if j - 1 < table[v].len() {
            assert(table[v][j - 1] < UNUSED_SLOT);
        }
    }
}

/// Laid out in rows, a table that fits keeps every entry: the slots in use
/// in the rows of the first `upto` vertices are as many as the entries of
/// their lists.
pub proof fn lemma_rows_keep_every_entry(table: Seq<Seq<usize>>, upto: int)
    requires
        rows_fit(table),
        entries_storable(table),
        0 <= upto <= table.len(),
    ensures
        used_slots(incidence_rows(table), 8 * upto) == entries(table, upto),
    decreases upto,
{
    if upto > 0 {
        lemma_rows_keep_every_entry(table, upto - 1);
        lemma_used_in_row(table, upto - 1, 8);
    }
}

/// The incidence buffer of a grid holds three entries for every cell: the
/// slots in use, over all vertices, are three times as many as the cells.
pub proof fn lemma_incidence_buffer_complete(grid: MantleGrid)
    requires
        grid.wf(),
        rows_fit(rows(grid.vertex_triangles)),
    ensures
        used_slots(
            incidence_rows(rows(grid.vertex_triangles)),
            8 * grid.sphere.vertex_count,
        ) == 3 * grid.cell_count(),
{
    let indices = grid.sphere.indices@;
    let table = rows(grid.vertex_triangles);
    assert forall|v: int, i: int|
        0 <= v < table.len() && 0 <= i < table[v].len() implies #[trigger] table[v][i]
        < UNUSED_SLOT by {
        lemma_incident_members(indices, v, 3 * (indices.len() as int / 3));
        assert(table[v][i] == incident(indices, v)[i]);
    }
    lemma_rows_keep_every_entry(table, table.len() as int);
    lemma_incidence_complete(indices, grid.sphere.vertex_count as int, table);
}

/// The pressures of the cells, in the order of the cells.
pub open spec fn cell_pressures(grid: MantleGrid) -> Seq<u32> {
    Seq::new(grid.cells@.len(), |t: int| grid.cells@[t].pressure)
}

/// The host-side image of the device buffers.
#[derive(Debug, Clone)]
pub struct PressureBuffers {
    pub pressure_buffer_a: Vec<u32>,
    pub pressure_buffer_b: Vec<u32>,
    pub neighbors_buffer: Vec<u32>,
    pub vertex_triangles_buffer: Vec<u32>,
    pub num_cells: u32,
    pub num_vertices: u32,
    pub active: ActiveBuffer,
}

impl PressureBuffers {
    /// The two pressure arrays have one entry for each cell, the neighbour
    /// buffer names three cells for each cell, and the incidence buffer has
    /// one row for each vertex.
    pub open spec fn wf(&self) -> bool {
        &&& self.pressure_buffer_a@.len() == self.num_cells
        &&& self.pressure_buffer_b@.len() == self.num_cells
        &&& self.neighbors_buffer@.len() == 3 * self.num_cells
        &&& forall|p: int|
            0 <= p < self.neighbors_buffer@.len() ==> #[trigger] self.neighbors_buffer@[p]
                < self.num_cells
        &&& self.vertex_triangles_buffer@.len() == MAX_TRIANGLES_PER_VERTEX * self.num_vertices
    }

    /// Whether the buffers are well formed.
    pub fn is_well_formed(&self) -> (ok: bool)
        ensures
            ok == self.wf(),
    {
        let cells: u64 = self.num_cells as u64;
        let places: usize = self.neighbors_buffer.len();
        if self.pressure_buffer_a.len() as u64 != cells || self.pressure_buffer_b.len() as u64
            != cells || places as u64 != 3 * cells || self.vertex_triangles_buffer.len() as u64
            != 8 * (self.num_vertices as u64) {
            return false;
        }
        let mut p: usize = 0;
        while p < places
            invariant
                places == self.neighbors_buffer@.len(),
                p <= places,
                forall|q: int| 0 <= q < p ==> #[trigger] self.neighbors_buffer@[q] < self.num_cells,
            decreases places - p,
        {
            if self.neighbors_buffer[p] >= self.num_cells {
                return false;
            }
            p += 1;
        }
        true
    }

    /// The contents of one of the two pressure arrays.
    pub open spec fn pressures_in(&self, which: ActiveBuffer) -> Seq<u32> {
        match which {
            ActiveBuffer::ActiveA => self.pressure_buffer_a@,
            ActiveBuffer::ActiveB => self.pressure_buffer_b@,
        }
    }

    /// The current pressures: the contents of the active array.
    pub open spec fn current(&self) -> Seq<u32> {
        self.pressures_in(self.active)
    }

    /// The neighbour buffer and the incidence buffer as bytes, for the
    /// upload: twelve bytes for each cell and thirty-two for each vertex.
    pub fn table_images(&self) -> (images: TableImages)
        requires
            self.wf(),
        ensures
            is_memory_image(self.neighbors_buffer@, images.neighbors@),
            is_memory_image(self.vertex_triangles_buffer@, images.vertex_triangles@),
            images.neighbors@.len() == 12 * self.num_cells,
            images.vertex_triangles@.len() == 32 * self.num_vertices,
    {
        TableImages {
            neighbors: words_as_bytes(&self.neighbors_buffer),
            vertex_triangles: words_as_bytes(&self.vertex_triangles_buffer),
        }
    }

    /// The array that holds the current pressures.
    pub fn active_pressures(&self) -> (r: &Vec<u32>)
        ensures
            r@ == self.current(),
    {
        match self.active {
            ActiveBuffer::ActiveA => &self.pressure_buffer_a,
            ActiveBuffer::ActiveB => &self.pressure_buffer_b,
        }
    }
}

/// Byte `k` of a word, byte 0 being the lowest.
pub open spec fn byte_of(word: u32, k: int) -> u8 {
    if k == 0 {
        (word % 256) as u8
    } else if k == 1 {
        (word / 256 % 256) as u8
    } else if k == 2 {
        (word / 65536 % 256) as u8
    } else {
        (word / 16777216) as u8
    }
}

/// The words as bytes, the lowest byte of each word first.
pub open spec fn low_first_image(words: Seq<u32>) -> Seq<u8> {
    Seq::new(4 * words.len(), |p: int| byte_of(words[p / 4], p % 4))
}

/// The words as bytes, the highest byte of each word first.
pub open spec fn high_first_image(words: Seq<u32>) -> Seq<u8> {
    Seq::new(4 * words.len(), |p: int| byte_of(words[p / 4], 3 - p % 4))
}

/// `bytes` is what `words` look like in memory, in one of the two byte
/// orders that a machine can have.
pub open spec fn is_memory_image(words: Seq<u32>, bytes: Seq<u8>) -> bool {
    bytes == low_first_image(words) || bytes == high_first_image(words)
}

/// The bytes of the words, through `bytemuck::cast_slice`.
///
/// The cast hands back the memory of the words as it stands: four bytes for
/// each word, in the machine's byte order. From 32-bit words to bytes the
/// cast has no failing case. Which of the two byte orders it is the contract
/// leaves open.
#[verifier::external_body]
fn words_as_bytes(words: &Vec<u32>) -> (bytes: Vec<u8>)
    ensures
        is_memory_image(words@, bytes@),
{
    bytemuck::cast_slice::<u32, u8>(words.as_slice()).to_vec()
}

/// The two index tables as the bytes that are uploaded to the device.
#[derive(Debug, Clone)]
pub struct TableImages {
    pub neighbors: Vec<u8>,
    pub vertex_triangles: Vec<u8>,
}

/// Whether every vertex of the table has at most
/// `MAX_TRIANGLES_PER_VERTEX` triangles around it, so that no entry is
/// dropped when the table is laid out in rows.
pub fn incidence_fits(table: &Vec<Vec<usize>>) -> (fits: bool)
    ensures
        fits == rows_fit(rows(*table)),
{
    let mut v: usize = 0;
    while v < table.len()
        invariant
            v <= table@.len(),
            forall|w: int| 0 <= w < v ==> (#[trigger] rows(*table)[w]).len() <= 8,
        decreases table@.len() - v,
    {
        assert(rows(*table)[v as int] == table@[v as int]@);
        if table[v].len() > MAX_TRIANGLES_PER_VERTEX {
            return false;
        }
        v += 1;
    }
    true
}

/// Lays the neighbour table out flat, three entries for each cell.
pub fn flatten_neighbors(table: &Vec<Vec<usize>>) -> (flat: Vec<u32>)
    requires
        forall|t: int| 0 <= t < table@.len() ==> (#[trigger] table@[t])@.len() == 3,
        forall|t: int, k: int|
            0 <= t < table@.len() && 0 <= k < 3 ==> #[trigger] table@[t]@[k] <= u32::MAX,
    ensures
        flat@ == flat_neighbors(rows(*table)),
{
    let mut flat: Vec<u32> = Vec::new();
    let mut t: usize = 0;
    while t < table.len()
        invariant
            t <= table@.len(),
                forall|i: int| 0 <= i < table@.len() ==> (#[trigger] table@[i])@.len() == 3,
            forall|i: int, k: int|
                0 <= i < table@.len() && 0 <= k < 3 ==> #[trigger] table@[i]@[k] <= u32::MAX,
            flat@.len() == 3 * t,
            forall|p: int| 0 <= p < flat@.len() ==> #[trigger] flat@[p] == table@[p / 3]@[p % 3],
        decreases table@.len() - t,
    {
        let row = &table[t];
        flat.push(row[0] as u32);
        flat.push(row[1] as u32);
        flat.push(row[2] as u32);
        t += 1;
    }
    assert(flat@ =~= flat_neighbors(rows(*table)));
    flat
}

/// Lays the incidence lists out in rows of `MAX_TRIANGLES_PER_VERTEX` slots,
/// the unused slots marked.
pub fn pad_incidence(table: &Vec<Vec<usize>>) -> (padded: Vec<u32>)
    requires
        entries_storable(rows(*table)),
    ensures
        padded@ == incidence_rows(rows(*table)),
{
    let mut padded: Vec<u32> = Vec::new();
    let mut v: usize = 0;
    while v < table.len()
        invariant
            v <= table@.len(),
                entries_storable(rows(*table)),
            padded@.len() == 8 * v,
            forall|p: int|
                0 <= p < padded@.len() ==> #[trigger] padded@[p] == incidence_rows(rows(*table))[p],
        decreases table@.len() - v,
    {
        let row = &table[v];
        assert(rows(*table)[v as int] == row@);
        assert forall|j: int| 0 <= j < row@.len() implies #[trigger] row@[j] <= u32::MAX by {
            assert(rows(*table)[v as int][j] < UNUSED_SLOT);
        }
        let mut i: usize = 0;
        while i < MAX_TRIANGLES_PER_VERTEX
            invariant
                v < table@.len(),
                row == table@[v as int],
                i <= 8,
                        forall|j: int| 0 <= j < row@.len() ==> #[trigger] row@[j] <= u32::MAX,
                padded@.len() == 8 * v + i,
                forall|p: int|
                    0 <= p < padded@.len() ==> #[trigger] padded@[p] == incidence_rows(
                        rows(*table),
                    )[p],
            decreases 8 - i,
        {
            if i < row.len() {
                padded.push(row[i] as u32);
            } else {
                padded.push(UNUSED_SLOT);
            }
            i += 1;
        }
        v += 1;
    }
    assert(padded@ =~= incidence_rows(rows(*table)));
    padded
}

/// The buffers for a grid, allocated once.
///
/// Where buffers exist already they are handed back untouched. Otherwise
/// both pressure arrays start from the pressures of the cells, the two
/// tables are laid out for the device, and array A is the active one.
pub fn prepare_buffers(grid: &MantleGrid, existing: Option<PressureBuffers>) -> (buffers:
    PressureBuffers)
    requires
        grid.wf(),
        rows_fit(rows(grid.vertex_triangles)),
    ensures
        existing matches Some(kept) ==> buffers == kept,
        existing is None ==> {
            &&& buffers.wf()
            &&& buffers.pressure_buffer_a@ == cell_pressures(*grid)
            &&& buffers.pressure_buffer_b@ == cell_pressures(*grid)
            &&& buffers.neighbors_buffer@ == flat_neighbors(rows(grid.neighbors))
            &&& buffers.vertex_triangles_buffer@ == incidence_rows(rows(grid.vertex_triangles))
            &&& buffers.num_cells == grid.cell_count()
            &&& buffers.num_vertices == grid.sphere.vertex_count
            &&& buffers.active == ActiveBuffer::ActiveA
        },
{
    if let Some(kept) = existing {
        return kept;
    }
    let ghost indices = grid.sphere.indices@;
    let cells: usize = grid.cells.len();
    let mut pressures: Vec<u32> = Vec::new();
    let mut t: usize = 0;
    while t < cells
        invariant
            cells == grid.cells@.len(),
            t <= cells,
            pressures@.len() == t,
            forall|i: int| 0 <= i < t ==> #[trigger] pressures@[i] == grid.cells@[i].pressure,
        decreases cells - t,
    {
        pressures.push(grid.cells[t].pressure);
        t += 1;
    }
    assert(pressures@ =~= cell_pressures(*grid));
    proof {
        assert forall|i: int, k: int|
            0 <= i < grid.neighbors@.len() && 0 <= k < 3 implies #[trigger] grid.neighbors@[i]@[k]
            < cells by {
            lemma_three_neighbors(indices, rows(grid.neighbors), i);
            assert(rows(grid.neighbors)[i][k] == grid.neighbors@[i]@[k]);
        }
        assert forall|i: int| 0 <= i < grid.neighbors@.len() implies (
        #[trigger] grid.neighbors@[i])@.len() == 3 by {
            assert(rows(grid.neighbors)[i] == grid.neighbors@[i]@);
        }
        assert forall|v: int, i: int|
            0 <= v < rows(grid.vertex_triangles).len() && 0 <= i < rows(
                grid.vertex_triangles,
            )[v].len() implies #[trigger] rows(grid.vertex_triangles)[v][i] < UNUSED_SLOT by {
            lemma_incident_members(indices, v, 3 * (indices.len() as int / 3));
            assert(grid.vertex_triangles@[v]@[i] == incident(indices, v)[i]);
        }
    }
    let neighbors_buffer = flatten_neighbors(&grid.neighbors);
    let vertex_triangles_buffer = pad_incidence(&grid.vertex_triangles);
    let pressure_buffer_b = pressures.clone();
    PressureBuffers {
        pressure_buffer_a: pressures,
        pressure_buffer_b,
        neighbors_buffer,
        vertex_triangles_buffer,
        num_cells: cells as u32,
        num_vertices: grid.sphere.vertex_count as u32,
        active: ActiveBuffer::ActiveA,
    }
}

} // verus!
