//! The grid of cells on the sphere: the mesh, one cell for each triangle, and
//! the two topology tables that the solver works from.

use vstd::prelude::*;
use crate::error::SolverError;
use crate::icosphere::{
    divisions_at, edge_divisions, generate_icosphere, icosphere_indices, icosphere_points,
    power_of_four, triangles_at, vertices_at, MAX_SUBDIVISION,
};
use crate::incidence::{
    incident, is_incidence_table, lemma_incidence_table_unique, vertex_incidence,
};
use crate::table::{rows, same_rows};
use crate::topology::{
    closed_manifold, corner, is_neighbor_table, lemma_neighbor_table_unique, neighbor_table,
    triangle_count,
};

verus! {

/// An indexed triangle list: the number of vertices, and three vertex indices
/// for each triangle.
#[derive(Debug, Clone)]
pub struct TriangleMesh {
    pub vertex_count: usize,
    pub indices: Vec<u32>,
}

/// The index list is made of whole triangles, every index names a vertex, and
/// vertices and triangles can both be numbered in 32 bits.
pub open spec fn well_indexed(vertex_count: int, indices: Seq<u32>) -> bool {
    &&& indices.len() % 3 == 0
    &&& vertex_count <= u32::MAX
    &&& indices.len() / 3 <= u32::MAX
    &&& forall|p: int| 0 <= p < indices.len() ==> #[trigger] indices[p] < vertex_count
}

/// A mesh the solver can run on: well indexed, a closed manifold, and with no
/// vertex that no triangle touches.
pub open spec fn solver_mesh(vertex_count: int, indices: Seq<u32>) -> bool {
    &&& well_indexed(vertex_count, indices)
    &&& closed_manifold(indices)
    &&& forall|v: int| 0 <= v < vertex_count ==> (#[trigger] incident(indices, v)).len() > 0
}

/// The state of one cell, the triangle with the same index.
///
/// The centre of a cell is the normalised mean of the positions of its three
/// corners; the grid keeps the corners, which are exact.
#[derive(Debug, Clone)]
pub struct CellData {
    pub corners: [u32; 3],
    pub flux: Vec<u32>,
    pub pressure: u32,
}

/// The cell is as the grid makes it for triangle `t`: its pressure is its
/// index and its flux is zero.
pub open spec fn seeded(cell: CellData, indices: Seq<u32>, t: int) -> bool {
    &&& cell.pressure == t
    &&& cell.flux@ == seq![0u32, 0u32, 0u32]
    &&& cell.corners@ == seq![corner(indices, t, 0), corner(indices, t, 1), corner(indices, t, 2)]
}

/// The mesh with its cells and topology tables.
#[derive(Debug, Clone)]
pub struct MantleGrid {
    pub sphere: TriangleMesh,
    pub cells: Vec<CellData>,
    pub neighbors: Vec<Vec<usize>>,
    pub vertex_triangles: Vec<Vec<usize>>,
}

/// Whether the mesh that the generator gives at a subdivision level has the
/// counts of that level and is a mesh the solver can run on.
pub open spec fn generated_mesh_accepted(level: nat) -> bool {
    let divisions = edge_divisions(level);
    &&& icosphere_points(divisions) == vertices_at(level)
    &&& icosphere_indices(divisions).len() == 3 * triangles_at(level)
    &&& solver_mesh(icosphere_points(divisions) as int, icosphere_indices(divisions))
}

fn check_indices(vertex_count: usize, indices: &Vec<u32>) -> (ok: bool)
    ensures
        ok == well_indexed(vertex_count as int, indices@),
{
    let len: usize = indices.len();
    if len % 3 != 0 || vertex_count > u32::MAX as usize || len / 3 > u32::MAX as usize {
        return false;
    }
    let mut p: usize = 0;
    while p < len
        invariant
            len == indices@.len(),
            p <= len,
            forall|q: int| 0 <= q < p ==> #[trigger] indices@[q] < vertex_count,
        decreases len - p,
    {
        if indices[p] as usize >= vertex_count {
            return false;
        }
        p += 1;
    }
    true
}

fn every_vertex_touched(indices: &Vec<u32>, table: &Vec<Vec<usize>>) -> (ok: bool)
    requires
        is_incidence_table(indices@, table@.len() as int, rows(*table)),
    ensures
        ok == forall|v: int| 0 <= v < table@.len() ==> (#[trigger] incident(indices@, v)).len() > 0,
{
    let mut v: usize = 0;
    while v < table.len()
        invariant
            v <= table@.len(),
            is_incidence_table(indices@, table@.len() as int, rows(*table)),
            forall|w: int| 0 <= w < v ==> (#[trigger] incident(indices@, w)).len() > 0,
        decreases table@.len() - v,
    {
        assert(rows(*table)[v as int] == table@[v as int]@);
        if table[v].len() == 0 {
            return false;
        }
        v += 1;
    }
    true
}

fn seed_cells(indices: &Vec<u32>) -> (cells: Vec<CellData>)
    requires
        indices@.len() % 3 == 0,
        indices@.len() / 3 <= u32::MAX,
    ensures
        cells@.len() == triangle_count(indices@),
        forall|t: int| 0 <= t < cells@.len() ==> seeded(#[trigger] cells@[t], indices@, t),
{
    let n: usize = indices.len() / 3;
    let mut cells: Vec<CellData> = Vec::new();
    let mut t: usize = 0;
    while t < n
        invariant
            indices@.len() % 3 == 0,
            n == triangle_count(indices@),
            n <= u32::MAX,
            t <= n,
            cells@.len() == t,
            forall|i: int| 0 <= i < t ==> seeded(#[trigger] cells@[i], indices@, i),
        decreases n - t,
    {
        let len: usize = indices.len();
        assert(3 * t + 3 <= len);
        let base: usize = 3 * t;
        let cell = CellData {
            corners: [indices[base], indices[base + 1], indices[base + 2]],
            flux: vec![0u32, 0u32, 0u32],
            pressure: t as u32,
        };
        assert(cell.flux@ =~= seq![0u32, 0u32, 0u32]);
        assert(cell.corners@ =~= seq![
            corner(indices@, t as int, 0),
            corner(indices@, t as int, 1),
            corner(indices@, t as int, 2),
        ]);
        cells.push(cell);
        t += 1;
    }
    cells
}

impl MantleGrid {
    /// The number of cells, one for each triangle of the mesh.
    pub open spec fn cell_count(&self) -> int {
        triangle_count(self.sphere.indices@)
    }

    /// The mesh is one the solver can run on, there is a cell for each
    /// triangle, and the two tables are those of the mesh.
    pub open spec fn wf(&self) -> bool {
        &&& solver_mesh(self.sphere.vertex_count as int, self.sphere.indices@)
        &&& self.cells@.len() == self.cell_count()
        &&& is_neighbor_table(self.sphere.indices@, rows(self.neighbors))
        &&& is_incidence_table(
            self.sphere.indices@,
            self.sphere.vertex_count as int,
            rows(self.vertex_triangles),
        )
    }

    /// Whether the grid is well formed. The tables are worked out anew from
    /// the mesh and held against those of the grid.
    pub fn is_well_formed(&self) -> (ok: bool)
        ensures
            ok == self.wf(),
    {
        let indices = &self.sphere.indices;
        let vertex_count = self.sphere.vertex_count;
        if !check_indices(vertex_count, indices) {
            return false;
        }
        let neighbors = match neighbor_table(indices) {
            Ok(table) => table,
            Err(_) => {
                return false;
            },
        };
        let vertex_triangles = vertex_incidence(vertex_count, indices);
        if !every_vertex_touched(indices, &vertex_triangles) {
            return false;
        }
        proof {
            if is_neighbor_table(indices@, rows(self.neighbors)) {
                lemma_neighbor_table_unique(indices@, rows(neighbors), rows(self.neighbors));
            }
            if is_incidence_table(indices@, vertex_count as int, rows(self.vertex_triangles)) {
                lemma_incidence_table_unique(
                    indices@,
                    vertex_count as int,
                    rows(vertex_triangles),
                    rows(self.vertex_triangles),
                );
            }
        }
        self.cells.len() == indices.len() / 3 && same_rows(&neighbors, &self.neighbors)
            && same_rows(&vertex_triangles, &self.vertex_triangles)
    }

    /// Every cell holds its seed: the pressure of cell `t` is `t`.
    pub open spec fn at_seed(&self) -> bool {
        forall|t: int|
            0 <= t < self.cells@.len() ==> seeded(
                #[trigger] self.cells@[t],
                self.sphere.indices@,
                t,
            )
    }

    /// Builds the grid over a mesh given as a vertex count and an index list.
    ///
    /// Fails with `MalformedTopology` exactly when the mesh is not one the
    /// solver can run on: an index list that is not made of whole triangles
    /// or names a vertex that is not there, an edge that is not shared by
    /// exactly two triangles, or a vertex that no triangle touches.
    pub fn from_parts(vertex_count: usize, indices: Vec<u32>) -> (result: Result<
        MantleGrid,
        SolverError,
    >)
        ensures
            result is Ok <==> solver_mesh(vertex_count as int, indices@),
            result matches Ok(grid) ==> {
                &&& grid.wf()
                &&& grid.at_seed()
                &&& grid.sphere.vertex_count == vertex_count
                &&& grid.sphere.indices@ == indices@
            },
            result matches Err(e) ==> e == SolverError::MalformedTopology,
    {
        if !check_indices(vertex_count, &indices) {
            return Err(SolverError::MalformedTopology);
        }
        let neighbors = match neighbor_table(&indices) {
            Ok(table) => table,
            Err(e) => {
                return Err(e);
            },
        };
        let vertex_triangles = vertex_incidence(vertex_count, &indices);
        if !every_vertex_touched(&indices, &vertex_triangles) {
            return Err(SolverError::MalformedTopology);
        }
        let cells = seed_cells(&indices);
        Ok(
            MantleGrid {
                sphere: TriangleMesh { vertex_count, indices },
                cells,
                neighbors,
                vertex_triangles,
            },
        )
    }

    /// Builds the grid over the sphere at a subdivision level: the
    /// icosahedron with each triangle split into four, `subdivisions` times
    /// over.
    ///
    /// The mesh comes from the generator and is checked before use. The grid
    /// is built exactly when the generated mesh has the counts of the level
    /// and is a mesh the solver can run on; it then has `20 * 4^subdivisions`
    /// cells and `10 * 4^subdivisions + 2` vertices.
    pub fn new(subdivisions: usize) -> (result: Result<MantleGrid, SolverError>)
        requires
            subdivisions <= MAX_SUBDIVISION,
        ensures
            result is Ok <==> generated_mesh_accepted(subdivisions as nat),
            result matches Ok(grid) ==> {
                &&& grid.wf()
                &&& grid.at_seed()
                &&& grid.sphere.indices@ == icosphere_indices(edge_divisions(subdivisions as nat))
                &&& grid.cell_count() == triangles_at(subdivisions as nat)
                &&& grid.sphere.vertex_count == vertices_at(subdivisions as nat)
            },
            result matches Err(e) ==> e == SolverError::MalformedTopology,
    {
        proof {
            crate::icosphere::lemma_pow4_grows(subdivisions as nat, MAX_SUBDIVISION as nat);
            crate::icosphere::lemma_edge_divisions_grow(
                subdivisions as nat,
                MAX_SUBDIVISION as nat,
            );
            crate::icosphere::lemma_deepest_level();
        }
        let faces: u64 = power_of_four(subdivisions) as u64;
        let (points, indices) = generate_icosphere(divisions_at(subdivisions));
        if points as u64 != 10 * faces + 2 || indices.len() as u64 != 60 * faces {
            return Err(SolverError::MalformedTopology);
        }
        MantleGrid::from_parts(points, indices)
    }

    /// The mesh of the grid, for a renderer to build its surface from.
    pub fn mesh(&self) -> (mesh: TriangleMesh)
        ensures
            mesh.vertex_count == self.sphere.vertex_count,
            mesh.indices@ == self.sphere.indices@,
    {
        TriangleMesh {
            vertex_count: self.sphere.vertex_count,
            indices: self.sphere.indices.clone(),
        }
    }
}

} // verus!
