//! What a debug view of the grid draws: the outline of every triangle, a mark
//! at the centre of every cell, and a line between the centres of every two
//! cells that are neighbours.
//!
//! The overlay is given in indices; whoever draws it looks the positions up.

use vstd::prelude::*;
use crate::table::rows;
use crate::mantle_grid::MantleGrid;
use crate::topology::next_corner;

verus! {

/// The lines and marks of the debug view.
#[derive(Debug, Clone)]
pub struct GridOverlay {
    /// The sides of the triangles, each as the two vertices it joins.
    pub edges: Vec<(u32, u32)>,
    /// The cells that get a mark at their centre.
    pub centers: Vec<usize>,
    /// The pairs of neighbouring cells whose centres are joined.
    pub links: Vec<(usize, usize)>,
}

/// The three sides of every triangle, in the order of the triangles: side
/// `k` of a triangle runs from its corner `k` to the next corner.
pub open spec fn outline(indices: Seq<u32>) -> Seq<(u32, u32)> {
    Seq::new(indices.len(), |p: int| (indices[p], indices[3 * (p / 3) + next_corner(p % 3)]))
}

/// The links from cell `i` that the first `upto` entries of its row give: one
/// to each neighbour with a larger index, so that a pair of cells is joined
/// from its smaller cell only.
pub open spec fn row_links(row: Seq<usize>, i: int, upto: int) -> Seq<(usize, usize)>
    decreases upto,
{
    if upto <= 0 {
        Seq::empty()
    } else {
        let rest = row_links(row, i, upto - 1);
        if row[upto - 1] > i {
            rest.push((i as usize, row[upto - 1]))
        } else {
            rest
        }
    }
}

/// The links from the first `m` cells, in the order of the cells.
pub open spec fn links_below(table: Seq<Seq<usize>>, m: int) -> Seq<(usize, usize)>
    decreases m,
{
    if m <= 0 {
        Seq::empty()
    } else {
        links_below(table, m - 1) + row_links(table[m - 1], m - 1, table[m - 1].len() as int)
    }
}

proof fn lemma_row_links_sound(row: Seq<usize>, i: int, upto: int)
    requires
        0 <= upto <= row.len(),
    ensures
        forall|n: int|
            0 <= n < row_links(row, i, upto).len() ==> {
                let link = #[trigger] row_links(row, i, upto)[n];
                &&& link.0 == i as usize
                &&& link.1 > i
                &&& exists|k: int| 0 <= k < upto && row[k] == link.1
            },
    decreases upto,
{
    if upto > 0 {
        lemma_row_links_sound(row, i, upto - 1);
        let links = row_links(row, i, upto);
        let rest = row_links(row, i, upto - 1);
        assert forall|n: int| 0 <= n < links.len() implies {
            let link = #[trigger] links[n];
            &&& link.0 == i as usize
            &&& link.1 > i
            &&& exists|k: int| 0 <= k < upto && row[k] == link.1
        } by {
            if n < rest.len() {
                assert(links[n] == rest[n]);
                let k = choose|k: int| 0 <= k < upto - 1 && row[k] == rest[n].1;
                assert(0 <= k < upto && row[k] == links[n].1);
            } else {
                assert(row[upto - 1] == links[n].1);
            }
        }
    }
}

proof fn lemma_row_links_cover(row: Seq<usize>, i: int, upto: int, k: int)
    requires
        0 <= k < upto <= row.len(),
        row[k] > i,
    ensures
        row_links(row, i, upto).contains((i as usize, row[k])),
    decreases upto,
{
    let links = row_links(row, i, upto);
    if k == upto - 1 {
        assert(links[links.len() - 1] == (i as usize, row[k]));
    } else {
        lemma_row_links_cover(row, i, upto - 1, k);
        let rest = row_links(row, i, upto - 1);
        let n = choose|n: int| 0 <= n < rest.len() && rest[n] == (i as usize, row[k]);
        assert(links[n] == (i as usize, row[k]));
    }
}

/// Every link joins a cell to a neighbour of it with a larger index.
pub proof fn lemma_links_sound(table: Seq<Seq<usize>>, m: int)
    requires
        0 <= m <= table.len(),
        m <= usize::MAX,
    ensures
        forall|n: int|
            0 <= n < links_below(table, m).len() ==> {
                let link = #[trigger] links_below(table, m)[n];
                &&& link.0 < link.1
                &&& link.0 < m
                &&& table[link.0 as int].contains(link.1)
            },
    decreases m,
{
    if m > 0 {
        lemma_links_sound(table, m - 1);
        let row = table[m - 1];
        lemma_row_links_sound(row, m - 1, row.len() as int);
        let before = links_below(table, m - 1);
        let added = row_links(row, m - 1, row.len() as int);
        let links = links_below(table, m);
        assert forall|n: int| 0 <= n < links.len() implies {
            let link = #[trigger] links[n];
            &&& link.0 < link.1
            &&& link.0 < m
            &&& table[link.0 as int].contains(link.1)
        } by {
            if n < before.len() {
                assert(links[n] == before[n]);
            } else {
                let link = added[n - before.len()];
                assert(links[n] == link);
                let k = choose|k: int| 0 <= k < row.len() && row[k] == link.1;
                assert(row[k] == link.1);
            }
        }
    }
}

/// Every two neighbouring cells are joined: where cell `j` stands in the row
/// of cell `i` and `i < j`, the link from `i` to `j` is among the links.
pub proof fn lemma_links_cover(table: Seq<Seq<usize>>, m: int, i: int, k: int)
    requires
        0 <= i < m <= table.len(),
        0 <= k < table[i].len(),
        table[i][k] > i,
    ensures
        links_below(table, m).contains((i as usize, table[i][k])),
    decreases m,
{
    let links = links_below(table, m);
    let before = links_below(table, m - 1);
    let row = table[m - 1];
    let added = row_links(row, m - 1, row.len() as int);
    if i == m - 1 {
        lemma_row_links_cover(row, i, row.len() as int, k);
        let n = choose|n: int| 0 <= n < added.len() && added[n] == (i as usize, row[k]);
        assert(links[before.len() + n] == added[n]);
    } else {
        lemma_links_cover(table, m - 1, i, k);
        let n = choose|n: int| 0 <= n < before.len() && before[n] == (i as usize, table[i][k]);
        assert(links[n] == before[n]);
    }
}

/// The overlay of a grid: the sides of every triangle, every cell for its
/// centre mark, and a link for every pair of neighbouring cells, taken from
/// the cell with the smaller index so that no pair is joined from both ends.
pub fn draw_triangle_grid(grid: &MantleGrid) -> (overlay: GridOverlay)
    requires
        grid.wf(),
    ensures
        overlay.edges@ == outline(grid.sphere.indices@),
        overlay.centers@ == Seq::new(grid.cell_count() as nat, |t: int| t as usize),
        overlay.links@ == links_below(rows(grid.neighbors), grid.cell_count()),
{
    let indices = &grid.sphere.indices;
    let places: usize = indices.len();
    let cells: usize = places / 3;
    let mut edges: Vec<(u32, u32)> = Vec::new();
    let mut centers: Vec<usize> = Vec::new();
    let mut t: usize = 0;
    while t < cells
        invariant
            places == indices@.len(),
            places % 3 == 0,
            cells == places / 3,
            t <= cells,
            edges@.len() == 3 * t,
            forall|p: int| 0 <= p < edges@.len() ==> #[trigger] edges@[p] == outline(indices@)[p],
            centers@.len() == t,
            forall|c: int| 0 <= c < t ==> #[trigger] centers@[c] == c,
        decreases cells - t,
    {
        let base: usize = 3 * t;
        let a: u32 = indices[base];
        let b: u32 = indices[base + 1];
        let c: u32 = indices[base + 2];
        edges.push((a, b));
        edges.push((b, c));
        edges.push((c, a));
        centers.push(t);
        t += 1;
    }
    assert(edges@ =~= outline(indices@));
    assert(centers@ =~= Seq::new(grid.cell_count() as nat, |t: int| t as usize));
    let ghost table = rows(grid.neighbors);
    let mut links: Vec<(usize, usize)> = Vec::new();
    let mut i: usize = 0;
    while i < cells
        invariant
            cells == grid.neighbors@.len(),
            table == rows(grid.neighbors),
            i <= cells,
            links@ == links_below(table, i as int),
        decreases cells - i,
    {
        let row = &grid.neighbors[i];
        assert(table[i as int] == row@);
        let ghost before = links@;
        let mut k: usize = 0;
        while k < row.len()
            invariant
                k <= row@.len(),
                links@ == before + row_links(row@, i as int, k as int),
            decreases row@.len() - k,
        {
            let neighbor: usize = row[k];
            if neighbor > i {
                links.push((i, neighbor));
            }
            assert(links@ =~= before + row_links(row@, i as int, k + 1));
            k += 1;
        }
        i += 1;
    }
    GridOverlay { edges, centers, links }
}

} // verus!
