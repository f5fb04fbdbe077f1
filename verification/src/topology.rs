//! Adjacency of the triangles of an indexed mesh.
//!
//! A mesh is given as a flat list of vertex indices, three per triangle. Two
//! triangles are neighbours when they share an edge; an edge is the unordered
//! pair of the vertex indices at its ends. Only integer equality decides
//! adjacency, so the tables do not depend on numeric precision.

use vstd::prelude::*;
use std::collections::HashMap;
use crate::error::SolverError;
use crate::table::rows;

verus! {

broadcast use vstd::std_specs::hash::group_hash_axioms;

/// An undirected edge between two vertices, the smaller index first.
#[derive(Debug, Clone, Copy, PartialEq, Eq, Structural)]
pub struct Edge {
    pub lo: u32,
    pub hi: u32,
}

/// The edge that joins `a` and `b`, whichever way round they are given.
pub open spec fn edge_between(a: u32, b: u32) -> Edge {
    if a <= b {
        Edge { lo: a, hi: b }
    } else {
        Edge { lo: b, hi: a }
    }
}

/// The number of triangles that a flat index list holds.
pub open spec fn triangle_count(indices: Seq<u32>) -> int {
    indices.len() as int / 3
}

/// The vertex at corner `k` (0, 1 or 2) of triangle `t`.
pub open spec fn corner(indices: Seq<u32>, t: int, k: int) -> u32 {
    indices[3 * t + k]
}

/// The corner that follows corner `k` in the winding of a triangle.
pub open spec fn next_corner(k: int) -> int {
    if k == 2 {
        0
    } else {
        k + 1
    }
}

/// Edge `k` of triangle `t`: the one from corner `k` to the next corner.
pub open spec fn edge_of(indices: Seq<u32>, t: int, k: int) -> Edge {
    edge_between(corner(indices, t, k), corner(indices, t, next_corner(k)))
}

/// Whether `e` is one of the three edges of triangle `t`.
pub open spec fn has_edge(indices: Seq<u32>, t: int, e: Edge) -> bool {
    edge_of(indices, t, 0) == e || edge_of(indices, t, 1) == e || edge_of(indices, t, 2) == e
}

/// The triangles with an index below `m` that have `e` as an edge, in ascending order.
pub open spec fn sharing_below(indices: Seq<u32>, e: Edge, m: int) -> Seq<int>
    decreases m,
{
    if m <= 0 {
        Seq::empty()
    } else {
        let rest = sharing_below(indices, e, m - 1);
        if has_edge(indices, m - 1, e) {
            rest.push(m - 1)
        } else {
            rest
        }
    }
}

/// All triangles of the mesh that have `e` as an edge, in ascending order.
pub open spec fn sharing(indices: Seq<u32>, e: Edge) -> Seq<int> {
    sharing_below(indices, e, triangle_count(indices))
}

/// Every edge of every triangle is shared by exactly two triangles.
pub open spec fn closed_manifold(indices: Seq<u32>) -> bool {
    forall|t: int, k: int|
        0 <= t < triangle_count(indices) && 0 <= k < 3 ==> (#[trigger] sharing(
            indices,
            edge_of(indices, t, k),
        )).len() == 2
}

/// The triangle on the other side of edge `k` of triangle `t`.
pub open spec fn across(indices: Seq<u32>, t: int, k: int) -> int {
    let pair = sharing(indices, edge_of(indices, t, k));
    if pair[0] == t {
        pair[1]
    } else {
        pair[0]
    }
}

/// `table` lists, for every triangle, the triangle across each of its three
/// edges, in the order of the edges.
pub open spec fn is_neighbor_table(indices: Seq<u32>, table: Seq<Seq<usize>>) -> bool {
    &&& table.len() == triangle_count(indices)
    &&& forall|t: int| 0 <= t < table.len() ==> (#[trigger] table[t]).len() == 3
    &&& forall|t: int, k: int|
        0 <= t < table.len() && 0 <= k < 3 ==> #[trigger] table[t][k] == across(indices, t, k)
}

/// Every member of `sharing_below` is a triangle below `m` with the edge, and
/// the members ascend strictly.
pub proof fn lemma_sharing_below_members(indices: Seq<u32>, e: Edge, m: int)
    ensures
        forall|i: int|
            0 <= i < sharing_below(indices, e, m).len() ==> {
                &&& 0 <= #[trigger] sharing_below(indices, e, m)[i] < m
                &&& has_edge(indices, sharing_below(indices, e, m)[i], e)
            },
        forall|i: int, j: int|
            0 <= i < j < sharing_below(indices, e, m).len() ==> sharing_below(indices, e, m)[i]
                < sharing_below(indices, e, m)[j],
    decreases m,
{
    if m > 0 {
        lemma_sharing_below_members(indices, e, m - 1);
        let s = sharing_below(indices, e, m);
        let rest = sharing_below(indices, e, m - 1);
        assert forall|i: int| 0 <= i < s.len() implies 0 <= #[trigger] s[i] < m && has_edge(
            indices,
            s[i],
            e,
        ) by {
            if i < rest.len() {
                assert(s[i] == rest[i]);
            }
        }
        assert forall|i: int, j: int| 0 <= i < j < s.len() implies s[i] < s[j] by {
            assert(s[i] == rest[i]);
            if j < rest.len() {
                assert(s[j] == rest[j]);
            }
        }
    }
}

/// Every triangle below `m` with the edge is a member of `sharing_below`.
pub proof fn lemma_sharing_below_complete(indices: Seq<u32>, e: Edge, m: int, t: int)
    requires
        0 <= t < m,
        has_edge(indices, t, e),
    ensures
        sharing_below(indices, e, m).contains(t),
    decreases m,
{
    let s = sharing_below(indices, e, m);
    if t == m - 1 {
        assert(s[s.len() - 1] == t);
    } else {
        lemma_sharing_below_complete(indices, e, m - 1, t);
        let prev = sharing_below(indices, e, m - 1);
        let i = choose|i: int| 0 <= i < prev.len() && prev[i] == t;
        assert(s[i] == t);
    }
}

/// Raising the bound only appends: the shorter list is a prefix of the longer.
pub proof fn lemma_sharing_below_prefix(indices: Seq<u32>, e: Edge, a: int, b: int)
    requires
        a <= b,
    ensures
        sharing_below(indices, e, a).len() <= sharing_below(indices, e, b).len(),
        forall|i: int|
            0 <= i < sharing_below(indices, e, a).len() ==> sharing_below(indices, e, a)[i]
                == sharing_below(indices, e, b)[i],
    decreases b - a,
{
    if a < b {
        lemma_sharing_below_prefix(indices, e, a, b - 1);
    }
}

/// On a closed manifold the triangle across an edge is another triangle of
/// the mesh, and it has that edge too.
pub proof fn lemma_across(indices: Seq<u32>, t: int, k: int)
    requires
        closed_manifold(indices),
        0 <= t < triangle_count(indices),
        0 <= k < 3,
    ensures
        0 <= across(indices, t, k) < triangle_count(indices),
        across(indices, t, k) != t,
        has_edge(indices, across(indices, t, k), edge_of(indices, t, k)),
        sharing(indices, edge_of(indices, t, k)).contains(t),
{
    let e = edge_of(indices, t, k);
    let n = triangle_count(indices);
    let pair = sharing(indices, e);
    assert(pair.len() == 2);
    lemma_sharing_below_members(indices, e, n);
    lemma_sharing_below_complete(indices, e, n, t);
    assert(pair[0] < pair[1]);
}

/// What the first pass knows of one edge: how many triangles have it so far
/// (one or two) and which they are.
#[derive(Clone, Copy)]
struct EdgeUse {
    count: u8,
    first: usize,
    second: usize,
}

/// The key under which an edge is filed: both indices packed into one word.
spec fn edge_key(e: Edge) -> u64 {
    (e.lo as int * 0x1_0000_0000 + e.hi as int) as u64
}

/// Distinct edges have distinct keys.
proof fn lemma_edge_key_injective(e1: Edge, e2: Edge)
    ensures
        edge_key(e1) == edge_key(e2) <==> e1 == e2,
{
}

/// Whether one of the first `j` edges of triangle `t` is `e`.
spec fn has_edge_before(indices: Seq<u32>, t: int, e: Edge, j: int) -> bool {
    ||| (j > 0 && edge_of(indices, t, 0) == e)
    ||| (j > 1 && edge_of(indices, t, 1) == e)
    ||| (j > 2 && edge_of(indices, t, 2) == e)
}

/// The triangles found to have `e` once every triangle below `t` and the
/// first `j` edges of triangle `t` have been looked at.
spec fn seen(indices: Seq<u32>, e: Edge, t: int, j: int) -> Seq<int> {
    let below = sharing_below(indices, e, t);
    if has_edge_before(indices, t, e, j) {
        below.push(t)
    } else {
        below
    }
}

/// The entry under `key` says exactly what `found` holds.
spec fn recorded(map: Map<u64, EdgeUse>, key: u64, found: Seq<int>) -> bool {
    if found.len() == 0 {
        !map.contains_key(key)
    } else {
        &&& map.contains_key(key)
        &&& found.len() <= 2
        &&& map[key].count == found.len()
        &&& map[key].first == found[0]
        &&& found.len() == 2 ==> map[key].second == found[1]
    }
}

/// The map holds, for every edge, what has been seen of it so far.
spec fn records(map: Map<u64, EdgeUse>, indices: Seq<u32>, t: int, j: int) -> bool {
    forall|e: Edge| recorded(map, edge_key(e), #[trigger] seen(indices, e, t, j))
}

fn key_between(a: u32, b: u32) -> (key: u64)
    ensures
        key == edge_key(edge_between(a, b)),
{
    if a <= b {
        (a as u64) * 0x1_0000_0000u64 + (b as u64)
    } else {
        (b as u64) * 0x1_0000_0000u64 + (a as u64)
    }
}

fn edge_key_at(indices: &Vec<u32>, t: usize, k: usize) -> (key: u64)
    requires
        t < triangle_count(indices@),
        k < 3,
    ensures
        key == edge_key(edge_of(indices@, t as int, k as int)),
{
    let len: usize = indices.len();
    assert(3 * t + 3 <= len);
    let base: usize = 3 * t;
    let a: u32 = indices[base + k];
    let b: u32 = if k == 2 {
        indices[base]
    } else {
        indices[base + k + 1]
    };
    key_between(a, b)
}

/// Files edge `k` of triangle `t`. Fails when the edge already belongs to two
/// other triangles.
fn record_edge(map: &mut HashMap<u64, EdgeUse>, indices: &Vec<u32>, t: usize, k: usize) -> (ok:
    bool)
    requires
        t < triangle_count(indices@),
        k < 3,
        records(old(map)@, indices@, t as int, k as int),
    ensures
        ok ==> records(final(map)@, indices@, t as int, k + 1),
        !ok ==> !closed_manifold(indices@),
{
    let key = edge_key_at(indices, t, k);
    let ghost e = edge_of(indices@, t as int, k as int);
    let ghost below = sharing_below(indices@, e, t as int);
    proof {
        lemma_sharing_below_members(indices@, e, t as int);
        assert(recorded(map@, edge_key(e), seen(indices@, e, t as int, k as int)));
    }
    let found: Option<EdgeUse> = match map.get(&key) {
        Some(u) => Some(*u),
        None => None,
    };
    let ok = match found {
        None => {
            map.insert(key, EdgeUse { count: 1, first: t, second: t });
            true
        },
        Some(u) => {
            if u.first == t || (u.count == 2 && u.second == t) {
                true
            } else if u.count == 1 {
                map.insert(key, EdgeUse { count: 2, first: u.first, second: t });
                true
            } else {
                proof {
                    assert(below.len() == 2);
                    assert(sharing_below(indices@, e, t + 1).len() == 3);
                    lemma_sharing_below_prefix(indices@, e, t + 1, triangle_count(indices@));
                    assert(sharing(indices@, edge_of(indices@, t as int, k as int)).len() >= 3);
                }
                false
            }
        },
    };
    proof {
        if ok {
            assert forall|other: Edge|
                recorded(
                    map@,
                    edge_key(other),
                    #[trigger] seen(indices@, other, t as int, k + 1),
                ) by {
                assert(recorded(
                    old(map)@,
                    edge_key(other),
                    seen(indices@, other, t as int, k as int),
                ));
                lemma_edge_key_injective(other, e);
                if other != e {
                    assert(seen(indices@, other, t as int, k + 1) == seen(
                        indices@,
                        other,
                        t as int,
                        k as int,
                    ));
                }
            }
        }
    }
    ok
}

/// The triangle across each edge of each triangle.
///
/// Succeeds exactly on a closed manifold, where every edge of every triangle
/// is shared by two triangles. Row `t` of the table then holds the three
/// neighbours of triangle `t`, in the order of its edges.
pub fn neighbor_table(indices: &Vec<u32>) -> (result: Result<Vec<Vec<usize>>, SolverError>)
    ensures
        result is Ok <==> closed_manifold(indices@),
        result matches Ok(table) ==> is_neighbor_table(indices@, rows(table)),
        result matches Err(e) ==> e == SolverError::MalformedTopology,
{
    let n: usize = indices.len() / 3;
    let mut map: HashMap<u64, EdgeUse> = HashMap::new();
    let mut t: usize = 0;
    while t < n
        invariant
            n == triangle_count(indices@),
            t <= n,
            records(map@, indices@, t as int, 0),
        decreases n - t,
    {
        if !record_edge(&mut map, indices, t, 0) {
            return Err(SolverError::MalformedTopology);
        }
        if !record_edge(&mut map, indices, t, 1) {
            return Err(SolverError::MalformedTopology);
        }
        if !record_edge(&mut map, indices, t, 2) {
            return Err(SolverError::MalformedTopology);
        }
        proof {
            assert forall|e: Edge|
                recorded(map@, edge_key(e), #[trigger] seen(indices@, e, t + 1, 0)) by {
                assert(seen(indices@, e, t + 1, 0) == seen(indices@, e, t as int, 3));
            }
        }
        t += 1;
    }
    let mut table: Vec<Vec<usize>> = Vec::new();
    let mut t: usize = 0;
    while t < n
        invariant
            n == triangle_count(indices@),
            t <= n,
            records(map@, indices@, n as int, 0),
            table@.len() == t,
            forall|i: int| 0 <= i < t ==> (#[trigger] table@[i])@.len() == 3,
            forall|i: int, k: int|
                0 <= i < t && 0 <= k < 3 ==> {
                    &&& (#[trigger] sharing(indices@, edge_of(indices@, i, k))).len() == 2
                    &&& table@[i]@[k] == across(indices@, i, k)
                },
        decreases n - t,
    {
        let mut row: Vec<usize> = Vec::new();
        let mut k: usize = 0;
        while k < 3
            invariant
                n == triangle_count(indices@),
                t < n,
                k <= 3,
                records(map@, indices@, n as int, 0),
                row@.len() == k,
                forall|j: int|
                    0 <= j < k ==> {
                        &&& (#[trigger] sharing(indices@, edge_of(indices@, t as int, j))).len()
                            == 2
                        &&& row@[j] == across(indices@, t as int, j)
                    },
            decreases 3 - k,
        {
            let key = edge_key_at(indices, t, k);
            let ghost e = edge_of(indices@, t as int, k as int);
            proof {
                assert(recorded(map@, edge_key(e), seen(indices@, e, n as int, 0)));
                assert(seen(indices@, e, n as int, 0) == sharing(indices@, e));
                lemma_sharing_below_complete(indices@, e, n as int, t as int);
                lemma_sharing_below_members(indices@, e, n as int);
            }
            let found: Option<EdgeUse> = match map.get(&key) {
                Some(u) => Some(*u),
                None => None,
            };
            match found {
                Some(u) => {
                    if u.count != 2 {
                        return Err(SolverError::MalformedTopology);
                    }
                    if u.first == t {
                        row.push(u.second);
                    } else {
                        row.push(u.first);
                    }
                },
                None => {
                    return Err(SolverError::MalformedTopology);
                },
            }
            k += 1;
        }
        table.push(row);
        t += 1;
    }
    proof {
        assert(rows(table).len() == n);
        assert forall|i: int, k: int|
            0 <= i < rows(table).len() && 0 <= k < 3 implies #[trigger] rows(table)[i][k]
            == across(indices@, i, k) by {
            assert(sharing(indices@, edge_of(indices@, i, k)).len() == 2);
        }
    }
    Ok(table)
}

/// A mesh has one neighbour table.
pub proof fn lemma_neighbor_table_unique(
    indices: Seq<u32>,
    a: Seq<Seq<usize>>,
    b: Seq<Seq<usize>>,
)
    requires
        is_neighbor_table(indices, a),
        is_neighbor_table(indices, b),
    ensures
        a == b,
{
    assert forall|t: int| 0 <= t < a.len() implies a[t] == b[t] by {
        assert forall|k: int| 0 <= k < 3 implies a[t][k] == b[t][k] by {
            assert(a[t][k] == across(indices, t, k));
            assert(b[t][k] == across(indices, t, k));
        }
        assert(a[t].len() == 3 && b[t].len() == 3);
        assert(a[t] =~= b[t]);
    }
    assert(a =~= b);
}

/// Triangle `j` stands in row `i` of the table.
pub open spec fn adjacent(table: Seq<Seq<usize>>, i: int, j: int) -> bool {
    exists|k: int| 0 <= k < table[i].len() && #[trigger] table[i][k] == j
}

proof fn lemma_adjacent_back(indices: Seq<u32>, table: Seq<Seq<usize>>, i: int, j: int)
    requires
        closed_manifold(indices),
        is_neighbor_table(indices, table),
        0 <= i < triangle_count(indices),
        0 <= j < triangle_count(indices),
        adjacent(table, i, j),
    ensures
        adjacent(table, j, i),
{
    let k = choose|k: int| 0 <= k < table[i].len() && #[trigger] table[i][k] == j;
    let e = edge_of(indices, i, k);
    lemma_across(indices, i, k);
    lemma_sharing_below_members(indices, e, triangle_count(indices));
    let back = if edge_of(indices, j, 0) == e {
        0int
    } else if edge_of(indices, j, 1) == e {
        1int
    } else {
        2int
    };
    assert(edge_of(indices, j, back) == e);
    assert(table[j][back] == i);
}

/// Adjacency is symmetric: on a closed manifold, triangle `j` is a neighbour
/// of triangle `i` exactly when `i` is a neighbour of `j`.
pub proof fn lemma_neighbors_symmetric(indices: Seq<u32>, table: Seq<Seq<usize>>, i: int, j: int)
    requires
        closed_manifold(indices),
        is_neighbor_table(indices, table),
        0 <= i < triangle_count(indices),
        0 <= j < triangle_count(indices),
    ensures
        adjacent(table, i, j) <==> adjacent(table, j, i),
{
    if adjacent(table, i, j) {
        lemma_adjacent_back(indices, table, i, j);
    }
    if adjacent(table, j, i) {
        lemma_adjacent_back(indices, table, j, i);
    }
}

/// On a closed manifold every triangle has three neighbours, each of them
/// another triangle of the mesh.
pub proof fn lemma_three_neighbors(indices: Seq<u32>, table: Seq<Seq<usize>>, i: int)
    requires
        closed_manifold(indices),
        is_neighbor_table(indices, table),
        0 <= i < triangle_count(indices),
    ensures
        table[i].len() == 3,
        forall|k: int|
            0 <= k < 3 ==> 0 <= #[trigger] table[i][k] < triangle_count(indices) && table[i][k]
                != i,
{
    assert forall|k: int| 0 <= k < 3 implies 0 <= #[trigger] table[i][k] < triangle_count(indices)
        && table[i][k] != i by {
        lemma_across(indices, i, k);
    }
}

} // verus!
