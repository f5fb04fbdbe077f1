//! Which triangles meet at each vertex.

use vstd::prelude::*;
use crate::table::{entries, rows};

verus! {

/// The triangles named by the first `m` places of the index list that hold
/// vertex `v`, in the order of the places. A triangle that names the vertex at
/// two corners is listed twice.
pub open spec fn incident_below(indices: Seq<u32>, v: int, m: int) -> Seq<int>
    decreases m,
{
    if m <= 0 {
        Seq::empty()
    } else {
        let rest = incident_below(indices, v, m - 1);
        if indices[m - 1] == v {
            rest.push((m - 1) / 3)
        } else {
            rest
        }
    }
}

/// The triangles that have vertex `v` as a corner, in ascending order.
pub open spec fn incident(indices: Seq<u32>, v: int) -> Seq<int> {
    incident_below(indices, v, 3 * (indices.len() as int / 3))
}

/// Every triangle listed for a vertex starts below place `m` and names the
/// vertex at one of its corners.
pub proof fn lemma_incident_members(indices: Seq<u32>, v: int, m: int)
    requires
        m <= indices.len(),
    ensures
        forall|i: int|
            0 <= i < incident_below(indices, v, m).len() ==> {
                let t = #[trigger] incident_below(indices, v, m)[i];
                &&& 0 <= t
                &&& 3 * t < m
                &&& (indices[3 * t] == v || indices[3 * t + 1] == v || indices[3 * t + 2] == v)
            },
    decreases m,
{
    if m > 0 {
        lemma_incident_members(indices, v, m - 1);
        let s = incident_below(indices, v, m);
        let rest = incident_below(indices, v, m - 1);
        assert forall|i: int| 0 <= i < s.len() implies {
            let t = #[trigger] s[i];
            &&& 0 <= t
            &&& 3 * t < m
            &&& (indices[3 * t] == v || indices[3 * t + 1] == v || indices[3 * t + 2] == v)
        } by {
            if i < rest.len() {
                assert(s[i] == rest[i]);
            }
        }
    }
}

/// `row` holds the same triangles as `want`, in the same order.
pub open spec fn same_triangles(row: Seq<usize>, want: Seq<int>) -> bool {
    &&& row.len() == want.len()
    &&& forall|i: int| 0 <= i < row.len() ==> #[trigger] row[i] == want[i]
}

/// `table` lists, for every vertex, the triangles that meet there.
pub open spec fn is_incidence_table(
    indices: Seq<u32>,
    vertex_count: int,
    table: Seq<Seq<usize>>,
) -> bool {
    &&& table.len() == vertex_count
    &&& forall|v: int|
        0 <= v < vertex_count ==> same_triangles(#[trigger] table[v], incident(indices, v))
}

/// A mesh has one incidence table.
pub proof fn lemma_incidence_table_unique(
    indices: Seq<u32>,
    vertex_count: int,
    a: Seq<Seq<usize>>,
    b: Seq<Seq<usize>>,
)
    requires
        is_incidence_table(indices, vertex_count, a),
        is_incidence_table(indices, vertex_count, b),
    ensures
        a == b,
{
    assert forall|v: int| 0 <= v < a.len() implies a[v] == b[v] by {
        assert(same_triangles(a[v], incident(indices, v)));
        assert(same_triangles(b[v], incident(indices, v)));
        assert(a[v] =~= b[v]);
    }
    assert(a =~= b);
}

/// The number of corners among the first `m` places that fall on one of the
/// first `upto` vertices.
pub open spec fn corners_below(indices: Seq<u32>, upto: int, m: int) -> int
    decreases upto,
{
    if upto <= 0 {
        0
    } else {
        corners_below(indices, upto - 1, m) + incident_below(indices, upto - 1, m).len()
    }
}

/// Looking at one more place adds one corner, at the vertex found there.
proof fn lemma_corners_step(indices: Seq<u32>, upto: int, m: int)
    requires
        0 < m <= indices.len(),
    ensures
        corners_below(indices, upto, m) == corners_below(indices, upto, m - 1) + if indices[m
            - 1] < upto {
            1int
        } else {
            0int
        },
    decreases upto,
{
    if upto > 0 {
        lemma_corners_step(indices, upto - 1, m);
    }
}

/// Every place of the index list is a corner at exactly one vertex: when all
/// indices are below `vertex_count`, the lists of all vertices together have
/// as many entries as the index list has places.
pub proof fn lemma_corners_total(indices: Seq<u32>, vertex_count: int, m: int)
    requires
        0 <= m <= indices.len(),
        forall|p: int| 0 <= p < indices.len() ==> #[trigger] indices[p] < vertex_count,
    ensures
        corners_below(indices, vertex_count, m) == m,
    decreases m,
{
    if m > 0 {
        lemma_corners_total(indices, vertex_count, m - 1);
        lemma_corners_step(indices, vertex_count, m);
    } else {
        lemma_corners_none(indices, vertex_count);
    }
}

proof fn lemma_corners_none(indices: Seq<u32>, upto: int)
    ensures
        corners_below(indices, upto, 0) == 0,
    decreases upto,
{
    if upto > 0 {
        lemma_corners_none(indices, upto - 1);
    }
}

proof fn lemma_entries_match(indices: Seq<u32>, table: Seq<Seq<usize>>, upto: int, m: int)
    requires
        0 <= upto <= table.len(),
        forall|v: int|
            0 <= v < table.len() ==> (#[trigger] table[v]).len() == incident_below(
                indices,
                v,
                m,
            ).len(),
    ensures
        entries(table, upto) == corners_below(indices, upto, m),
    decreases upto,
{
    if upto > 0 {
        lemma_entries_match(indices, table, upto - 1, m);
    }
}

/// The incidence lists of a mesh hold three entries for every triangle.
pub proof fn lemma_incidence_complete(
    indices: Seq<u32>,
    vertex_count: int,
    table: Seq<Seq<usize>>,
)
    requires
        0 <= vertex_count,
        forall|p: int| 0 <= p < indices.len() ==> #[trigger] indices[p] < vertex_count,
        is_incidence_table(indices, vertex_count, table),
    ensures
        entries(table, vertex_count) == 3 * (indices.len() as int / 3),
{
    lemma_entries_match(indices, table, vertex_count, 3 * (indices.len() as int / 3));
    lemma_corners_total(indices, vertex_count, 3 * (indices.len() as int / 3));
}

/// The triangles that meet at each vertex.
///
/// Row `v` of the result lists the triangles that name vertex `v` as a
/// corner, in ascending order.
pub fn vertex_incidence(vertex_count: usize, indices: &Vec<u32>) -> (table: Vec<Vec<usize>>)
    requires
        forall|p: int| 0 <= p < indices@.len() ==> #[trigger] indices@[p] < vertex_count,
    ensures
        is_incidence_table(indices@, vertex_count as int, rows(table)),
{
    let mut table: Vec<Vec<usize>> = Vec::new();
    let mut v: usize = 0;
    while v < vertex_count
        invariant
            v <= vertex_count,
            table@.len() == v,
            forall|i: int| 0 <= i < v ==> (#[trigger] table@[i])@.len() == 0,
        decreases vertex_count - v,
    {
        table.push(Vec::new());
        v += 1;
    }
    let len: usize = 3 * (indices.len() / 3);
    let mut p: usize = 0;
    while p < len
        invariant
            len == 3 * (indices@.len() as int / 3),
            p <= len,
            table@.len() == vertex_count,
            forall|q: int| 0 <= q < indices@.len() ==> #[trigger] indices@[q] < vertex_count,
            forall|i: int|
                0 <= i < vertex_count ==> same_triangles(
                    (#[trigger] table@[i])@,
                    incident_below(indices@, i, p as int),
                ),
        decreases len - p,
    {
        let at: usize = indices[p] as usize;
        let ghost before = table@;
        table[at].push(p / 3);
        proof {
            assert forall|i: int| 0 <= i < vertex_count implies same_triangles(
                (#[trigger] table@[i])@,
                incident_below(indices@, i, p + 1),
            ) by {
                assert(same_triangles(before[i]@, incident_below(indices@, i, p as int)));
                if i != at {
                    assert(table@[i] == before[i]);
                }
            }
        }
        p += 1;
    }
    proof {
        assert forall|i: int| 0 <= i < vertex_count implies same_triangles(
            #[trigger] rows(table)[i],
            incident(indices@, i),
        ) by {
            assert(same_triangles(table@[i]@, incident_below(indices@, i, len as int)));
        }
    }
    table
}

} // verus!
