//! The generator of the sphere mesh.
//!
//! The mesh comes from the `hexasphere` crate. Nothing here is proved of what
//! that crate returns: its results have names, and the rest of the library
//! checks them before it builds on them.

use vstd::prelude::*;
use hexasphere::shapes::IcoSphere;

verus! {

/// The deepest subdivision whose triangles can still be numbered with 32-bit
/// indices, one value being kept free as the mark of an unused slot.
pub const MAX_SUBDIVISION: usize = 13;

/// Four to the power `level`: the number of triangles that one triangle
/// becomes after `level` rounds of splitting each triangle into four.
pub open spec fn pow4(level: nat) -> nat
    decreases level,
{
    if level == 0 {
        1
    } else {
        4 * pow4((level - 1) as nat)
    }
}

/// The number of triangles of the sphere at a subdivision level.
pub open spec fn triangles_at(level: nat) -> nat {
    20 * pow4(level)
}

/// The number of vertices of the sphere at a subdivision level.
pub open spec fn vertices_at(level: nat) -> nat {
    10 * pow4(level) + 2
}

/// The number of points that `level` rounds of halving put on each edge of
/// the base icosahedron, its two ends not counted.
pub open spec fn edge_divisions(level: nat) -> nat
    decreases level,
{
    if level == 0 {
        0
    } else {
        2 * edge_divisions((level - 1) as nat) + 1
    }
}

/// The index list that `hexasphere` gives for an icosphere with `divisions`
/// points added along each edge of the icosahedron: three vertex indices for
/// each triangle.
pub uninterp spec fn icosphere_indices(divisions: nat) -> Seq<u32>;

/// The number of vertex positions that `hexasphere` gives for that icosphere.
pub uninterp spec fn icosphere_points(divisions: nat) -> nat;

/// A deeper level has at least as many triangles.
pub proof fn lemma_pow4_grows(a: nat, b: nat)
    requires
        a <= b,
    ensures
        pow4(a) <= pow4(b),
    decreases b,
{
    if a < b {
        lemma_pow4_grows(a, (b - 1) as nat);
    }
}

/// A deeper level has at least as many points on each edge.
pub proof fn lemma_edge_divisions_grow(a: nat, b: nat)
    requires
        a <= b,
    ensures
        edge_divisions(a) <= edge_divisions(b),
    decreases b,
{
    if a < b {
        lemma_edge_divisions_grow(a, (b - 1) as nat);
    }
}

/// Why the generator is asked for `edge_divisions(level)` points on each edge:
/// they cut the edge into `edge_divisions(level) + 1` pieces and each face of
/// the icosahedron into that number squared of triangles, which is
/// `pow4(level)`.
pub proof fn lemma_divisions_square(level: nat)
    ensures
        (edge_divisions(level) + 1) * (edge_divisions(level) + 1) == pow4(level),
    decreases level,
{
    if level > 0 {
        lemma_divisions_square((level - 1) as nat);
        let half = edge_divisions((level - 1) as nat) + 1;
        let whole = edge_divisions(level) + 1;
        assert(whole * whole == 4 * (half * half)) by (nonlinear_arith)
            requires
                whole == 2 * half,
        ;
        assert(half * half == pow4((level - 1) as nat));
    } else {
        assert(edge_divisions(level) + 1 == 1);
    }
}

/// The largest values the counts take: at the deepest level there are
/// 67108864 triangles to each face of the icosahedron and 8191 points on each
/// of its edges.
pub proof fn lemma_deepest_level()
    ensures
        pow4(MAX_SUBDIVISION as nat) == 67108864,
        edge_divisions(MAX_SUBDIVISION as nat) == 8191,
{
    reveal_with_fuel(pow4, 14);
    reveal_with_fuel(edge_divisions, 14);
}

/// Four to the power `level`.
pub fn power_of_four(level: usize) -> (r: u32)
    requires
        level <= MAX_SUBDIVISION,
    ensures
        r == pow4(level as nat),
{
    let mut r: u32 = 1;
    let mut i: usize = 0;
    while i < level
        invariant
            i <= level <= MAX_SUBDIVISION,
            r == pow4(i as nat),
        decreases level - i,
    {
        proof {
            lemma_pow4_grows((i + 1) as nat, MAX_SUBDIVISION as nat);
            lemma_deepest_level();
        }
        r = r * 4;
        i += 1;
    }
    r
}

/// The number of points on each edge of the icosahedron at a subdivision level.
pub fn divisions_at(level: usize) -> (r: usize)
    requires
        level <= MAX_SUBDIVISION,
    ensures
        r == edge_divisions(level as nat),
{
    let mut r: usize = 0;
    let mut i: usize = 0;
    while i < level
        invariant
            i <= level <= MAX_SUBDIVISION,
            r == edge_divisions(i as nat),
        decreases level - i,
    {
        proof {
            lemma_edge_divisions_grow((i + 1) as nat, MAX_SUBDIVISION as nat);
            lemma_deepest_level();
        }
        r = 2 * r + 1;
        i += 1;
    }
    r
}

/// Builds an icosphere with `hexasphere::shapes::IcoSphere::new` and hands
/// back the length of its `raw_points()` and the result of its
/// `get_all_indices()`.
///
/// The contract only names the two results; it claims nothing of what they
/// hold. The bound keeps the crate's 32-bit point counter from wrapping.
#[verifier::external_body]
pub(crate) fn generate_icosphere(divisions: usize) -> (parts: (usize, Vec<u32>))
    requires
        divisions <= 8191,
    ensures
        parts.0 == icosphere_points(divisions as nat),
        parts.1@ == icosphere_indices(divisions as nat),
{
    let sphere = IcoSphere::new(divisions, |_| ());
    (sphere.raw_points().len(), sphere.get_all_indices())
}

} // verus!
