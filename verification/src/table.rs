//! Tables with one row of cell indices for each cell or vertex.

use vstd::prelude::*;

verus! {

/// The rows of a table as sequences.
pub open spec fn rows(table: Vec<Vec<usize>>) -> Seq<Seq<usize>> {
    Seq::new(table@.len(), |i: int| table@[i]@)
}

/// The number of entries in the first `upto` rows of a table.
pub open spec fn entries(table: Seq<Seq<usize>>, upto: int) -> int
    decreases upto,
{
    if upto <= 0 {
        0
    } else {
        entries(table, upto - 1) + table[upto - 1].len()
    }
}

/// Whether two tables hold the same rows.
pub fn same_rows(a: &Vec<Vec<usize>>, b: &Vec<Vec<usize>>) -> (same: bool)
    ensures
        same == (rows(*a) == rows(*b)),
{
    if a.len() != b.len() {
        assert(rows(*a).len() != rows(*b).len());
        return false;
    }
    let mut i: usize = 0;
    while i < a.len()
        invariant
            a@.len() == b@.len(),
            i <= a@.len(),
            forall|r: int| 0 <= r < i ==> (#[trigger] a@[r])@ == b@[r]@,
        decreases a@.len() - i,
    {
        let left = &a[i];
        let right = &b[i];
        if left.len() != right.len() {
            assert(rows(*a)[i as int] == left@ && rows(*b)[i as int] == right@);
            return false;
        }
        let mut j: usize = 0;
        while j < left.len()
            invariant
                left@.len() == right@.len(),
                j <= left@.len(),
                left == a@[i as int],
                right == b@[i as int],
                i < a@.len(),
                a@.len() == b@.len(),
                forall|c: int| 0 <= c < j ==> #[trigger] left@[c] == right@[c],
            decreases left@.len() - j,
        {
            if left[j] != right[j] {
                assert(rows(*a)[i as int] == left@ && rows(*b)[i as int] == right@);
                return false;
            }
            j += 1;
        }
        assert(left@ =~= right@);
        i += 1;
    }
    assert(rows(*a) =~= rows(*b));
    true
}

} // verus!
