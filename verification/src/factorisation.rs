//! The three factors of a square matrix, and what is asked of them.

use crate::elimination::Elimination;
use crate::grid::Grid;
use vstd::prelude::*;

verus! {

/// `v` stands somewhere in `perm`.
pub open spec fn occurs(perm: Seq<int>, v: int) -> bool {
    exists|i: int| 0 <= i < perm.len() && perm[i] == v
}

/// `perm` lists the numbers below `n`, each once.
pub open spec fn is_permutation(perm: Seq<int>, n: nat) -> bool {
    &&& perm.len() == n
    &&& forall|i: int| 0 <= i < n ==> 0 <= #[trigger] perm[i] < n
    &&& forall|i: int, j: int| 0 <= i < n && 0 <= j < n && i != j ==> perm[i] != perm[j]
    &&& forall|v: int| 0 <= v < n ==> #[trigger] occurs(perm, v)
}


/// The cell `(i, j)` of the matrix of `perm`: one where `perm` sends row `i`
/// to column `j`, zero elsewhere.
pub open spec fn permutation_cell(perm: Seq<int>, i: int, j: int) -> real {
    if j == perm[i] {
        1real
    } else {
        0real
    }
}

/// The matrix of `perm`: row `i` holds a single one, in column `perm[i]`.
pub open spec fn permutation_grid(perm: Seq<int>) -> Grid<real> {
    Grid::from_fn(perm.len(), perm.len(), |i: int, j: int| permutation_cell(perm, i, j))
}

/// The three factors of a matrix.
pub struct Factors {
    /// The permutation matrix.
    pub p: Grid<real>,
    /// The unit lower triangular factor.
    pub l: Grid<real>,
    /// The upper triangular factor.
    pub u: Grid<real>,
}

/// The factors of `a`: what the elimination holds once every column of `a`
/// is dealt with.
pub open spec fn factors(a: Grid<real>) -> Factors {
    let s = Elimination::after(a, a.cols);
    Factors { p: permutation_grid(s.perm), l: s.lower, u: s.upper }
}

/// One on the diagonal, zero above it.
pub open spec fn is_unit_lower(g: Grid<real>) -> bool {
    &&& forall|i: int, j: int| g.has(i, j) && i == j ==> #[trigger] g.at(i, j) == 1real
    &&& forall|i: int, j: int| g.has(i, j) && i < j ==> #[trigger] g.at(i, j) == 0real
}

/// Zero below the diagonal.
pub open spec fn is_upper(g: Grid<real>) -> bool {
    forall|i: int, j: int| g.has(i, j) && j < i ==> #[trigger] g.at(i, j) == 0real
}

/// Row `i` of `g` holds one in column `c` and zero in every other column.
pub open spec fn row_marks(g: Grid<real>, i: int, c: int) -> bool {
    &&& 0 <= c < g.cols
    &&& forall|j: int|
        0 <= j < g.cols ==> #[trigger] g.at(i, j) == if j == c {
            1real
        } else {
            0real
        }
}

/// Column `j` of `g` holds one in row `c` and zero in every other row.
pub open spec fn column_marks(g: Grid<real>, j: int, c: int) -> bool {
    &&& 0 <= c < g.rows
    &&& forall|i: int|
        0 <= i < g.rows ==> #[trigger] g.at(i, j) == if i == c {
            1real
        } else {
            0real
        }
}

/// Row `i` of `g` holds a single one, and zero elsewhere.
pub open spec fn row_has_single_one(g: Grid<real>, i: int) -> bool {
    exists|c: int| row_marks(g, i, c)
}

/// Column `j` of `g` holds a single one, and zero elsewhere.
pub open spec fn column_has_single_one(g: Grid<real>, j: int) -> bool {
    exists|c: int| column_marks(g, j, c)
}

/// A square grid in which every row and every column holds a single one, and
/// zero elsewhere.
pub open spec fn is_permutation_grid(g: Grid<real>) -> bool {
    &&& g.wf()
    &&& g.is_square()
    &&& forall|i: int| 0 <= i < g.rows ==> #[trigger] row_has_single_one(g, i)
    &&& forall|j: int| 0 <= j < g.cols ==> #[trigger] column_has_single_one(g, j)
}

} // verus!
