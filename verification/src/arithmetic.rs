//! Arithmetic on grids of real numbers: the identities, the product, and
//! the facts about them that the factorisation rests on.

use crate::grid::Grid;
use crate::scalar::abs_real;
use vstd::prelude::*;

verus! {

/// A quotient times its divisor is the dividend.
pub proof fn lemma_quotient_times(x: real, d: real)
    requires
        d != 0real,
    ensures
        (x / d) * d == x,
{
    assert((x / d) * d == x) by (nonlinear_arith)
        requires
            d != 0real,
    ;
}

/// A dividend no larger in magnitude than its divisor gives a quotient of
/// magnitude at most one.
pub proof fn lemma_quotient_bound(x: real, d: real)
    requires
        d != 0real,
        abs_real(x) <= abs_real(d),
    ensures
        abs_real(x / d) <= 1real,
{
    let q = x / d;
    lemma_quotient_times(x, d);
    if q > 1real {
        if d > 0real {
            assert(q * d > d) by (nonlinear_arith)
                requires
                    q > 1real,
                    d > 0real,
            ;
        } else {
            assert(q * d < d) by (nonlinear_arith)
                requires
                    q > 1real,
                    d < 0real,
            ;
        }
    } else if q < -1real {
        if d > 0real {
            assert(q * d < -d) by (nonlinear_arith)
                requires
                    q < -1real,
                    d > 0real,
            ;
        } else {
            assert(q * d > -d) by (nonlinear_arith)
                requires
                    q < -1real,
                    d < 0real,
            ;
        }
    }
}

impl Grid<real> {
    /// The grid of the given shape that holds zero everywhere.
    pub open spec fn zero(rows: nat, cols: nat) -> Grid<real> {
        Grid::from_fn(rows, cols, |i: int, j: int| 0real)
    }

    /// The grid of the given shape that holds one on the diagonal and zero
    /// elsewhere.
    pub open spec fn unit(rows: nat, cols: nat) -> Grid<real> {
        Grid::from_fn(
            rows,
            cols,
            |i: int, j: int|
                if i == j {
                    1real
                } else {
                    0real
                },
        )
    }

    /// The sum of `self(i, t) * other(t, j)` over the first `n` values of
    /// `t`.
    pub open spec fn dot(self, i: int, other: Grid<real>, j: int, n: nat) -> real
        decreases n,
    {
        if n == 0 {
            0real
        } else {
            self.dot(i, other, j, (n - 1) as nat) + self.at(i, n - 1) * other.at(n - 1, j)
        }
    }

    /// The matrix product of `self` and `other`.
    pub open spec fn times(self, other: Grid<real>) -> Grid<real> {
        Grid::from_fn(
            self.rows,
            other.cols,
            |i: int, j: int| self.dot(i, other, j, self.cols),
        )
    }

    /// Every cell multiplied by `s`.
    pub open spec fn scaled(self, s: real) -> Grid<real> {
        Grid { rows: self.rows, cols: self.cols, cells: self.cells.map_values(|x: real| x * s) }
    }

    /// What the grid holds at `(i, j)` of a product with `other`.
    pub proof fn lemma_times(self, other: Grid<real>)
        ensures
            self.times(other).wf(),
            self.times(other).rows == self.rows,
            self.times(other).cols == other.cols,
            forall|i: int, j: int|
                0 <= i < self.rows && 0 <= j < other.cols ==> #[trigger] self.times(other).at(i, j)
                    == self.dot(i, other, j, self.cols),
    {
        Grid::lemma_from_fn(
            self.rows,
            other.cols,
            |i: int, j: int| self.dot(i, other, j, self.cols),
        );
    }

    /// A dot product looks only at row `i` of the left grid and column `j`
    /// of the right one, up to position `n`.
    pub proof fn lemma_dot_congruent(
        self,
        i: int,
        other: Grid<real>,
        j: int,
        left: Grid<real>,
        i2: int,
        right: Grid<real>,
        n: nat,
    )
        requires
            forall|t: int| 0 <= t < n ==> #[trigger] self.at(i, t) == left.at(i2, t),
            forall|t: int| 0 <= t < n ==> #[trigger] other.at(t, j) == right.at(t, j),
        ensures
            self.dot(i, other, j, n) == left.dot(i2, right, j, n),
        decreases n,
    {
        if n > 0 {
            self.lemma_dot_congruent(i, other, j, left, i2, right, (n - 1) as nat);
            assert(self.at(i, n - 1) == left.at(i2, n - 1));
            assert(other.at(n - 1, j) == right.at(n - 1, j));
        }
    }

    /// Terms whose right factor is zero add nothing to a dot product.
    pub proof fn lemma_dot_zero_tail(self, i: int, other: Grid<real>, j: int, m: nat, n: nat)
        requires
            m <= n,
            forall|t: int| m <= t < n ==> #[trigger] other.at(t, j) == 0real,
        ensures
            self.dot(i, other, j, n) == self.dot(i, other, j, m),
        decreases n,
    {
        if n > m {
            self.lemma_dot_zero_tail(i, other, j, m, (n - 1) as nat);
            assert(other.at(n - 1, j) == 0real);
            assert(self.at(i, n - 1) * 0real == 0real);
        }
    }

    /// A row that holds one at position `c` and zero elsewhere picks row `c`
    /// of the right grid.
    pub proof fn lemma_dot_selects(self, i: int, other: Grid<real>, j: int, c: int, n: nat)
        requires
            forall|t: int|
                0 <= t < n ==> #[trigger] self.at(i, t) == if t == c {
                    1real
                } else {
                    0real
                },
        ensures
            self.dot(i, other, j, n) == if 0 <= c < n {
                other.at(c, j)
            } else {
                0real
            },
        decreases n,
    {
        if n > 0 {
            self.lemma_dot_selects(i, other, j, c, (n - 1) as nat);
            let x = other.at(n - 1, j);
            assert(self.at(i, n - 1) == if n - 1 == c {
                1real
            } else {
                0real
            });
            assert(1real * x == x);
            assert(0real * x == 0real);
        }
    }
}

} // verus!
