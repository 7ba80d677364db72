//! Gaussian elimination with partial pivoting, as mathematics: the state
//! that the factorisation carries from one column to the next, on grids of
//! real numbers.

use crate::grid::{swapped, Grid};
use crate::scalar::abs_real;
use vstd::prelude::*;

verus! {

/// `p` is the first position of `s` that holds an entry of greatest
/// magnitude.
pub open spec fn is_first_max(s: Seq<real>, p: int) -> bool {
    &&& 0 <= p < s.len()
    &&& forall|i: int| 0 <= i < s.len() ==> abs_real(#[trigger] s[i]) <= abs_real(s[p])
    &&& forall|i: int| 0 <= i < p ==> abs_real(#[trigger] s[i]) < abs_real(s[p])
}

/// The first position of `s` that holds an entry of greatest magnitude.
pub open spec fn first_max(s: Seq<real>) -> int {
    choose|p: int| is_first_max(s, p)
}

/// At most one position is the first of greatest magnitude.
pub proof fn lemma_first_max_unique(s: Seq<real>, p: int, q: int)
    requires
        is_first_max(s, p),
        is_first_max(s, q),
    ensures
        p == q,
{
    if p < q {
        assert(abs_real(s[p]) < abs_real(s[q]));
        assert(abs_real(s[q]) <= abs_real(s[p]));
    } else if q < p {
        assert(abs_real(s[q]) < abs_real(s[p]));
        assert(abs_real(s[p]) <= abs_real(s[q]));
    }
}

/// Every prefix of a sequence that is not empty has such a position.
proof fn lemma_first_max_of_prefix(s: Seq<real>, m: nat) -> (p: int)
    requires
        0 < m <= s.len(),
    ensures
        is_first_max(s.take(m as int), p),
    decreases m,
{
    if m == 1 {
        assert(is_first_max(s.take(1), 0));
        0
    } else {
        let q = lemma_first_max_of_prefix(s, (m - 1) as nat);
        let before = s.take(m - 1);
        let now = s.take(m as int);
        assert(forall|i: int| 0 <= i < m - 1 ==> before[i] == now[i]);
        let p = if abs_real(s[m - 1]) > abs_real(s[q]) {
            m - 1
        } else {
            q
        };
        assert forall|i: int| 0 <= i < now.len() implies abs_real(#[trigger] now[i]) <= abs_real(
            now[p],
        ) by {
            if i < m - 1 {
                assert(abs_real(before[i]) <= abs_real(before[q]));
            }
        }
        assert forall|i: int| 0 <= i < p implies abs_real(#[trigger] now[i]) < abs_real(
            now[p],
        ) by {
            if p == q {
                assert(abs_real(before[i]) < abs_real(before[q]));
            } else {
                assert(abs_real(before[i]) <= abs_real(before[q]));
            }
        }
        p
    }
}

/// In a sequence that is not empty, `first_max` is the first position of
/// greatest magnitude.
pub proof fn lemma_first_max(s: Seq<real>)
    requires
        s.len() > 0,
    ensures
        is_first_max(s, first_max(s)),
{
    let p = lemma_first_max_of_prefix(s, s.len());
    assert(s.take(s.len() as int) =~= s);
    assert(is_first_max(s, p));
}

impl Grid<real> {
    /// What stands at `(i, j)` once the multipliers of a pivot are written:
    /// below row `r` of column `r`, the entry of column `k` of `work` in
    /// that row, divided by the entry of that column in row `r`.
    pub open spec fn multiplier_cell(
        self,
        work: Grid<real>,
        r: int,
        k: int,
        i: int,
        j: int,
    ) -> real {
        if j == r && i > r {
            work.at(i, k) / work.at(r, k)
        } else {
            self.at(i, j)
        }
    }

    /// The grid with the multipliers of a pivot in column `r`.
    pub open spec fn with_multipliers(self, work: Grid<real>, r: int, k: int) -> Grid<real> {
        Grid::from_fn(
            self.rows,
            self.cols,
            |i: int, j: int| self.multiplier_cell(work, r, k, i, j),
        )
    }

    /// The multipliers of a pivot, cell by cell.
    pub proof fn lemma_with_multipliers(self, work: Grid<real>, r: int, k: int)
        ensures
            self.with_multipliers(work, r, k).wf(),
            self.with_multipliers(work, r, k).rows == self.rows,
            self.with_multipliers(work, r, k).cols == self.cols,
            forall|i: int, j: int|
                self.has(i, j) ==> #[trigger] self.with_multipliers(work, r, k).at(i, j)
                    == self.multiplier_cell(work, r, k, i, j),
    {
        Grid::lemma_from_fn(
            self.rows,
            self.cols,
            |i: int, j: int| self.multiplier_cell(work, r, k, i, j),
        );
    }

    /// What stands at `(i, j)` once row `r` of `work` is written into row
    /// `r`, from column `k` on.
    pub open spec fn row_tail_cell(self, work: Grid<real>, r: int, k: int, i: int, j: int) -> real {
        if i == r && j >= k {
            work.at(r, j)
        } else {
            self.at(i, j)
        }
    }

    /// The grid with row `r` of `work` written into its own row `r`, from
    /// column `k` on.
    pub open spec fn with_row_tail(self, work: Grid<real>, r: int, k: int) -> Grid<real> {
        Grid::from_fn(self.rows, self.cols, |i: int, j: int| self.row_tail_cell(work, r, k, i, j))
    }

    /// The copy of a row's tail, cell by cell.
    pub proof fn lemma_with_row_tail(self, work: Grid<real>, r: int, k: int)
        ensures
            self.with_row_tail(work, r, k).wf(),
            self.with_row_tail(work, r, k).rows == self.rows,
            self.with_row_tail(work, r, k).cols == self.cols,
            forall|i: int, j: int|
                self.has(i, j) ==> #[trigger] self.with_row_tail(work, r, k).at(i, j)
                    == self.row_tail_cell(work, r, k, i, j),
    {
        Grid::lemma_from_fn(
            self.rows,
            self.cols,
            |i: int, j: int| self.row_tail_cell(work, r, k, i, j),
        );
    }

    /// The grid with row `r` of `upper` taken off every row from `r` down,
    /// from column `k` on, each time multiplied by that row's entry in
    /// column `r` of `lower`.
    pub open spec fn reduced(self, lower: Grid<real>, upper: Grid<real>, r: int, k: int) -> Grid<
        real,
    > {
        Grid::from_fn(
            self.rows,
            self.cols,
            |i: int, j: int|
                if i >= r && j >= k {
                    self.at(i, j) - lower.at(i, r) * upper.at(r, j)
                } else {
                    self.at(i, j)
                },
        )
    }

    /// The reduction, cell by cell.
    pub proof fn lemma_reduced(self, lower: Grid<real>, upper: Grid<real>, r: int, k: int)
        ensures
            self.reduced(lower, upper, r, k).wf(),
            self.reduced(lower, upper, r, k).rows == self.rows,
            self.reduced(lower, upper, r, k).cols == self.cols,
            forall|i: int, j: int|
                self.has(i, j) ==> #[trigger] self.reduced(lower, upper, r, k).at(i, j) == if i
                    >= r && j >= k {
                    self.at(i, j) - lower.at(i, r) * upper.at(r, j)
                } else {
                    self.at(i, j)
                },
    {
        Grid::lemma_from_fn(
            self.rows,
            self.cols,
            |i: int, j: int|
                if i >= r && j >= k {
                    self.at(i, j) - lower.at(i, r) * upper.at(r, j)
                } else {
                    self.at(i, j)
                },
        );
    }
}

/// What the factorisation has computed once some columns are done.
pub struct Elimination {
    /// The part of the matrix that is still to be reduced.
    pub work: Grid<real>,
    /// The multipliers found so far, below a unit diagonal.
    pub lower: Grid<real>,
    /// The pivot rows found so far.
    pub upper: Grid<real>,
    /// For each row, the row of the input that now stands there.
    pub perm: Seq<int>,
    /// The number of columns in which a pivot was found.
    pub rank: nat,
}

impl Elimination {
    /// The state before the first column: nothing reduced, no exchange made.
    pub open spec fn start(a: Grid<real>) -> Elimination {
        Elimination {
            work: a,
            lower: Grid::unit(a.rows, a.cols),
            upper: Grid::zero(a.rows, a.cols),
            perm: Seq::new(a.cols, |i: int| i),
            rank: 0,
        }
    }

    /// The pivot row for column `k`: the first row that holds an entry of
    /// greatest magnitude in that column of the working matrix.
    pub open spec fn pivot(self, k: int) -> int {
        first_max(self.work.column(k))
    }

    /// Rows `rank` and `p` change places: in the working matrix from column
    /// `k` on, in the multipliers before column `rank`, and in the record of
    /// the rows.
    pub open spec fn exchange(self, k: int, p: int) -> Elimination {
        let r = self.rank as int;
        Elimination {
            work: self.work.rows_exchanged(r, p, k, self.work.cols as int),
            lower: self.lower.rows_exchanged(r, p, 0, r),
            upper: self.upper,
            perm: Seq::new(self.perm.len(), |i: int| self.perm[swapped(i, r, p)]),
            rank: self.rank,
        }
    }

    /// Column `k` is eliminated with row `rank` as the pivot row: the
    /// multipliers go to column `rank` of the lower factor, the pivot row to
    /// row `rank` of the upper one, and their product comes off the working
    /// matrix.
    pub open spec fn eliminate(self, k: int) -> Elimination {
        let r = self.rank as int;
        let lower = self.lower.with_multipliers(self.work, r, k);
        let upper = self.upper.with_row_tail(self.work, r, k);
        Elimination {
            work: self.work.reduced(lower, upper, r, k),
            lower,
            upper,
            perm: self.perm,
            rank: self.rank + 1,
        }
    }

    /// Column `k` is dealt with. Where the pivot entry is zero the whole
    /// column is, and nothing changes; else the pivot row comes up to row
    /// `rank` and the column is eliminated.
    pub open spec fn step(self, k: int) -> Elimination {
        let p = self.pivot(k);
        if self.work.at(p, k) == 0real {
            self
        } else {
            self.exchange(k, p).eliminate(k)
        }
    }

    /// The state once the first `k` columns of `a` are dealt with.
    pub open spec fn after(a: Grid<real>, k: nat) -> Elimination
        decreases k,
    {
        if k == 0 {
            Elimination::start(a)
        } else {
            Elimination::after(a, (k - 1) as nat).step(k - 1)
        }
    }
}

} // verus!
