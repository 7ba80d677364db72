//! LU factorisation with partial pivoting.

use crate::elimination::{is_first_max, lemma_first_max, lemma_first_max_unique, Elimination};
use crate::factorisation::{
    factors, is_permutation_grid, is_unit_lower, is_upper, permutation_cell, permutation_grid,
};
use crate::grid::swapped;
use crate::matrix::Matrix;
use crate::scalar::{abs_real, Scalar};
use crate::soundness::{
    lemma_lower_unit_triangular, lemma_multipliers_bounded, lemma_permutation,
    lemma_permutation_grid, lemma_reconstruction, lemma_upper_triangular,
};
use vstd::prelude::*;

verus! {

/// The rows that a record of exchanges names, as numbers.
pub open spec fn row_numbers(perm: Seq<usize>) -> Seq<int> {
    perm.map_values(|x: usize| x as int)
}

impl<T: Scalar> Matrix<T> {
    /// The pivot row for column `k`: the first row that holds an entry of
    /// greatest magnitude in that column.
    pub fn pivot_row(&self, k: usize) -> (p: usize)
        requires
            self.wf(),
            self.row > 0,
            k < self.col,
        ensures
            is_first_max(self.values().column(k as int), p as int),
    {
        let ghost col = self.values().column(k as int);
        let mut max_idx: usize = 0;
        let mut selected = T::zero();
        let mut i: usize = 0;
        while i < self.row
            invariant
                self.wf(),
                self.row > 0,
                k < self.col,
                col == self.values().column(k as int),
                i <= self.row,
                i == 0 ==> max_idx == 0 && selected.value() == 0real,
                i > 0 ==> max_idx < i && selected.value() == abs_real(col[max_idx as int]),
                forall|t: int| 0 <= t < i ==> abs_real(#[trigger] col[t]) <= selected.value(),
                forall|t: int|
                    0 <= t < max_idx ==> abs_real(#[trigger] col[t]) < abs_real(
                        col[max_idx as int],
                    ),
            decreases self.row - i,
        {
            let buf = self.peek(i, k).abs();
            assert(buf.value() == abs_real(col[i as int]));
            if buf.gt(&selected) {
                max_idx = i;
                selected = buf;
            }
            i = i + 1;
        }
        max_idx
    }

    /// Exchanges rows `a` and `b` in the columns from `from` up to, not
    /// including, `to`.
    pub fn swap_rows(&mut self, a: usize, b: usize, from: usize, to: usize)
        requires
            old(self).wf(),
            a < old(self).row,
            b < old(self).row,
            from <= to <= old(self).col,
        ensures
            final(self).wf(),
            final(self).row == old(self).row,
            final(self).col == old(self).col,
            final(self).values() == old(self).values().rows_exchanged(
                a as int,
                b as int,
                from as int,
                to as int,
            ),
    {
        let ghost before = self.values();
        let mut j: usize = from;
        while j < to
            invariant
                self.wf(),
                self.row == old(self).row,
                self.col == old(self).col,
                before == old(self).values(),
                before.wf(),
                a < self.row,
                b < self.row,
                from <= j <= to <= self.col,
                forall|i: int, c: int|
                    before.has(i, c) ==> #[trigger] self.values().at(i, c) == if from <= c < j {
                        before.at(swapped(i, a as int, b as int), c)
                    } else {
                        before.at(i, c)
                    },
            decreases to - j,
        {
            let x = self.peek(a, j).duplicate();
            let y = self.peek(b, j).duplicate();
            self.put(a, j, y);
            self.put(b, j, x);
            j = j + 1;
        }
        proof {
            let target = before.rows_exchanged(a as int, b as int, from as int, to as int);
            before.lemma_rows_exchanged(a as int, b as int, from as int, to as int);
            self.values().lemma_equal_by_cells(target);
        }
    }

    /// Writes the multipliers of a pivot into column `r`: below row `r`, the
    /// entry of column `k` of `work` in that row, divided by the pivot entry
    /// `work(r, k)`.
    pub fn fill_multipliers(&mut self, work: &Matrix<T>, r: usize, k: usize)
        requires
            old(self).wf(),
            work.wf(),
            old(self).row == work.row,
            r < old(self).row,
            r < old(self).col,
            k < work.col,
            work.values().at(r as int, k as int) != 0real,
        ensures
            final(self).wf(),
            final(self).row == old(self).row,
            final(self).col == old(self).col,
            final(self).values() == old(self).values().with_multipliers(
                work.values(),
                r as int,
                k as int,
            ),
    {
        let ghost before = self.values();
        let mut i: usize = r + 1;
        while i < self.row
            invariant
                self.wf(),
                work.wf(),
                self.row == old(self).row,
                self.col == old(self).col,
                self.row == work.row,
                before == old(self).values(),
                before.wf(),
                r < self.row,
                r < self.col,
                k < work.col,
                work.values().at(r as int, k as int) != 0real,
                r < i <= self.row,
                forall|i2: int, j2: int|
                    before.has(i2, j2) ==> #[trigger] self.values().at(i2, j2) == if i2 < i {
                        before.multiplier_cell(work.values(), r as int, k as int, i2, j2)
                    } else {
                        before.at(i2, j2)
                    },
            decreases self.row - i,
        {
            let m = work.peek(i, k).div(work.peek(r, k));
            self.put(i, r, m);
            i = i + 1;
        }
        proof {
            let target = before.with_multipliers(work.values(), r as int, k as int);
            before.lemma_with_multipliers(work.values(), r as int, k as int);
            self.values().lemma_equal_by_cells(target);
        }
    }

    /// Writes row `r` of `work` into row `r`, from column `k` on.
    pub fn copy_row_tail(&mut self, work: &Matrix<T>, r: usize, k: usize)
        requires
            old(self).wf(),
            work.wf(),
            old(self).col == work.col,
            r < old(self).row,
            r < work.row,
            k <= work.col,
        ensures
            final(self).wf(),
            final(self).row == old(self).row,
            final(self).col == old(self).col,
            final(self).values() == old(self).values().with_row_tail(
                work.values(),
                r as int,
                k as int,
            ),
    {
        let ghost before = self.values();
        let mut j: usize = k;
        while j < self.col
            invariant
                self.wf(),
                work.wf(),
                self.row == old(self).row,
                self.col == old(self).col,
                self.col == work.col,
                before == old(self).values(),
                before.wf(),
                r < self.row,
                r < work.row,
                k <= j <= self.col,
                forall|i2: int, j2: int|
                    before.has(i2, j2) ==> #[trigger] self.values().at(i2, j2) == if j2 < j {
                        before.row_tail_cell(work.values(), r as int, k as int, i2, j2)
                    } else {
                        before.at(i2, j2)
                    },
            decreases self.col - j,
        {
            let x = work.peek(r, j).duplicate();
            self.put(r, j, x);
            j = j + 1;
        }
        proof {
            let target = before.with_row_tail(work.values(), r as int, k as int);
            before.lemma_with_row_tail(work.values(), r as int, k as int);
            self.values().lemma_equal_by_cells(target);
        }
    }

    /// Takes row `r` of `upper` off every row from `r` down, from column `k`
    /// on, each time multiplied by that row's entry in column `r` of
    /// `lower`.
    pub fn reduce(&mut self, lower: &Matrix<T>, upper: &Matrix<T>, r: usize, k: usize)
        requires
            old(self).wf(),
            lower.wf(),
            upper.wf(),
            lower.row == old(self).row,
            upper.col == old(self).col,
            r < lower.col,
            r < upper.row,
            r <= old(self).row,
            k <= old(self).col,
        ensures
            final(self).wf(),
            final(self).row == old(self).row,
            final(self).col == old(self).col,
            final(self).values() == old(self).values().reduced(
                lower.values(),
                upper.values(),
                r as int,
                k as int,
            ),
    {
        let ghost before = self.values();
        let ghost lo = lower.values();
        let ghost up = upper.values();
        let mut i: usize = r;
        while i < self.row
            invariant
                self.wf(),
                lower.wf(),
                upper.wf(),
                self.row == old(self).row,
                self.col == old(self).col,
                lower.row == self.row,
                upper.col == self.col,
                before == old(self).values(),
                before.wf(),
                lo == lower.values(),
                up == upper.values(),
                r < lower.col,
                r < upper.row,
                k <= self.col,
                r <= i <= self.row,
                forall|i2: int, j2: int|
                    before.has(i2, j2) ==> #[trigger] self.values().at(i2, j2) == if r <= i2 < i
                        && j2 >= k {
                        before.at(i2, j2) - lo.at(i2, r as int) * up.at(r as int, j2)
                    } else {
                        before.at(i2, j2)
                    },
            decreases self.row - i,
        {
            let mut j: usize = k;
            while j < self.col
                invariant
                    self.wf(),
                    lower.wf(),
                    upper.wf(),
                    self.row == old(self).row,
                    self.col == old(self).col,
                    lower.row == self.row,
                    upper.col == self.col,
                    before == old(self).values(),
                    before.wf(),
                    lo == lower.values(),
                    up == upper.values(),
                    r < lower.col,
                    r < upper.row,
                    r <= i < self.row,
                    k <= j <= self.col,
                    forall|i2: int, j2: int|
                        before.has(i2, j2) ==> #[trigger] self.values().at(i2, j2) == if j2 >= k
                            && (r <= i2 < i || (i2 == i && j2 < j)) {
                            before.at(i2, j2) - lo.at(i2, r as int) * up.at(r as int, j2)
                        } else {
                            before.at(i2, j2)
                        },
                decreases self.col - j,
            {
                let term = lower.peek(i, r).mul(upper.peek(r, j));
                let x = self.peek(i, j).sub(&term);
                self.put(i, j, x);
                j = j + 1;
            }
            i = i + 1;
        }
        proof {
            let target = before.reduced(lo, up, r as int, k as int);
            before.lemma_reduced(lo, up, r as int, k as int);
            self.values().lemma_equal_by_cells(target);
        }
    }
}


impl<T: Scalar> Matrix<T> {
    /// The matrix of a record of exchanges: row `i` holds one in column
    /// `perm[i]`, and zero elsewhere.
    pub fn permutation_matrix(perm: &Vec<usize>) -> (m: Self)
        requires
            perm.len() * perm.len() <= usize::MAX,
            forall|i: int| 0 <= i < perm.len() ==> #[trigger] perm[i] < perm.len(),
        ensures
            m.wf(),
            m.row == perm.len(),
            m.col == perm.len(),
            m.values() == permutation_grid(row_numbers(perm@)),
    {
        let n = perm.len();
        let ghost rows = row_numbers(perm@);
        let mut inner: Vec<T> = Vec::new();
        let mut t: usize = 0;
        while t < n * n
            invariant
                n == perm.len(),
                n * n <= usize::MAX,
                t <= n * n,
                inner.len() == t,
                forall|u: int| 0 <= u < t ==> #[trigger] inner[u].value() == 0real,
            decreases n * n - t,
        {
            inner.push(T::zero());
            t = t + 1;
        }
        let mut m = Matrix { inner, row: n, col: n };
        proof {
            m.lemma_layout();
            assert forall|i: int, j: int| m.values().has(i, j) implies #[trigger] m.values().at(
                i,
                j,
            ) == 0real by {
                assert(m@.has(i, j));
            }
        }
        let mut i: usize = 0;
        while i < n
            invariant
                n == perm.len(),
                rows == row_numbers(perm@),
                forall|i: int| 0 <= i < perm.len() ==> #[trigger] perm[i] < perm.len(),
                m.wf(),
                m.row == n,
                m.col == n,
                i <= n,
                forall|i2: int, j2: int|
                    m.values().has(i2, j2) ==> #[trigger] m.values().at(i2, j2) == if i2 < i {
                        permutation_cell(rows, i2, j2)
                    } else {
                        0real
                    },
            decreases n - i,
        {
            m.put(i, perm[i], T::one());
            i = i + 1;
        }
        proof {
            lemma_permutation_grid(rows);
            m.values().lemma_equal_by_cells(permutation_grid(rows));
        }
        m
    }

    /// The factors `(P, L, U)` of a square matrix, by Gaussian elimination
    /// with partial pivoting: `P` is a permutation matrix, `L` is lower
    /// triangular with a unit diagonal and multipliers of magnitude at most
    /// one, `U` is upper triangular, and `P * A == L * U`.
    ///
    /// The columns are taken from left to right. In each, the pivot is the
    /// first entry of greatest magnitude; a column whose pivot is zero is
    /// passed over.
    pub fn lu(self) -> (f: (Matrix<T>, Matrix<T>, Matrix<T>))
        requires
            self.wf(),
            self.row == self.col,
        ensures
            f.0.wf() && f.0.row == self.row && f.0.col == self.col,
            f.1.wf() && f.1.row == self.row && f.1.col == self.col,
            f.2.wf() && f.2.row == self.row && f.2.col == self.col,
            f.0.values() == factors(self.values()).p,
            f.1.values() == factors(self.values()).l,
            f.2.values() == factors(self.values()).u,
            f.0.values().times(self.values()) == f.1.values().times(f.2.values()),
            is_permutation_grid(f.0.values()),
            is_unit_lower(f.1.values()),
            is_upper(f.2.values()),
            forall|i: int, j: int|
                f.1.values().has(i, j) ==> abs_real(#[trigger] f.1.values().at(i, j)) <= 1real,
    {
        let ghost a = self.values();
        let n = self.col;
        proof {
            self.lemma_layout();
        }
        let mut work = self;
        let mut lower = work.identity();
        let zero = T::zero();
        let mut upper = work.scalar(&zero);
        let mut perm: Vec<usize> = Vec::new();
        let mut i: usize = 0;
        while i < n
            invariant
                i <= n,
                perm.len() == i,
                forall|t: int| 0 <= t < i ==> #[trigger] perm[t] == t,
            decreases n - i,
        {
            perm.push(i);
            i = i + 1;
        }
        let mut rank: usize = 0;
        proof {
            let s = Elimination::start(a);
            assert(upper.values().cells =~= s.upper.cells) by {
                assert forall|t: int| 0 <= t < a.cells.len() implies #[trigger] a.cells[t] * 0real
                    == 0real by {}
            }
            assert(row_numbers(perm@) =~= s.perm);
        }
        let mut k: usize = 0;
        while k < n
            invariant
                a.wf(),
                a.rows == n,
                a.cols == n,
                k <= n,
                work.wf() && work.row == n && work.col == n,
                lower.wf() && lower.row == n && lower.col == n,
                upper.wf() && upper.row == n && upper.col == n,
                perm.len() == n,
                work.values() == Elimination::after(a, k as nat).work,
                lower.values() == Elimination::after(a, k as nat).lower,
                upper.values() == Elimination::after(a, k as nat).upper,
                row_numbers(perm@) == Elimination::after(a, k as nat).perm,
                rank == Elimination::after(a, k as nat).rank,
            decreases n - k,
        {
            let ghost s = Elimination::after(a, k as nat);
            proof {
                Elimination::lemma_after_inv(a, k as nat);
            }
            let piv = work.pivot_row(k);
            proof {
                lemma_first_max(s.work.column(k as int));
                lemma_first_max_unique(s.work.column(k as int), piv as int, s.pivot(k as int));
            }
            if !work.peek(piv, k).is_zero() {
                proof {
                    s.lemma_pivot_below_rank(a, k as int, piv as int);
                    s.work.lemma_rows_exchanged(rank as int, piv as int, k as int, n as int);
                }
                work.swap_rows(rank, piv, k, n);
                lower.swap_rows(rank, piv, 0, rank);
                let x = perm[piv];
                let y = perm[rank];
                perm.set(piv, y);
                perm.set(rank, x);
                proof {
                    let e = s.exchange(k as int, piv as int);
                    assert(row_numbers(perm@) =~= e.perm);
                }
                lower.fill_multipliers(&work, rank, k);
                upper.copy_row_tail(&work, rank, k);
                work.reduce(&lower, &upper, rank, k);
                rank = rank + 1;
            }
            k = k + 1;
        }
        proof {
            let s = Elimination::after(a, n as nat);
            Elimination::lemma_after_inv(a, n as nat);
            assert forall|t: int| 0 <= t < perm.len() implies #[trigger] perm[t] < perm.len() by {
                assert(row_numbers(perm@)[t] == perm[t]);
            }
            lemma_reconstruction(a);
            lemma_permutation(a);
            lemma_lower_unit_triangular(a);
            lemma_upper_triangular(a);
            lemma_multipliers_bounded(a);
        }
        let p = Matrix::permutation_matrix(&perm);
        (p, lower, upper)
    }

    /// The factors of a matrix that the caller keeps: a copy is factorised.
    pub fn lu_ref(&self) -> (f: (Matrix<T>, Matrix<T>, Matrix<T>))
        requires
            self.wf(),
            self.row == self.col,
        ensures
            f.0.wf() && f.0.row == self.row && f.0.col == self.col,
            f.1.wf() && f.1.row == self.row && f.1.col == self.col,
            f.2.wf() && f.2.row == self.row && f.2.col == self.col,
            f.0.values() == factors(self.values()).p,
            f.1.values() == factors(self.values()).l,
            f.2.values() == factors(self.values()).u,
            f.0.values().times(self.values()) == f.1.values().times(f.2.values()),
            is_permutation_grid(f.0.values()),
            is_unit_lower(f.1.values()),
            is_upper(f.2.values()),
            forall|i: int, j: int|
                f.1.values().has(i, j) ==> abs_real(#[trigger] f.1.values().at(i, j)) <= 1real,
    {
        self.duplicate().lu()
    }
}

} // verus!
