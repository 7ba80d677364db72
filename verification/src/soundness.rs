//! What holds of the factorisation after every column, and why.

use crate::arithmetic::{lemma_quotient_bound, lemma_quotient_times};
use crate::elimination::{is_first_max, lemma_first_max, Elimination};
use crate::factorisation::{
    column_has_single_one, column_marks, factors, is_permutation, is_permutation_grid,
    is_unit_lower, is_upper, occurs, permutation_cell, permutation_grid, row_has_single_one,
    row_marks,
};
use crate::grid::{swapped, Grid};
use crate::scalar::abs_real;
use vstd::prelude::*;

verus! {

impl Elimination {
    /// The three grids have the shape `n` by `n`, and `perm` has `n` entries.
    pub open spec fn shaped(self, n: nat) -> bool {
        &&& self.work.wf() && self.work.rows == n && self.work.cols == n
        &&& self.lower.wf() && self.lower.rows == n && self.lower.cols == n
        &&& self.upper.wf() && self.upper.rows == n && self.upper.cols == n
        &&& self.perm.len() == n
        &&& self.rank <= n
    }

    /// The working matrix is zero in its first `k` columns and in its first
    /// `rank` rows.
    pub open spec fn cleared(self, k: int) -> bool {
        forall|i: int, j: int|
            self.work.has(i, j) && (j < k || i < self.rank) ==> #[trigger] self.work.at(i, j)
                == 0real
    }

    /// The multipliers: one on the diagonal, zero above it, nothing yet from
    /// column `rank` on, and no entry of magnitude above one.
    pub open spec fn lower_formed(self) -> bool {
        &&& forall|i: int, j: int|
            self.lower.has(i, j) && i == j ==> #[trigger] self.lower.at(i, j) == 1real
        &&& forall|i: int, j: int|
            self.lower.has(i, j) && i != j && (i < j || j >= self.rank)
                ==> #[trigger] self.lower.at(i, j) == 0real
        &&& forall|i: int, j: int|
            self.lower.has(i, j) ==> abs_real(#[trigger] self.lower.at(i, j)) <= 1real
    }

    /// The pivot rows: zero below the diagonal, and nothing yet from row
    /// `rank` on.
    pub open spec fn upper_formed(self) -> bool {
        forall|i: int, j: int|
            self.upper.has(i, j) && (j < i || i >= self.rank) ==> #[trigger] self.upper.at(i, j)
                == 0real
    }

    /// Row `i` of the input, as the exchanges have placed it, is the sum of
    /// what the factors found so far make of it and what is still to be
    /// reduced.
    pub open spec fn accounts_for(self, a: Grid<real>) -> bool {
        forall|i: int, j: int|
            self.work.has(i, j) ==> a.at(self.perm[i], j) == self.lower.dot(
                i,
                self.upper,
                j,
                self.rank,
            ) + #[trigger] self.work.at(i, j)
    }

    /// What holds of the state once the first `k` columns of `a` are dealt
    /// with.
    pub open spec fn inv(self, a: Grid<real>, k: int) -> bool {
        &&& self.shaped(a.rows)
        &&& self.rank <= k
        &&& is_permutation(self.perm, a.rows)
        &&& self.cleared(k)
        &&& self.lower_formed()
        &&& self.upper_formed()
        &&& self.accounts_for(a)
    }

    /// The state after a pivoting step, cell by cell, in terms of the state
    /// before it.
    pub open spec fn pivoted_cells(self, k: int, p: int, next: Elimination) -> bool {
        let r = self.rank as int;
        let d = self.work.at(p, k);
        &&& next.shaped(self.work.rows)
        &&& next.rank == self.rank + 1
        &&& forall|i: int|
            0 <= i < self.perm.len() ==> #[trigger] next.perm[i] == self.perm[swapped(i, r, p)]
        &&& forall|i: int, j: int|
            next.lower.has(i, j) ==> #[trigger] next.lower.at(i, j) == if j == r && i > r {
                self.work.at(swapped(i, r, p), k) / d
            } else if j < r {
                self.lower.at(swapped(i, r, p), j)
            } else {
                self.lower.at(i, j)
            }
        &&& forall|i: int, j: int|
            next.upper.has(i, j) ==> #[trigger] next.upper.at(i, j) == if i == r && j >= k {
                self.work.at(p, j)
            } else {
                self.upper.at(i, j)
            }
        &&& forall|i: int, j: int|
            next.work.has(i, j) ==> #[trigger] next.work.at(i, j) == if i >= r && j >= k {
                self.work.at(swapped(i, r, p), j) - next.lower.at(i, r) * next.upper.at(r, j)
            } else {
                self.work.at(swapped(i, r, p), j)
            }
    }

    /// The exchange of rows `rank` and `p`, cell by cell.
    pub proof fn lemma_exchange(self, k: int, p: int)
        requires
            self.shaped(self.work.rows),
            self.rank <= p < self.work.rows,
        ensures
            ({
                let e = self.exchange(k, p);
                let r = self.rank as int;
                &&& e.shaped(self.work.rows)
                &&& e.rank == self.rank
                &&& e.upper == self.upper
                &&& forall|i: int|
                    0 <= i < self.perm.len() ==> #[trigger] e.perm[i] == self.perm[swapped(i, r, p)]
                &&& forall|i: int, j: int|
                    e.work.has(i, j) ==> #[trigger] e.work.at(i, j) == if j >= k {
                        self.work.at(swapped(i, r, p), j)
                    } else {
                        self.work.at(i, j)
                    }
                &&& forall|i: int, j: int|
                    e.lower.has(i, j) ==> #[trigger] e.lower.at(i, j) == if j < r {
                        self.lower.at(swapped(i, r, p), j)
                    } else {
                        self.lower.at(i, j)
                    }
            }),
    {
        let r = self.rank as int;
        self.work.lemma_rows_exchanged(r, p, k, self.work.cols as int);
        self.lower.lemma_rows_exchanged(r, p, 0, r);
    }

    /// The elimination of column `k`, cell by cell.
    pub proof fn lemma_eliminate(self, k: int)
        requires
            self.shaped(self.work.rows),
            self.rank < self.work.rows,
        ensures
            ({
                let f = self.eliminate(k);
                let r = self.rank as int;
                &&& f.shaped(self.work.rows)
                &&& f.rank == self.rank + 1
                &&& f.perm == self.perm
                &&& forall|i: int, j: int|
                    f.lower.has(i, j) ==> #[trigger] f.lower.at(i, j) == if j == r && i > r {
                        self.work.at(i, k) / self.work.at(r, k)
                    } else {
                        self.lower.at(i, j)
                    }
                &&& forall|i: int, j: int|
                    f.upper.has(i, j) ==> #[trigger] f.upper.at(i, j) == if i == r && j >= k {
                        self.work.at(r, j)
                    } else {
                        self.upper.at(i, j)
                    }
                &&& forall|i: int, j: int|
                    f.work.has(i, j) ==> #[trigger] f.work.at(i, j) == if i >= r && j >= k {
                        self.work.at(i, j) - f.lower.at(i, r) * f.upper.at(r, j)
                    } else {
                        self.work.at(i, j)
                    }
            }),
    {
        let r = self.rank as int;
        let lower = self.lower.with_multipliers(self.work, r, k);
        let upper = self.upper.with_row_tail(self.work, r, k);
        self.lower.lemma_with_multipliers(self.work, r, k);
        self.upper.lemma_with_row_tail(self.work, r, k);
        self.work.lemma_reduced(lower, upper, r, k);
    }

    /// A pivoting step, cell by cell: the exchange followed by the
    /// elimination.
    pub proof fn lemma_pivoted_cells(self, k: int, p: int)
        requires
            self.shaped(self.work.rows),
            self.cleared(k),
            self.rank <= p < self.work.rows,
            self.rank <= k < self.work.rows,
        ensures
            self.pivoted_cells(k, p, self.exchange(k, p).eliminate(k)),
    {
        let r = self.rank as int;
        let e = self.exchange(k, p);
        self.lemma_exchange(k, p);
        e.lemma_eliminate(k);
        let f = e.eliminate(k);
        assert forall|i: int, j: int| e.work.has(i, j) implies #[trigger] e.work.at(i, j)
            == self.work.at(swapped(i, r, p), j) by {
            if j < k {
                assert(self.work.has(i, j));
                assert(self.work.has(swapped(i, r, p), j));
            }
        }
        assert(e.work.has(r, k));
        assert forall|i: int, j: int| f.lower.has(i, j) implies #[trigger] f.lower.at(i, j) == if j
            == r && i > r {
            self.work.at(swapped(i, r, p), k) / self.work.at(p, k)
        } else if j < r {
            self.lower.at(swapped(i, r, p), j)
        } else {
            self.lower.at(i, j)
        } by {
            assert(e.lower.has(i, j));
            assert(e.work.has(i, k));
        }
        assert forall|i: int, j: int| f.upper.has(i, j) implies #[trigger] f.upper.at(i, j) == if i
            == r && j >= k {
            self.work.at(p, j)
        } else {
            self.upper.at(i, j)
        } by {
            assert(e.work.has(r, j));
        }
        assert forall|i: int, j: int| f.work.has(i, j) implies #[trigger] f.work.at(i, j) == if i
            >= r && j >= k {
            self.work.at(swapped(i, r, p), j) - f.lower.at(i, r) * f.upper.at(r, j)
        } else {
            self.work.at(swapped(i, r, p), j)
        } by {
            assert(e.work.has(i, j));
        }
    }
}

impl Elimination {
    /// What a pivoting step starts from: the state holds the invariant, and
    /// `p` is the pivot row of column `k`, with an entry other than zero.
    pub open spec fn pivots_at(self, a: Grid<real>, k: int, p: int) -> bool {
        &&& self.inv(a, k)
        &&& 0 <= k < a.rows
        &&& is_first_max(self.work.column(k), p)
        &&& self.work.at(p, k) != 0real
    }

    /// A pivot entry other than zero stands at row `rank` or below.
    pub proof fn lemma_pivot_below_rank(self, a: Grid<real>, k: int, p: int)
        requires
            self.pivots_at(a, k, p),
        ensures
            self.rank <= p < a.rows,
            self.rank < a.rows,
            forall|i: int|
                0 <= i < a.rows ==> abs_real(#[trigger] self.work.at(i, k)) <= abs_real(
                    self.work.at(p, k),
                ),
    {
        let col = self.work.column(k);
        assert(col[p] == self.work.at(p, k));
        if p < self.rank {
            assert(self.work.has(p, k));
        }
        assert forall|i: int| 0 <= i < a.rows implies abs_real(#[trigger] self.work.at(i, k))
            <= abs_real(self.work.at(p, k)) by {
            assert(col[i] == self.work.at(i, k));
        }
    }

    proof fn lemma_pivot_cleared(self, a: Grid<real>, k: int, p: int, next: Elimination)
        requires
            self.pivots_at(a, k, p),
            self.pivoted_cells(k, p, next),
        ensures
            next.cleared(k + 1),
    {
        self.lemma_pivot_below_rank(a, k, p);
        let r = self.rank as int;
        let d = self.work.at(p, k);
        assert(next.lower.has(r, r));
        assert(self.lower.has(r, r));
        assert(next.lower.at(r, r) == 1real);
        assert forall|i: int, j: int|
            next.work.has(i, j) && (j < k + 1 || i < next.rank) implies #[trigger] next.work.at(
            i,
            j,
        ) == 0real by {
            let si = swapped(i, r, p);
            assert(self.work.has(si, j));
            assert(next.upper.has(r, j));
            assert(next.lower.has(i, r));
            if i < r {
                assert(si == i);
            } else if j < k {
            } else if i == r {
                assert(next.upper.at(r, j) == self.work.at(p, j));
                assert(1real * self.work.at(p, j) == self.work.at(p, j));
            } else {
                assert(j == k);
                assert(next.upper.at(r, k) == d);
                assert(next.lower.at(i, r) == self.work.at(si, k) / d);
                lemma_quotient_times(self.work.at(si, k), d);
            }
        }
    }

    proof fn lemma_pivot_lower(self, a: Grid<real>, k: int, p: int, next: Elimination)
        requires
            self.pivots_at(a, k, p),
            self.pivoted_cells(k, p, next),
        ensures
            next.lower_formed(),
    {
        self.lemma_pivot_below_rank(a, k, p);
        let r = self.rank as int;
        let d = self.work.at(p, k);
        assert forall|i: int, j: int|
            next.lower.has(i, j) && i == j implies #[trigger] next.lower.at(i, j) == 1real by {
            assert(self.lower.has(i, j));
            if j < r {
                assert(swapped(i, r, p) == i);
            }
        }
        assert forall|i: int, j: int|
            next.lower.has(i, j) && i != j && (i < j || j >= next.rank)
                implies #[trigger] next.lower.at(i, j) == 0real by {
            assert(self.lower.has(i, j));
            if j < r {
                assert(swapped(i, r, p) == i);
            }
        }
        assert forall|i: int, j: int| next.lower.has(i, j) implies abs_real(
            #[trigger] next.lower.at(i, j),
        ) <= 1real by {
            let si = swapped(i, r, p);
            assert(self.lower.has(i, j));
            assert(self.lower.has(si, j));
            if j == r && i > r {
                assert(abs_real(self.work.at(si, k)) <= abs_real(d));
                lemma_quotient_bound(self.work.at(si, k), d);
            }
        }
    }

    proof fn lemma_pivot_upper(self, a: Grid<real>, k: int, p: int, next: Elimination)
        requires
            self.pivots_at(a, k, p),
            self.pivoted_cells(k, p, next),
        ensures
            next.upper_formed(),
    {
        self.lemma_pivot_below_rank(a, k, p);
        assert forall|i: int, j: int|
            next.upper.has(i, j) && (j < i || i >= next.rank) implies #[trigger] next.upper.at(
            i,
            j,
        ) == 0real by {
            assert(self.upper.has(i, j));
        }
    }

    proof fn lemma_pivot_perm(self, a: Grid<real>, k: int, p: int, next: Elimination)
        requires
            self.pivots_at(a, k, p),
            self.pivoted_cells(k, p, next),
        ensures
            is_permutation(next.perm, a.rows),
    {
        self.lemma_pivot_below_rank(a, k, p);
        let r = self.rank as int;
        let n = a.rows;
        assert forall|i: int| 0 <= i < n implies 0 <= #[trigger] next.perm[i] < n by {
            assert(0 <= self.perm[swapped(i, r, p)] < n);
        }
        assert forall|i: int, j: int| 0 <= i < n && 0 <= j < n && i != j implies next.perm[i]
            != next.perm[j] by {
            assert(next.perm[i] == self.perm[swapped(i, r, p)]);
            assert(next.perm[j] == self.perm[swapped(j, r, p)]);
        }
        assert forall|v: int| 0 <= v < n implies #[trigger] occurs(next.perm, v) by {
            assert(occurs(self.perm, v));
            let i = choose|i: int| 0 <= i < self.perm.len() && self.perm[i] == v;
            let si = swapped(i, r, p);
            assert(swapped(si, r, p) == i);
            assert(next.perm[si] == v);
        }
    }

    proof fn lemma_pivot_accounts(self, a: Grid<real>, k: int, p: int, next: Elimination)
        requires
            self.pivots_at(a, k, p),
            self.pivoted_cells(k, p, next),
        ensures
            next.accounts_for(a),
    {
        self.lemma_pivot_below_rank(a, k, p);
        let r = self.rank as int;
        assert forall|i: int, j: int| next.work.has(i, j) implies a.at(next.perm[i], j)
            == next.lower.dot(i, next.upper, j, next.rank) + #[trigger] next.work.at(i, j) by {
            let si = swapped(i, r, p);
            assert(self.work.has(si, j));
            assert(a.at(self.perm[si], j) == self.lower.dot(si, self.upper, j, self.rank)
                + self.work.at(si, j));
            assert(next.perm[i] == self.perm[si]);
            assert forall|t: int| 0 <= t < r implies #[trigger] next.lower.at(i, t)
                == self.lower.at(si, t) by {
                assert(next.lower.has(i, t));
            }
            assert forall|t: int| 0 <= t < r implies #[trigger] next.upper.at(t, j)
                == self.upper.at(t, j) by {
                assert(next.upper.has(t, j));
            }
            next.lower.lemma_dot_congruent(i, next.upper, j, self.lower, si, self.upper, self.rank);
            assert(next.lower.dot(i, next.upper, j, next.rank) == next.lower.dot(
                i,
                next.upper,
                j,
                self.rank,
            ) + next.lower.at(i, r) * next.upper.at(r, j));
            assert(next.lower.has(i, r));
            assert(next.upper.has(r, j));
            assert(self.lower.has(i, r));
            assert(self.upper.has(r, j));
            let x = next.lower.at(i, r);
            let y = next.upper.at(r, j);
            if i >= r && j >= k {
            } else if i >= r {
                assert(y == 0real);
                assert(x * 0real == 0real);
            } else {
                assert(x == 0real);
                assert(0real * y == 0real);
            }
        }
    }

    /// The invariant passes from one column to the next.
    pub proof fn lemma_step_inv(self, a: Grid<real>, k: int)
        requires
            self.inv(a, k),
            0 <= k < a.rows,
        ensures
            self.step(k).inv(a, k + 1),
    {
        let col = self.work.column(k);
        lemma_first_max(col);
        let p = self.pivot(k);
        assert(self.work.has(p, k));
        if self.work.at(p, k) == 0real {
            assert forall|i: int, j: int|
                self.work.has(i, j) && (j < k + 1 || i < self.rank)
                    implies #[trigger] self.work.at(i, j) == 0real by {
                if j == k {
                    assert(col[i] == self.work.at(i, k));
                    assert(col[p] == self.work.at(p, k));
                    assert(abs_real(col[i]) <= abs_real(col[p]));
                }
            }
        } else {
            self.lemma_pivot_below_rank(a, k, p);
            self.lemma_pivoted_cells(k, p);
            let next = self.exchange(k, p).eliminate(k);
            self.lemma_pivot_cleared(a, k, p, next);
            self.lemma_pivot_lower(a, k, p, next);
            self.lemma_pivot_upper(a, k, p, next);
            self.lemma_pivot_perm(a, k, p, next);
            self.lemma_pivot_accounts(a, k, p, next);
        }
    }

    /// The invariant holds before the first column.
    pub proof fn lemma_start_inv(a: Grid<real>)
        requires
            a.wf(),
            a.is_square(),
        ensures
            Elimination::start(a).inv(a, 0),
    {
        let s = Elimination::start(a);
        let n = a.rows;
        Grid::lemma_from_fn(
            n,
            n,
            |i: int, j: int|
                if i == j {
                    1real
                } else {
                    0real
                },
        );
        Grid::lemma_from_fn(n, n, |i: int, j: int| 0real);
        assert forall|v: int| 0 <= v < n implies #[trigger] occurs(s.perm, v) by {
            assert(s.perm[v] == v);
        }
    }

    /// The invariant holds once the first `k` columns are dealt with.
    pub proof fn lemma_after_inv(a: Grid<real>, k: nat)
        requires
            a.wf(),
            a.is_square(),
            k <= a.rows,
        ensures
            Elimination::after(a, k).inv(a, k as int),
        decreases k,
    {
        if k == 0 {
            Elimination::lemma_start_inv(a);
        } else {
            Elimination::lemma_after_inv(a, (k - 1) as nat);
            Elimination::after(a, (k - 1) as nat).lemma_step_inv(a, k - 1);
        }
    }
}


/// The matrix of a permutation, cell by cell.
pub proof fn lemma_permutation_grid(perm: Seq<int>)
    ensures
        permutation_grid(perm).wf(),
        permutation_grid(perm).rows == perm.len(),
        permutation_grid(perm).cols == perm.len(),
        forall|i: int, j: int|
            0 <= i < perm.len() && 0 <= j < perm.len() ==> #[trigger] permutation_grid(perm).at(
                i,
                j,
            ) == permutation_cell(perm, i, j),
{
    Grid::lemma_from_fn(perm.len(), perm.len(), |i: int, j: int| permutation_cell(perm, i, j));
}

/// The matrix of a permutation holds a single one in every row and in every
/// column, and zero elsewhere.
pub proof fn lemma_permutation_grid_marks(perm: Seq<int>)
    requires
        is_permutation(perm, perm.len()),
    ensures
        is_permutation_grid(permutation_grid(perm)),
{
    let g = permutation_grid(perm);
    lemma_permutation_grid(perm);
    assert forall|i: int| 0 <= i < g.rows implies #[trigger] row_has_single_one(g, i) by {
        assert forall|j: int| 0 <= j < g.cols implies #[trigger] g.at(i, j) == if j == perm[i] {
            1real
        } else {
            0real
        } by {}
        assert(row_marks(g, i, perm[i]));
    }
    assert forall|j: int| 0 <= j < g.cols implies #[trigger] column_has_single_one(g, j) by {
        assert(occurs(perm, j));
        let c = choose|c: int| 0 <= c < perm.len() && perm[c] == j;
        assert forall|i: int| 0 <= i < g.rows implies #[trigger] g.at(i, j) == if i == c {
            1real
        } else {
            0real
        } by {
            if i != c {
                assert(perm[i] != perm[c]);
            }
        }
        assert(column_marks(g, j, c));
    }
}

/// For every square matrix `a`, the permuted matrix is the product of the
/// two triangular factors: `P * a == L * U`.
pub proof fn lemma_reconstruction(a: Grid<real>)
    requires
        a.wf(),
        a.is_square(),
    ensures
        factors(a).p.times(a) == factors(a).l.times(factors(a).u),
{
    let n = a.rows;
    let s = Elimination::after(a, a.cols);
    let f = factors(a);
    Elimination::lemma_after_inv(a, a.cols);
    lemma_permutation_grid(s.perm);
    f.p.lemma_times(a);
    f.l.lemma_times(f.u);
    let pa = f.p.times(a);
    let lu = f.l.times(f.u);
    assert forall|i: int, j: int| pa.has(i, j) implies #[trigger] pa.at(i, j) == lu.at(i, j) by {
        assert forall|t: int| 0 <= t < n implies #[trigger] f.p.at(i, t) == if t == s.perm[i] {
            1real
        } else {
            0real
        } by {}
        f.p.lemma_dot_selects(i, a, j, s.perm[i], n);
        assert(pa.at(i, j) == a.at(s.perm[i], j));
        assert(s.work.has(i, j));
        assert(s.work.at(i, j) == 0real);
        assert forall|t: int| s.rank <= t < n implies #[trigger] s.upper.at(t, j) == 0real by {
            assert(s.upper.has(t, j));
        }
        s.lower.lemma_dot_zero_tail(i, s.upper, j, s.rank, n);
    }
    pa.lemma_equal_by_cells(lu);
}

/// The lower factor of a square matrix has one on its diagonal and zero
/// above it.
pub proof fn lemma_lower_unit_triangular(a: Grid<real>)
    requires
        a.wf(),
        a.is_square(),
    ensures
        is_unit_lower(factors(a).l),
{
    Elimination::lemma_after_inv(a, a.cols);
}

/// No entry of the lower factor of a square matrix has a magnitude above
/// one: every pivot is an entry of greatest magnitude in its column.
pub proof fn lemma_multipliers_bounded(a: Grid<real>)
    requires
        a.wf(),
        a.is_square(),
    ensures
        forall|i: int, j: int|
            factors(a).l.has(i, j) ==> abs_real(#[trigger] factors(a).l.at(i, j)) <= 1real,
{
    Elimination::lemma_after_inv(a, a.cols);
}

/// The upper factor of a square matrix has zero below its diagonal.
pub proof fn lemma_upper_triangular(a: Grid<real>)
    requires
        a.wf(),
        a.is_square(),
    ensures
        is_upper(factors(a).u),
{
    Elimination::lemma_after_inv(a, a.cols);
}

/// The first factor of a square matrix is a permutation matrix: every row
/// and every column of it holds a single one, and zero elsewhere.
pub proof fn lemma_permutation(a: Grid<real>)
    requires
        a.wf(),
        a.is_square(),
    ensures
        is_permutation_grid(factors(a).p),
{
    Elimination::lemma_after_inv(a, a.cols);
    lemma_permutation_grid_marks(Elimination::after(a, a.cols).perm);
}

} // verus!
