//! The dense matrix: one flat buffer in row-major order, and its two
//! dimensions.

use crate::error::{index_message, MatrixError};
use crate::grid::{lemma_flat_index, Grid};
use vstd::pervasive::cloned;
use vstd::prelude::*;
use vstd::std_specs::convert::FromSpecImpl;

verus! {

/// A dense matrix of `row` rows and `col` columns. The element at `(i, j)`
/// lives at position `i * col + j` of `inner`.
///
/// The fields are open to the caller, so a matrix can be malformed: its
/// buffer need not hold `row * col` elements. The operations say which of
/// them ask for a well-formed matrix and which of them check.
#[derive(Debug, Clone, PartialEq)]
pub struct Matrix<T> {
    pub inner: Vec<T>,
    pub row: usize,
    pub col: usize,
}

impl<T> View for Matrix<T> {
    type V = Grid<T>;

    open spec fn view(&self) -> Grid<T> {
        Grid { rows: self.row as nat, cols: self.col as nat, cells: self.inner@ }
    }
}

/// `r` is the greatest number whose square is at most `n`.
pub open spec fn is_floor_sqrt(n: nat, r: nat) -> bool {
    r * r <= n < (r + 1) * (r + 1)
}

/// The greatest number whose square is at most `n`.
pub open spec fn floor_sqrt(n: nat) -> nat {
    choose|r: nat| is_floor_sqrt(n, r)
}

/// At most one number has its square at or below `n` and the next square
/// above it.
pub proof fn lemma_floor_sqrt(n: nat, r: nat)
    requires
        is_floor_sqrt(n, r),
    ensures
        floor_sqrt(n) == r,
{
    let q = floor_sqrt(n);
    assert(is_floor_sqrt(n, q));
    if q < r {
        assert((q + 1) * (q + 1) <= r * r) by (nonlinear_arith)
            requires
                q + 1 <= r,
        ;
    } else if r < q {
        assert((r + 1) * (r + 1) <= q * q) by (nonlinear_arith)
            requires
                r + 1 <= q,
        ;
    }
}

/// The greatest number whose square is at most `n`.
pub fn integer_sqrt(n: usize) -> (r: usize)
    ensures
        r == floor_sqrt(n as nat),
        r * r <= n,
{
    let mut r: usize = 0;
    while r < n && r + 1 <= n / (r + 1)
        invariant
            r * r <= n,
        decreases n - r,
    {
        proof {
            let d = (r + 1) as int;
            let q = n as int / d;
            assert(d * q <= n) by {
                vstd::arithmetic::div_mod::lemma_fundamental_div_mod(n as int, d);
                vstd::arithmetic::div_mod::lemma_mod_pos_bound(n as int, d);
            }
            assert(d * d <= d * q) by (nonlinear_arith)
                requires
                    d <= q,
                    d > 0,
            ;
        }
        r = r + 1;
    }
    proof {
        let d = (r + 1) as int;
        if r < n {
            let q = n as int / d;
            vstd::arithmetic::div_mod::lemma_fundamental_div_mod(n as int, d);
            vstd::arithmetic::div_mod::lemma_mod_pos_bound(n as int, d);
            assert(d * q + d <= d * d) by (nonlinear_arith)
                requires
                    q + 1 <= d,
                    d > 0,
            ;
        } else {
            assert(r * r <= n);
            assert(r == n) by (nonlinear_arith)
                requires
                    r >= n,
                    r * r <= n,
                    r >= 0,
                    n >= 0,
            ;
            assert(d * d > n) by (nonlinear_arith)
                requires
                    d == n + 1,
                    n >= 0,
            ;
        }
        lemma_floor_sqrt(n as nat, r as nat);
    }
    r
}

impl<T> From<Vec<T>> for Matrix<T> {
    /// The square matrix over the given buffer.
    fn from(inner: Vec<T>) -> (m: Self) {
        Matrix::square(inner)
    }
}

impl<T> FromSpecImpl<Vec<T>> for Matrix<T> {
    open spec fn obeys_from_spec() -> bool {
        true
    }

    open spec fn from_spec(inner: Vec<T>) -> Self {
        Matrix {
            inner,
            row: floor_sqrt(inner.len() as nat) as usize,
            col: floor_sqrt(inner.len() as nat) as usize,
        }
    }
}

impl<T: Clone> Matrix<T> {
    /// Column `k`, from the first row to the last: a clone of each of its
    /// elements.
    pub fn get_col(&self, k: usize) -> (column: Vec<T>)
        requires
            self.wf(),
            k < self.col,
        ensures
            column.len() == self.row,
            forall|i: int|
                0 <= i < self.row ==> cloned(#[trigger] self@.column(k as int)[i], column[i]),
    {
        let mut column: Vec<T> = Vec::new();
        let mut i: usize = 0;
        while i < self.row
            invariant
                self.wf(),
                k < self.col,
                i <= self.row,
                column.len() == i,
                forall|t: int|
                    0 <= t < i ==> cloned(#[trigger] self@.column(k as int)[t], column[t]),
            decreases self.row - i,
        {
            column.push(self.entry(i, k).clone());
            i = i + 1;
        }
        column
    }
}

impl<T> Matrix<T> {
    /// The buffer holds one element for each cell.
    pub open spec fn wf(&self) -> bool {
        self@.wf()
    }

    /// Well-formedness, and the place of a cell in the buffer, in machine
    /// integers.
    pub proof fn lemma_layout(&self)
        ensures
            self.wf() == (self.inner.len() == self.row * self.col),
            forall|i: int, j: int| #[trigger]
                self@.has(i, j) ==> (0 <= i < self.row && 0 <= j < self.col),
            forall|i: int, j: int|
                self.wf() && #[trigger] self@.has(i, j) ==> 0 <= i * self.col + j
                    < self.inner.len(),
    {
        assert forall|i: int, j: int| self.wf() && #[trigger] self@.has(i, j) implies 0 <= i
            * self.col + j < self.inner.len() by {
            lemma_flat_index(self.row as nat, self.col as nat, i, j);
        }
    }

    /// The matrix of the given dimensions over the given buffer. Nothing is
    /// checked: the result is well formed where `inner` holds `row * col`
    /// elements.
    pub fn new(inner: Vec<T>, row: usize, col: usize) -> (m: Self)
        ensures
            m.inner == inner,
            m.row == row,
            m.col == col,
    {
        Matrix { inner, row, col }
    }

    /// The square matrix over the given buffer, with as many rows as the
    /// buffer's length has for its integer square root. The result is well
    /// formed where that length is a perfect square.
    pub fn square(inner: Vec<T>) -> (m: Self)
        ensures
            m.inner == inner,
            m.row == floor_sqrt(inner.len() as nat),
            m.col == m.row,
    {
        let n = integer_sqrt(inner.len());
        Matrix { inner, row: n, col: n }
    }

    /// Whether the buffer holds one element for each cell.
    pub fn is_well_formed(&self) -> (b: bool)
        ensures
            b == self.wf(),
    {
        proof {
            self.lemma_layout();
        }
        match self.row.checked_mul(self.col) {
            Some(n) => n == self.inner.len(),
            None => false,
        }
    }

    /// The element at `(i, j)`.
    pub fn entry(&self, i: usize, j: usize) -> (e: &T)
        requires
            self.wf(),
            self@.has(i as int, j as int),
        ensures
            *e == self@.at(i as int, j as int),
    {
        proof {
            self.lemma_layout();
            assert(0 <= i * self.col) by (nonlinear_arith)
                requires
                    0 <= i,
                    0 <= self.col,
            ;
        }
        &self.inner[i * self.col + j]
    }

    /// Puts `v` at `(i, j)`.
    pub fn set_entry(&mut self, i: usize, j: usize, v: T)
        requires
            old(self).wf(),
            old(self)@.has(i as int, j as int),
        ensures
            final(self)@ == old(self)@.with(i as int, j as int, v),
            final(self).wf(),
    {
        proof {
            self.lemma_layout();
            assert(0 <= i * self.col) by (nonlinear_arith)
                requires
                    0 <= i,
                    0 <= self.col,
            ;
        }
        let at = i * self.col + j;
        self.inner.set(at, v);
    }

    /// The element at `(row, col)`, or the error that names the index and
    /// the dimensions where the index lies outside the matrix or the buffer
    /// is too short to hold it.
    pub fn get(&self, row: usize, col: usize) -> (r: Result<&T, MatrixError>)
        ensures
            self.holds(row, col) ==> r == Ok::<&T, MatrixError>(&self@.at(row as int, col as int)),
            !self.holds(row, col) ==> (r matches Err(MatrixError::InvalidIndex(s)) && s@
                == index_message(row as nat, col as nat, self.row as nat, self.col as nat)),
            self.wf() ==> self.holds(row, col) == self@.has(row as int, col as int),
    {
        proof {
            if self.wf() && self@.has(row as int, col as int) {
                lemma_flat_index(self.row as nat, self.col as nat, row as int, col as int);
            }
        }
        if row < self.row && col < self.col {
            match row.checked_mul(self.col) {
                Some(start) => match start.checked_add(col) {
                    Some(at) => if at < self.inner.len() {
                        return Ok(&self.inner[at]);
                    },
                    None => {},
                },
                None => {},
            }
        }
        Err(MatrixError::out_of_range(row, col, self.row, self.col))
    }

    /// The index `(row, col)` lies inside the dimensions, and the buffer
    /// reaches as far as its position.
    pub open spec fn holds(&self, row: usize, col: usize) -> bool {
        row < self.row && col < self.col && row * self.col + col < self.inner.len()
    }
}

} // verus!
