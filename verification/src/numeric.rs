//! Matrices of exact scalars: their real values, and the arithmetic on them.

use crate::grid::{lemma_flat_split, Grid};
use crate::matrix::Matrix;
use crate::scalar::Scalar;
use vstd::prelude::*;

verus! {

impl<T: Scalar> Matrix<T> {
    /// The real numbers that the elements stand for, in the shape of the
    /// matrix.
    pub open spec fn values(&self) -> Grid<real> {
        Grid {
            rows: self.row as nat,
            cols: self.col as nat,
            cells: self.inner@.map_values(|x: T| x.value()),
        }
    }

    /// The value of the element at `(i, j)`.
    pub fn peek(&self, i: usize, j: usize) -> (e: &T)
        requires
            self.wf(),
            self.values().has(i as int, j as int),
        ensures
            e.value() == self.values().at(i as int, j as int),
    {
        proof {
            self.lemma_layout();
            assert(self@.has(i as int, j as int));
        }
        self.entry(i, j)
    }

    /// Puts `v` at `(i, j)`; every other value stays.
    pub fn put(&mut self, i: usize, j: usize, v: T)
        requires
            old(self).wf(),
            old(self).values().has(i as int, j as int),
        ensures
            final(self).wf(),
            final(self).row == old(self).row,
            final(self).col == old(self).col,
            final(self).values() == old(self).values().with(i as int, j as int, v.value()),
            forall|i2: int, j2: int|
                old(self).values().has(i2, j2) ==> #[trigger] final(self).values().at(i2, j2)
                    == if i2 == i && j2 == j {
                    v.value()
                } else {
                    old(self).values().at(i2, j2)
                },
    {
        proof {
            self.lemma_layout();
            assert(self@.has(i as int, j as int));
            self.values().lemma_with(i as int, j as int, v.value());
        }
        let ghost before = self.values();
        self.set_entry(i, j, v);
        proof {
            assert(self.values().cells =~= before.with(i as int, j as int, v.value()).cells);
        }
    }

    /// A matrix of the same shape whose elements have the same values.
    pub fn duplicate(&self) -> (m: Self)
        ensures
            m.row == self.row,
            m.col == self.col,
            m.values() == self.values(),
            m.wf() == self.wf(),
    {
        let mut inner: Vec<T> = Vec::new();
        let n = self.inner.len();
        let mut t: usize = 0;
        while t < n
            invariant
                n == self.inner.len(),
                t <= n,
                inner.len() == t,
                forall|u: int| 0 <= u < t ==> #[trigger] inner[u].value() == self.inner[u].value(),
            decreases n - t,
        {
            inner.push(self.inner[t].duplicate());
            t = t + 1;
        }
        let m = Matrix { inner, row: self.row, col: self.col };
        proof {
            assert(m.values().cells =~= self.values().cells);
        }
        m
    }

    /// The matrix of the same shape with one on the diagonal and zero
    /// elsewhere.
    pub fn identity(&self) -> (m: Self)
        requires
            self.wf(),
        ensures
            m.wf(),
            m.row == self.row,
            m.col == self.col,
            m.values() == Grid::unit(self.row as nat, self.col as nat),
    {
        proof {
            self.lemma_layout();
        }
        let n = self.inner.len();
        let cols = self.col;
        let mut inner: Vec<T> = Vec::new();
        let mut t: usize = 0;
        while t < n
            invariant
                n == self.row * self.col,
                cols == self.col,
                t <= n,
                inner.len() == t,
                forall|u: int|
                    0 <= u < t ==> #[trigger] inner[u].value() == if u / (cols as int) == u % (
                    cols as int) {
                        1real
                    } else {
                        0real
                    },
            decreases n - t,
        {
            proof {
                lemma_flat_split(self.row as nat, self.col as nat, t as int);
            }
            if t / cols == t % cols {
                inner.push(T::one());
            } else {
                inner.push(T::zero());
            }
            t = t + 1;
        }
        let m = Matrix { inner, row: self.row, col: self.col };
        proof {
            assert(m.values().cells =~= Grid::unit(self.row as nat, self.col as nat).cells);
        }
        m
    }

    /// The matrix with every element multiplied by `s`.
    pub fn scalar(&self, s: &T) -> (m: Self)
        ensures
            m.row == self.row,
            m.col == self.col,
            m.values() == self.values().scaled(s.value()),
            m.wf() == self.wf(),
    {
        let n = self.inner.len();
        let mut inner: Vec<T> = Vec::new();
        let mut t: usize = 0;
        while t < n
            invariant
                n == self.inner.len(),
                t <= n,
                inner.len() == t,
                forall|u: int|
                    0 <= u < t ==> #[trigger] inner[u].value() == self.inner[u].value()
                        * s.value(),
            decreases n - t,
        {
            inner.push(self.inner[t].mul(s));
            t = t + 1;
        }
        let m = Matrix { inner, row: self.row, col: self.col };
        proof {
            assert(m.values().cells =~= self.values().scaled(s.value()).cells);
        }
        m
    }

    /// The sum of `self(i, t) * other(t, j)` over all `t`.
    pub fn dot(&self, i: usize, other: &Matrix<T>, j: usize) -> (r: T)
        requires
            self.wf(),
            other.wf(),
            self.col == other.row,
            i < self.row,
            j < other.col,
        ensures
            r.value() == self.values().dot(i as int, other.values(), j as int, self.col as nat),
    {
        let mut acc = T::zero();
        let mut t: usize = 0;
        while t < self.col
            invariant
                self.wf(),
                other.wf(),
                self.col == other.row,
                i < self.row,
                j < other.col,
                t <= self.col,
                acc.value() == self.values().dot(i as int, other.values(), j as int, t as nat),
            decreases self.col - t,
        {
            let term = self.peek(i, t).mul(other.peek(t, j));
            acc = acc.add(&term);
            t = t + 1;
        }
        acc
    }

    /// The matrix product of `self` and `other`.
    pub fn cross(&self, other: &Matrix<T>) -> (m: Self)
        requires
            self.wf(),
            other.wf(),
            self.col == other.row,
            self.row * other.col <= usize::MAX,
        ensures
            m.wf(),
            m.row == self.row,
            m.col == other.col,
            m.values() == self.values().times(other.values()),
    {
        let n = self.row * other.col;
        let cols = other.col;
        let mut inner: Vec<T> = Vec::new();
        let mut t: usize = 0;
        while t < n
            invariant
                self.wf(),
                other.wf(),
                self.col == other.row,
                n == self.row * other.col,
                cols == other.col,
                t <= n,
                inner.len() == t,
                forall|u: int|
                    0 <= u < t ==> #[trigger] inner[u].value() == self.values().dot(
                        u / (cols as int),
                        other.values(),
                        u % (cols as int),
                        self.col as nat,
                    ),
            decreases n - t,
        {
            proof {
                lemma_flat_split(self.row as nat, other.col as nat, t as int);
            }
            inner.push(self.dot(t / cols, other, t % cols));
            t = t + 1;
        }
        let m = Matrix { inner, row: self.row, col: other.col };
        proof {
            assert(m.values().cells =~= self.values().times(other.values()).cells);
        }
        m
    }
}

} // verus!
