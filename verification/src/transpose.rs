//! Transposition: in place by exchanges where the matrix is square, into a
//! new buffer where it is not.

use crate::error::{AlgebraError, ErrorKind};
use crate::grid::{lemma_flat_index, Grid};
use crate::matrix::Matrix;
use vstd::pervasive::cloned;
use vstd::prelude::*;

verus! {

/// The buffer of the transpose of `mat`, in row-major order: for each column
/// of `mat` in turn, a clone of every element of that column from the first
/// row to the last.
pub fn _tranpose_internal<T: Clone>(mat: &Matrix<T>) -> (buf: Vec<T>)
    requires
        mat.wf(),
    ensures
        mat@.transposed().cloned_as(
            (Grid { rows: mat.col as nat, cols: mat.row as nat, cells: buf@ }),
        ),
{
    let ghost target = mat@.transposed();
    proof {
        mat@.lemma_transposed();
        mat.lemma_layout();
    }
    let mut buf: Vec<T> = Vec::new();
    let mut i: usize = 0;
    while i < mat.col
        invariant
            mat.wf(),
            target == mat@.transposed(),
            target.wf(),
            target.rows == mat.col,
            target.cols == mat.row,
            i <= mat.col,
            buf.len() == i * mat.row,
            forall|u: int| 0 <= u < buf.len() ==> cloned(#[trigger] target.cells[u], buf[u]),
        decreases mat.col - i,
    {
        let mut j: usize = 0;
        while j < mat.row
            invariant
                mat.wf(),
                target == mat@.transposed(),
                target.wf(),
                target.rows == mat.col,
                target.cols == mat.row,
                i < mat.col,
                j <= mat.row,
                buf.len() == i * mat.row + j,
                forall|u: int| 0 <= u < buf.len() ==> cloned(#[trigger] target.cells[u], buf[u]),
            decreases mat.row - j,
        {
            proof {
                lemma_flat_index(mat.col as nat, mat.row as nat, i as int, j as int);
                assert(mat@.has(j as int, i as int));
                assert(target.at(i as int, j as int) == mat@.at(j as int, i as int));
            }
            buf.push(mat.entry(j, i).clone());
            j = j + 1;
        }
        proof {
            assert(i * mat.row + mat.row == (i + 1) * mat.row) by (nonlinear_arith);
        }
        i = i + 1;
    }
    proof {
        assert(mat.col * mat.row == mat.row * mat.col) by (nonlinear_arith);
    }
    buf
}

/// A matrix that is about to be transposed into a new one.
pub struct MatrixTransposition<'a, T> {
    pub mat: &'a Matrix<T>,
}

impl<'a, T: Clone> MatrixTransposition<'a, T> {
    pub fn new(mat: &'a Matrix<T>) -> (s: Self)
        ensures
            s.mat == mat,
    {
        Self { mat }
    }

    /// The transpose, in a buffer of its own: its element at `(j, i)` is a
    /// clone of the element at `(i, j)` of the matrix.
    pub fn transpose(self) -> (m: Matrix<T>)
        requires
            self.mat.wf(),
        ensures
            m.wf(),
            m.row == self.mat.col,
            m.col == self.mat.row,
            self.mat@.transposed().cloned_as(m@),
    {
        let mat = self.mat;
        let buf = _tranpose_internal(mat);
        proof {
            mat@.lemma_transposed();
        }
        Matrix { row: mat.col, col: mat.row, inner: buf }
    }
}

/// Whether the exchange of `(r, c)` with `(c, r)` is done once the in-place
/// transposition has reached the pair `(i, j)`: the pairs are taken row by
/// row, each with the column above the row.
pub open spec fn exchanged(r: int, c: int, i: int, j: int) -> bool {
    let lo = if r < c {
        r
    } else {
        c
    };
    let hi = if r < c {
        c
    } else {
        r
    };
    lo != hi && (lo < i || (lo == i && hi < j))
}

impl<T: Clone> Matrix<T> {
    /// Exchanges the elements at `(i, j)` and `(j, i)`: a clone of the first
    /// goes to `(j, i)`, and what stood there moves to `(i, j)`.
    fn flip(&mut self, i: usize, j: usize)
        requires
            old(self).wf(),
            old(self).row == old(self).col,
            i < old(self).row,
            j < old(self).row,
            i != j,
        ensures
            final(self).wf(),
            final(self).row == old(self).row,
            final(self).col == old(self).col,
            forall|r: int, c: int|
                old(self)@.has(r, c) ==> #[trigger] final(self)@.at(r, c) == if r == i && c == j {
                    old(self)@.at(j as int, i as int)
                } else if r == j && c == i {
                    final(self)@.at(j as int, i as int)
                } else {
                    old(self)@.at(r, c)
                },
            cloned(old(self)@.at(i as int, j as int), final(self)@.at(j as int, i as int)),
    {
        proof {
            self.lemma_layout();
            lemma_flat_index(self.row as nat, self.col as nat, i as int, j as int);
            lemma_flat_index(self.row as nat, self.col as nat, j as int, i as int);
        }
        let ghost g0 = self@;
        let a = i * self.col + j;
        let b = j * self.col + i;
        let mut item: T = self.inner[a].clone();
        let ghost copy = item;
        self.inner.set_and_swap(b, &mut item);
        let ghost g1 = self@;
        self.inner.set(a, item);
        proof {
            assert(g1 == g0.with(j as int, i as int, copy));
            assert(self@ == g1.with(i as int, j as int, g0.at(j as int, i as int)));
            g0.lemma_with(j as int, i as int, copy);
            g1.lemma_with(i as int, j as int, g0.at(j as int, i as int));
        }
    }

    /// Transposes the matrix where it stands. A square matrix is transposed
    /// by exchanges, without a second buffer; any other gets a new buffer
    /// and has its dimensions exchanged.
    pub fn transpose_mut(&mut self)
        requires
            old(self).wf(),
        ensures
            final(self).wf(),
            final(self).row == old(self).col,
            final(self).col == old(self).row,
            old(self)@.transposed().cloned_as(final(self)@),
    {
        let ghost before = self@;
        proof {
            before.lemma_transposed();
        }
        if self.row == self.col {
            let n = self.row;
            let mut i: usize = 0;
            while i < n
                invariant
                    self.wf(),
                    before.wf(),
                    before.rows == n,
                    before.cols == n,
                    self.row == n,
                    self.col == n,
                    i <= n,
                    forall|r: int, c: int|
                        before.has(r, c) ==> cloned(
                            if exchanged(r, c, i as int, 0) {
                                before.at(c, r)
                            } else {
                                before.at(r, c)
                            },
                            #[trigger] self@.at(r, c),
                        ),
                    forall|r: int, c: int|
                        before.has(r, c) && !exchanged(r, c, i as int, 0) ==> #[trigger] self@.at(
                            r,
                            c,
                        ) == before.at(r, c),
                decreases n - i,
            {
                let mut j: usize = i + 1;
                while j < n
                    invariant
                        self.wf(),
                        before.wf(),
                        before.rows == n,
                        before.cols == n,
                        self.row == n,
                        self.col == n,
                        i < n,
                        i < j <= n,
                        forall|r: int, c: int|
                            before.has(r, c) ==> cloned(
                                if exchanged(r, c, i as int, j as int) {
                                    before.at(c, r)
                                } else {
                                    before.at(r, c)
                                },
                                #[trigger] self@.at(r, c),
                            ),
                        forall|r: int, c: int|
                            before.has(r, c) && !exchanged(r, c, i as int, j as int)
                                ==> #[trigger] self@.at(r, c) == before.at(r, c),
                    decreases n - j,
                {
                    let ghost g = self@;
                    assert(g.has(i as int, j as int) && g.has(j as int, i as int));
                    assert(!exchanged(i as int, j as int, i as int, j as int));
                    assert(!exchanged(j as int, i as int, i as int, j as int));
                    self.flip(i, j);
                    j = j + 1;
                }
                i = i + 1;
            }
            proof {
                let target = before.transposed();
                assert forall|r: int, c: int| target.has(r, c) implies cloned(
                    #[trigger] target.at(r, c),
                    self@.at(r, c),
                ) by {
                    assert(before.has(c, r));
                    assert(before.has(r, c));
                    assert(target.at(r, c) == before.at(c, r));
                    if r == c {
                        assert(!exchanged(r, c, n as int, 0));
                    } else {
                        assert(exchanged(r, c, n as int, 0));
                    }
                }
                target.lemma_cloned_by_cells(self@);
            }
        } else {
            let m = MatrixTransposition::new(self).transpose();
            *self = m;
        }
    }

    /// The elements column by column: every element of the first column
    /// from the first row to the last, then those of the second, and so on.
    pub fn permute_cols(&self) -> (list: Vec<T>)
        requires
            self.wf(),
        ensures
            self@.transposed().cloned_as(
                (Grid { rows: self.col as nat, cols: self.row as nat, cells: list@ }),
            ),
    {
        _tranpose_internal(self)
    }

    /// The transpose of a matrix that the caller keeps: its element at
    /// `(j, i)` is a clone of the element at `(i, j)` of the matrix.
    pub fn transposed(&self) -> (m: Matrix<T>)
        requires
            self.wf(),
        ensures
            m.wf(),
            m.row == self.col,
            m.col == self.row,
            self@.transposed().cloned_as(m@),
    {
        MatrixTransposition::new(self).transpose()
    }

    /// The transpose of a matrix that the caller gives up.
    pub fn transpose(self) -> (m: Matrix<T>)
        requires
            self.wf(),
        ensures
            m.wf(),
            m.row == self.col,
            m.col == self.row,
            self@.transposed().cloned_as(m@),
    {
        let mut m = self;
        m.transpose_mut();
        m
    }

    /// The transpose of a matrix that the caller gives up, or the error of
    /// a buffer that does not hold one element for each cell.
    pub fn safe_transpose(self) -> (r: Result<Matrix<T>, AlgebraError>)
        ensures
            self.wf() ==> r.is_ok() && r.unwrap().wf() && self@.transposed().cloned_as(
                r.unwrap()@,
            ),
            !self.wf() ==> r == Err::<Matrix<T>, AlgebraError>(
                (AlgebraError { kind: ErrorKind::MatrixStructure }),
            ),
    {
        if self.is_well_formed() {
            Ok(self.transpose())
        } else {
            Err(AlgebraError::new(ErrorKind::MatrixStructure))
        }
    }

    /// The transpose of a matrix that the caller keeps, or the error of a
    /// buffer that does not hold one element for each cell.
    pub fn safe_transposed(&self) -> (r: Result<Matrix<T>, AlgebraError>)
        ensures
            self.wf() ==> r.is_ok() && r.unwrap().wf() && self@.transposed().cloned_as(
                r.unwrap()@,
            ),
            !self.wf() ==> r == Err::<Matrix<T>, AlgebraError>(
                (AlgebraError { kind: ErrorKind::MatrixStructure }),
            ),
    {
        if self.is_well_formed() {
            Ok(self.transposed())
        } else {
            Err(AlgebraError::new(ErrorKind::MatrixStructure))
        }
    }

    /// Transposes the matrix where it stands, or reports a buffer that does
    /// not hold one element for each cell and leaves the matrix as it was.
    pub fn safe_transpose_mut(&mut self) -> (r: Result<(), AlgebraError>)
        ensures
            old(self).wf() ==> r.is_ok() && final(self).wf() && old(self)@.transposed().cloned_as(
                final(self)@,
            ),
            !old(self).wf() ==> r == Err::<(), AlgebraError>(
                (AlgebraError { kind: ErrorKind::MatrixStructure }),
            ) && *final(self) == *old(self),
    {
        if self.is_well_formed() {
            self.transpose_mut();
            Ok(())
        } else {
            Err(AlgebraError::new(ErrorKind::MatrixStructure))
        }
    }
}

} // verus!
