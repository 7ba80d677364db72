//! The mathematical model of a dense matrix: its two dimensions and its
//! cells in row-major order.

use vstd::arithmetic::div_mod::{
    lemma_fundamental_div_mod, lemma_fundamental_div_mod_converse, lemma_mod_pos_bound,
};
use vstd::pervasive::cloned;
use vstd::prelude::*;

verus! {

/// A rectangular arrangement of values. The cell in row `i` and column `j`
/// is the one at position `i * cols + j` of `cells`.
pub struct Grid<T> {
    pub rows: nat,
    pub cols: nat,
    pub cells: Seq<T>,
}

/// Position `(i, j)` of a `rows` by `cols` grid lies inside its flat storage,
/// and the position determines `i` and `j`.
pub proof fn lemma_flat_index(rows: nat, cols: nat, i: int, j: int)
    requires
        0 <= i < rows,
        0 <= j < cols,
    ensures
        0 <= i * cols + j < rows * cols,
        (i * cols + j) / (cols as int) == i,
        (i * cols + j) % (cols as int) == j,
{
    assert(0 <= i * cols && i * cols + cols <= rows * cols) by (nonlinear_arith)
        requires
            0 <= i < rows,
            0 <= cols,
    ;
    lemma_fundamental_div_mod_converse(i * cols + j, cols as int, i, j);
}

/// Every flat position below `rows * cols` splits into a row and a column.
pub proof fn lemma_flat_split(rows: nat, cols: nat, k: int)
    requires
        0 <= k < rows * cols,
    ensures
        cols > 0,
        0 <= k / (cols as int) < rows,
        0 <= k % (cols as int) < cols,
        k == (k / (cols as int)) * cols + k % (cols as int),
{
    assert(cols > 0) by (nonlinear_arith)
        requires
            0 <= k < rows * cols,
    ;
    let c = cols as int;
    lemma_fundamental_div_mod(k, c);
    lemma_mod_pos_bound(k, c);
    let q = k / c;
    assert(c * q == q * c) by (nonlinear_arith);
    assert(0 <= q < rows) by (nonlinear_arith)
        requires
            k == q * c + k % c,
            0 <= k % c < c,
            0 <= k < rows * c,
    ;
}

/// The exchange of `a` and `b`: the position that `i` moves to.
pub open spec fn swapped(i: int, a: int, b: int) -> int {
    if i == a {
        b
    } else if i == b {
        a
    } else {
        i
    }
}

impl<T> Grid<T> {
    /// The storage holds exactly `rows * cols` cells.
    pub open spec fn wf(self) -> bool {
        self.cells.len() == self.rows * self.cols
    }

    pub open spec fn is_square(self) -> bool {
        self.rows == self.cols
    }

    /// Whether `(i, j)` names a cell of the grid.
    pub open spec fn has(self, i: int, j: int) -> bool {
        0 <= i < self.rows && 0 <= j < self.cols
    }

    /// The cell in row `i` and column `j`.
    pub open spec fn at(self, i: int, j: int) -> T {
        self.cells[i * self.cols + j]
    }

    /// The grid of the given shape whose cell `(i, j)` is `f(i, j)`.
    pub open spec fn from_fn(rows: nat, cols: nat, f: spec_fn(int, int) -> T) -> Grid<T> {
        Grid {
            rows,
            cols,
            cells: Seq::new(rows * cols, |k: int| f(k / (cols as int), k % (cols as int))),
        }
    }

    /// The grid with `v` in place of the cell at `(i, j)`.
    pub open spec fn with(self, i: int, j: int, v: T) -> Grid<T> {
        Grid { rows: self.rows, cols: self.cols, cells: self.cells.update(i * self.cols + j, v) }
    }

    /// Replacing one cell leaves every other cell as it was.
    pub proof fn lemma_with(self, i: int, j: int, v: T)
        requires
            self.wf(),
            self.has(i, j),
        ensures
            self.with(i, j, v).wf(),
            forall|i2: int, j2: int|
                self.has(i2, j2) ==> #[trigger] self.with(i, j, v).at(i2, j2) == if i2 == i && j2
                    == j {
                    v
                } else {
                    self.at(i2, j2)
                },
    {
        lemma_flat_index(self.rows, self.cols, i, j);
        assert forall|i2: int, j2: int| self.has(i2, j2) implies #[trigger] self.with(i, j, v).at(
            i2,
            j2,
        ) == if i2 == i && j2 == j {
            v
        } else {
            self.at(i2, j2)
        } by {
            lemma_flat_index(self.rows, self.cols, i2, j2);
        }
    }

    /// Column `k`, from the first row to the last.
    pub open spec fn column(self, k: int) -> Seq<T> {
        Seq::new(self.rows, |i: int| self.at(i, k))
    }

    /// Rows `a` and `b` with their cells exchanged in the columns from
    /// `from` up to, not including, `to`.
    pub open spec fn rows_exchanged(self, a: int, b: int, from: int, to: int) -> Grid<T> {
        Grid::from_fn(
            self.rows,
            self.cols,
            |i: int, j: int|
                if from <= j < to {
                    self.at(swapped(i, a, b), j)
                } else {
                    self.at(i, j)
                },
        )
    }

    /// The exchange of two rows, cell by cell.
    pub proof fn lemma_rows_exchanged(self, a: int, b: int, from: int, to: int)
        ensures
            self.rows_exchanged(a, b, from, to).wf(),
            self.rows_exchanged(a, b, from, to).rows == self.rows,
            self.rows_exchanged(a, b, from, to).cols == self.cols,
            forall|i: int, j: int|
                self.has(i, j) ==> #[trigger] self.rows_exchanged(a, b, from, to).at(i, j)
                    == if from <= j < to {
                    self.at(swapped(i, a, b), j)
                } else {
                    self.at(i, j)
                },
    {
        Grid::lemma_from_fn(
            self.rows,
            self.cols,
            |i: int, j: int|
                if from <= j < to {
                    self.at(swapped(i, a, b), j)
                } else {
                    self.at(i, j)
                },
        );
    }

    /// The transpose: rows and columns change places.
    pub open spec fn transposed(self) -> Grid<T> {
        Grid::from_fn(self.cols, self.rows, |i: int, j: int| self.at(j, i))
    }

    /// `from_fn` builds a well-formed grid that holds `f(i, j)` at `(i, j)`.
    pub proof fn lemma_from_fn(rows: nat, cols: nat, f: spec_fn(int, int) -> T)
        ensures
            Grid::from_fn(rows, cols, f).wf(),
            Grid::from_fn(rows, cols, f).rows == rows,
            Grid::from_fn(rows, cols, f).cols == cols,
            forall|i: int, j: int|
                0 <= i < rows && 0 <= j < cols ==> #[trigger] Grid::from_fn(rows, cols, f).at(i, j)
                    == f(i, j),
    {
        let g = Grid::from_fn(rows, cols, f);
        assert forall|i: int, j: int| 0 <= i < rows && 0 <= j < cols implies #[trigger] g.at(i, j)
            == f(i, j) by {
            lemma_flat_index(rows, cols, i, j);
        }
    }

    /// Two well-formed grids of one shape that agree cell by cell are equal.
    pub proof fn lemma_equal_by_cells(self, other: Grid<T>)
        requires
            self.wf(),
            other.wf(),
            self.rows == other.rows,
            self.cols == other.cols,
            forall|i: int, j: int| self.has(i, j) ==> #[trigger] self.at(i, j) == other.at(i, j),
        ensures
            self == other,
    {
        assert forall|k: int| 0 <= k < self.cells.len() implies self.cells[k] == other.cells[k] by {
            lemma_flat_split(self.rows, self.cols, k);
            let i = k / (self.cols as int);
            let j = k % (self.cols as int);
            assert(self.at(i, j) == other.at(i, j));
        }
        assert(self.cells =~= other.cells);
    }

    /// The transpose of a well-formed grid is well formed, has the two
    /// dimensions exchanged, and holds at `(j, i)` what the grid holds at
    /// `(i, j)`.
    pub proof fn lemma_transposed(self)
        requires
            self.wf(),
        ensures
            self.transposed().wf(),
            self.transposed().rows == self.cols,
            self.transposed().cols == self.rows,
            forall|i: int, j: int|
                self.has(i, j) ==> #[trigger] self.transposed().at(j, i) == self.at(i, j),
    {
        let f = |i: int, j: int| self.at(j, i);
        Grid::lemma_from_fn(self.cols, self.rows, f);
    }

    /// Transposing twice gives the grid back, in shape and in contents.
    pub proof fn lemma_transpose_involution(self)
        requires
            self.wf(),
        ensures
            self.transposed().transposed() == self,
    {
        let t = self.transposed();
        self.lemma_transposed();
        t.lemma_transposed();
        let tt = t.transposed();
        assert forall|i: int, j: int| tt.has(i, j) implies #[trigger] tt.at(i, j) == self.at(
            i,
            j,
        ) by {
            assert(t.has(j, i));
            assert(t.transposed().at(i, j) == t.at(j, i));
            assert(self.has(i, j));
            assert(self.transposed().at(j, i) == self.at(i, j));
        }
        tt.lemma_equal_by_cells(self);
    }
}

impl<T: Clone> Grid<T> {
    /// `other` has the shape of this grid, and each of its cells is a clone
    /// of the cell in the same place here, or that cell itself.
    pub open spec fn cloned_as(self, other: Grid<T>) -> bool {
        &&& other.rows == self.rows
        &&& other.cols == self.cols
        &&& other.cells.len() == self.cells.len()
        &&& forall|k: int|
            0 <= k < self.cells.len() ==> cloned(#[trigger] self.cells[k], other.cells[k])
    }

    /// A well-formed grid of the same shape whose cells are clones, place
    /// by place, is a clone of the grid.
    pub proof fn lemma_cloned_by_cells(self, other: Grid<T>)
        requires
            self.wf(),
            other.wf(),
            self.rows == other.rows,
            self.cols == other.cols,
            forall|i: int, j: int|
                self.has(i, j) ==> cloned(#[trigger] self.at(i, j), other.at(i, j)),
        ensures
            self.cloned_as(other),
    {
        assert forall|k: int| 0 <= k < self.cells.len() implies cloned(
            #[trigger] self.cells[k],
            other.cells[k],
        ) by {
            lemma_flat_split(self.rows, self.cols, k);
            let i = k / (self.cols as int);
            let j = k % (self.cols as int);
            assert(cloned(self.at(i, j), other.at(i, j)));
        }
    }
}

} // verus!
