use vstd::arithmetic::div_mod::lemma_fundamental_div_mod;
use vstd::arithmetic::div_mod::lemma_fundamental_div_mod_converse;
use vstd::prelude::*;

verus! {

/// The mathematical content of a matrix: its two dimensions and its cells
/// in row-major order. The cell in row `i` and column `j` is the cell at
/// offset `i * cols + j`.
pub struct Grid<T> {
    pub rows: nat,
    pub cols: nat,
    pub cells: Seq<T>,
}

impl<T> Grid<T> {
    /// There is exactly one cell for each pair of a row and a column.
    pub open spec fn wf(self) -> bool {
        self.cells.len() == self.rows * self.cols
    }

    /// The cell in row `i` and column `j`.
    pub open spec fn at(self, i: int, j: int) -> T {
        self.cells[i * self.cols + j]
    }

    /// Whether `(i, j)` names a cell of this grid.
    pub open spec fn has(self, i: int, j: int) -> bool {
        0 <= i < self.rows && 0 <= j < self.cols
    }

    /// Whether both grids have the same number of rows and of columns.
    pub open spec fn same_shape<U>(self, other: Grid<U>) -> bool {
        self.rows == other.rows && self.cols == other.cols
    }

    /// The grid with rows and columns exchanged: its cell `(i, j)` is the
    /// cell `(j, i)` of this grid.
    pub open spec fn transpose(self) -> Grid<T> {
        Grid {
            rows: self.cols,
            cols: self.rows,
            cells: Seq::new(
                self.cells.len(),
                |k: int| self.at(k % (self.rows as int), k / (self.rows as int)),
            ),
        }
    }
}

impl Grid<int> {
    /// Whether every cell lies between `lo` and `hi`.
    pub open spec fn within(self, lo: int, hi: int) -> bool {
        forall|k: int| 0 <= k < self.cells.len() ==> lo <= #[trigger] self.cells[k] <= hi
    }

    /// The cellwise sum.
    pub open spec fn plus(self, rhs: Grid<int>) -> Grid<int> {
        Grid {
            rows: self.rows,
            cols: self.cols,
            cells: Seq::new(self.cells.len(), |k: int| self.cells[k] + rhs.cells[k]),
        }
    }

    /// The cellwise difference.
    pub open spec fn minus(self, rhs: Grid<int>) -> Grid<int> {
        Grid {
            rows: self.rows,
            cols: self.cols,
            cells: Seq::new(self.cells.len(), |k: int| self.cells[k] - rhs.cells[k]),
        }
    }

    /// Every cell negated.
    pub open spec fn negated(self) -> Grid<int> {
        Grid {
            rows: self.rows,
            cols: self.cols,
            cells: Seq::new(self.cells.len(), |k: int| -self.cells[k]),
        }
    }

    /// Every cell increased by `c`.
    pub open spec fn plus_scalar(self, c: int) -> Grid<int> {
        Grid {
            rows: self.rows,
            cols: self.cols,
            cells: Seq::new(self.cells.len(), |k: int| self.cells[k] + c),
        }
    }

    /// Every cell decreased by `c`.
    pub open spec fn minus_scalar(self, c: int) -> Grid<int> {
        Grid {
            rows: self.rows,
            cols: self.cols,
            cells: Seq::new(self.cells.len(), |k: int| self.cells[k] - c),
        }
    }

    /// Every cell multiplied by `c`.
    pub open spec fn times_scalar(self, c: int) -> Grid<int> {
        Grid {
            rows: self.rows,
            cols: self.cols,
            cells: Seq::new(self.cells.len(), |k: int| self.cells[k] * c),
        }
    }

    /// The product of cell `(i, k)` of this grid and cell `(k, j)` of `rhs`.
    pub open spec fn term(self, rhs: Grid<int>, i: int, j: int, k: int) -> int {
        self.at(i, k) * rhs.at(k, j)
    }

    /// The sum of the first `n` terms of row `i` of this grid against
    /// column `j` of `rhs`.
    pub open spec fn dot(self, rhs: Grid<int>, i: int, j: int, n: int) -> int
        decreases n,
    {
        if n <= 0 {
            0
        } else {
            self.dot(rhs, i, j, n - 1) + self.term(rhs, i, j, n - 1)
        }
    }

    /// The algebraic product: cell `(i, j)` is row `i` of this grid against
    /// column `j` of `rhs`, over the whole shared dimension.
    pub open spec fn times(self, rhs: Grid<int>) -> Grid<int> {
        Grid {
            rows: self.rows,
            cols: rhs.cols,
            cells: Seq::new(
                self.rows * rhs.cols,
                |k: int|
                    self.dot(rhs, k / (rhs.cols as int), k % (rhs.cols as int), self.cols as int),
            ),
        }
    }

    /// Whether every term of the product, and every sum of the first terms
    /// of a row against a column, lies between `lo` and `hi`.
    pub open spec fn times_within(self, rhs: Grid<int>, lo: int, hi: int) -> bool {
        &&& forall|i: int, j: int, k: int|
            0 <= i < self.rows && 0 <= j < rhs.cols && 0 <= k < self.cols ==> lo
                <= #[trigger] self.term(rhs, i, j, k) <= hi
        &&& forall|i: int, j: int, n: int|
            0 <= i < self.rows && 0 <= j < rhs.cols && 1 <= n <= self.cols ==> lo
                <= #[trigger] self.dot(rhs, i, j, n) <= hi
    }

    /// Whether this is a square grid with one on the diagonal and zero
    /// everywhere else.
    pub open spec fn is_identity(self) -> bool {
        &&& self.rows == self.cols
        &&& forall|i: int, j: int|
            self.has(i, j) ==> #[trigger] self.at(i, j) == (if i == j {
                1int
            } else {
                0int
            })
    }
}

/// The offset of a cell lies within the cells, and its row starts within
/// them too.
pub proof fn lemma_offset_in_range(rows: int, cols: int, i: int, j: int)
    requires
        0 <= i < rows,
        0 <= j < cols,
    ensures
        0 <= i * cols <= i * cols + j < rows * cols,
        (i + 1) * cols <= rows * cols,
{
    assert(0 <= i * cols && (i + 1) * cols <= rows * cols && (i + 1) * cols == i * cols + cols)
        by (nonlinear_arith)
        requires
            0 <= i < rows,
            0 <= cols,
    ;
}

/// An offset determines its row and its column.
pub proof fn lemma_offset_split(cols: int, i: int, j: int)
    requires
        0 <= j < cols,
    ensures
        (i * cols + j) / cols == i,
        (i * cols + j) % cols == j,
{
    lemma_fundamental_div_mod_converse(i * cols + j, cols, i, j);
}

/// The row and the column of an offset lie within the grid, and give the
/// offset back.
pub proof fn lemma_offset_join(rows: int, cols: int, k: int)
    requires
        0 <= k < rows * cols,
        0 < cols,
    ensures
        0 <= k / cols < rows,
        0 <= k % cols < cols,
        (k / cols) * cols + k % cols == k,
{
    lemma_fundamental_div_mod(k, cols);
    let q = k / cols;
    assert(0 <= q < rows && q * cols == cols * q) by (nonlinear_arith)
        requires
            0 <= k < rows * cols,
            0 < cols,
            k == cols * q + k % cols,
            0 <= k % cols < cols,
    ;
}

/// Cell `(i, j)` of the transpose is cell `(j, i)` of the grid.
pub proof fn lemma_transpose_at<T>(g: Grid<T>, i: int, j: int)
    requires
        g.wf(),
        0 <= i < g.cols,
        0 <= j < g.rows,
    ensures
        g.transpose().wf(),
        g.transpose().at(i, j) == g.at(j, i),
{
    let rows = g.rows as int;
    let cols = g.cols as int;
    lemma_offset_in_range(cols, rows, i, j);
    lemma_offset_split(rows, i, j);
    assert(cols * rows == rows * cols) by (nonlinear_arith);
}

/// Transposing twice gives the grid back.
pub proof fn lemma_transpose_involution<T>(g: Grid<T>)
    requires
        g.wf(),
    ensures
        g.transpose().transpose() == g,
{
    let rows = g.rows as int;
    let cols = g.cols as int;
    let t = g.transpose();
    let tt = t.transpose();
    assert(rows * cols == cols * rows) by (nonlinear_arith);
    assert forall|k: int| 0 <= k < g.cells.len() implies tt.cells[k] == g.cells[k] by {
        assert(0 < cols && 0 < rows) by (nonlinear_arith)
            requires
                0 <= k < rows * cols,
                0 <= rows,
                0 <= cols,
        ;
        lemma_offset_join(rows, cols, k);
        let i = k / cols;
        let j = k % cols;
        lemma_offset_in_range(cols, rows, j, i);
        lemma_offset_split(rows, j, i);
        assert(tt.cells[k] == t.at(j, i));
        assert(t.at(j, i) == t.cells[j * rows + i]);
        assert(t.cells[j * rows + i] == g.at(i, j));
    }
    assert(tt.cells =~= g.cells);
}

/// Adding a grid and then subtracting it again gives the first grid back.
pub proof fn lemma_plus_then_minus(a: Grid<int>, b: Grid<int>)
    ensures
        a.plus(b).minus(b) == a,
{
    assert(a.plus(b).minus(b).cells =~= a.cells);
}

} // verus!
