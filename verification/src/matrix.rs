use crate::element::Element;
use crate::grid::lemma_offset_in_range;
use crate::grid::lemma_offset_split;
use crate::grid::Grid;
use vstd::prelude::*;

verus! {

/// Why a matrix could not be built or a cell could not be reached.
#[derive(Debug, Clone, Copy, PartialEq, Eq, Structural)]
pub enum MatrixError {
    /// The number of values is not the number of rows times the number of
    /// columns.
    InvalidShape,
    /// The row or the column lies outside the matrix.
    IndexOutOfBounds,
}

/// A dense matrix whose cells are stored in row-major order.
#[derive(Debug, PartialEq)]
pub struct Matrix<T> {
    data: Vec<T>,
    row: usize,
    col: usize,
}

impl<T> View for Matrix<T> {
    type V = Grid<T>;

    closed spec fn view(&self) -> Grid<T> {
        Grid { rows: self.row as nat, cols: self.col as nat, cells: self.data@ }
    }
}

impl<T> Matrix<T> {
    #[verifier::type_invariant]
    spec fn inv(&self) -> bool {
        self.data.len() == self.row * self.col
    }

    /// Builds a matrix that owns `data` as its cells, in row-major order.
    pub(crate) fn from_vec(row: usize, col: usize, data: Vec<T>) -> (out: Matrix<T>)
        requires
            data@.len() == row * col,
        ensures
            out@ == (Grid { rows: row as nat, cols: col as nat, cells: data@ }),
    {
        Matrix { data, row, col }
    }

    /// The number of rows and the number of columns, in this order.
    pub fn shape(&self) -> (dims: (usize, usize))
        ensures
            dims.0 == self@.rows,
            dims.1 == self@.cols,
            self@.wf(),
    {
        proof {
            use_type_invariant(self);
        }
        (self.row, self.col)
    }

    /// Whether the matrix has as many rows as columns.
    pub fn is_square(&self) -> (square: bool)
        ensures
            square == (self@.rows == self@.cols),
    {
        self.row == self.col
    }

    /// The cells in row-major order.
    pub fn as_slice(&self) -> (cells: &[T])
        ensures
            cells@ == self@.cells,
            self@.wf(),
    {
        proof {
            use_type_invariant(self);
        }
        self.data.as_slice()
    }

    /// The cell in row `row` and column `col`, or `IndexOutOfBounds` when
    /// there is no such cell.
    pub fn get(&self, row: usize, col: usize) -> (cell: Result<&T, MatrixError>)
        ensures
            self@.has(row as int, col as int) ==> cell == Ok::<&T, MatrixError>(
                &self@.at(row as int, col as int),
            ),
            !self@.has(row as int, col as int) ==> cell == Err::<&T, MatrixError>(
                MatrixError::IndexOutOfBounds,
            ),
    {
        proof {
            use_type_invariant(self);
        }
        if row < self.row && col < self.col {
            proof {
                lemma_offset_in_range(self.row as int, self.col as int, row as int, col as int);
            }
            Ok(&self.data[row * self.col + col])
        } else {
            Err(MatrixError::IndexOutOfBounds)
        }
    }

    /// Replaces the cell in row `row` and column `col` by `value`. When
    /// there is no such cell the matrix stays as it is and the result is
    /// `IndexOutOfBounds`.
    pub fn set(&mut self, row: usize, col: usize, value: T) -> (done: Result<(), MatrixError>)
        ensures
            final(self)@.rows == old(self)@.rows,
            final(self)@.cols == old(self)@.cols,
            old(self)@.has(row as int, col as int) ==> done == Ok::<(), MatrixError>(())
                && final(self)@.cells == old(self)@.cells.update(
                row * old(self)@.cols + col,
                value,
            ),
            !old(self)@.has(row as int, col as int) ==> done == Err::<(), MatrixError>(
                MatrixError::IndexOutOfBounds,
            ) && final(self)@ == old(self)@,
    {
        proof {
            use_type_invariant(&*self);
        }
        if row < self.row && col < self.col {
            proof {
                lemma_offset_in_range(self.row as int, self.col as int, row as int, col as int);
            }
            self.data[row * self.col + col] = value;
            Ok(())
        } else {
            Err(MatrixError::IndexOutOfBounds)
        }
    }
}

impl<T: Copy> Matrix<T> {
    /// Builds the matrix of `row` rows and `col` columns whose cells are
    /// `values`, in row-major order.
    pub fn new(row: usize, col: usize, values: &[T]) -> (out: Matrix<T>)
        requires
            values@.len() == row * col,
        ensures
            out@ == (Grid { rows: row as nat, cols: col as nat, cells: values@ }),
    {
        let mut data: Vec<T> = Vec::new();
        let mut k: usize = 0;
        while k < values.len()
            invariant
                k <= values@.len(),
                data@ == values@.take(k as int),
            decreases values@.len() - k,
        {
            data.push(values[k]);
            k += 1;
        }
        assert(data@ =~= values@);
        Matrix { data, row, col }
    }

    /// Builds the matrix of `row` rows and `col` columns whose cells are
    /// `values`, in row-major order, or reports `InvalidShape` when the
    /// number of values is not `row * col`.
    pub fn try_new(row: usize, col: usize, values: &[T]) -> (out: Result<Matrix<T>, MatrixError>)
        ensures
            values@.len() == row * col ==> out is Ok && out->Ok_0@ == (Grid {
                rows: row as nat,
                cols: col as nat,
                cells: values@,
            }),
            values@.len() != row * col ==> out == Err::<Matrix<T>, MatrixError>(
                MatrixError::InvalidShape,
            ),
    {
        let count: usize = values.len();
        match row.checked_mul(col) {
            Some(product) => {
                if product == count {
                    Ok(Matrix::new(row, col, values))
                } else {
                    Err(MatrixError::InvalidShape)
                }
            },
            None => Err(MatrixError::InvalidShape),
        }
    }

    /// The transposed matrix: `col` rows and `row` columns, with the cell
    /// `(j, i)` of this matrix as its cell `(i, j)`.
    pub fn transposition(&self) -> (out: Matrix<T>)
        ensures
            out@ == self@.transpose(),
            out@.rows == self@.cols,
            out@.cols == self@.rows,
    {
        proof {
            use_type_invariant(self);
        }
        let ghost target = self@.transpose().cells;
        let mut data: Vec<T> = Vec::new();
        let mut i: usize = 0;
        while i < self.col
            invariant
                i <= self.col,
                self.data.len() == self.row * self.col,
                target == self@.transpose().cells,
                data@.len() == i * self.row,
                forall|k: int| 0 <= k < data@.len() ==> data@[k] == target[k],
            decreases self.col - i,
        {
            let mut j: usize = 0;
            while j < self.row
                invariant
                    i < self.col,
                    j <= self.row,
                    self.data.len() == self.row * self.col,
                    target == self@.transpose().cells,
                    data@.len() == i * self.row + j,
                    forall|k: int| 0 <= k < data@.len() ==> data@[k] == target[k],
                decreases self.row - j,
            {
                proof {
                    lemma_offset_in_range(self.row as int, self.col as int, j as int, i as int);
                    lemma_offset_in_range(self.col as int, self.row as int, i as int, j as int);
                    lemma_offset_split(self.row as int, i as int, j as int);
                    assert(self.col * self.row == self.row * self.col) by (nonlinear_arith);
                }
                data.push(self.data[j * self.col + i]);
                j += 1;
            }
            proof {
                assert((i + 1) * self.row == i * self.row + self.row) by (nonlinear_arith);
            }
            i += 1;
        }
        proof {
            assert(self.col * self.row == self.row * self.col) by (nonlinear_arith);
            assert(data@ =~= target);
        }
        Matrix { data, row: self.col, col: self.row }
    }
}

impl<T: Element> Matrix<T> {
    /// The integers that the cells stand for, as a grid of the same shape.
    pub open spec fn values(&self) -> Grid<int> {
        Grid {
            rows: self@.rows,
            cols: self@.cols,
            cells: Seq::new(self@.cells.len(), |k: int| self@.cells[k].value()),
        }
    }

    /// Whether the matrix is square with one on the diagonal and zero
    /// everywhere else.
    pub fn is_identity(&self) -> (identity: bool)
        ensures
            identity == self.values().is_identity(),
    {
        proof {
            use_type_invariant(self);
        }
        if self.row != self.col {
            return false;
        }
        let ghost grid = self.values();
        let mut i: usize = 0;
        while i < self.row
            invariant
                i <= self.row,
                self.row == self.col,
                self.data.len() == self.row * self.col,
                grid == self.values(),
                forall|p: int, q: int|
                    0 <= p < i && 0 <= q < self.col ==> #[trigger] grid.at(p, q) == (if p == q {
                        1int
                    } else {
                        0int
                    }),
            decreases self.row - i,
        {
            let mut j: usize = 0;
            while j < self.col
                invariant
                    i < self.row,
                    j <= self.col,
                    self.row == self.col,
                    self.data.len() == self.row * self.col,
                    grid == self.values(),
                    forall|p: int, q: int|
                        0 <= p < i && 0 <= q < self.col ==> #[trigger] grid.at(p, q) == (if p
                            == q {
                            1int
                        } else {
                            0int
                        }),
                    forall|q: int|
                        0 <= q < j ==> #[trigger] grid.at(i as int, q) == (if i as int == q {
                            1int
                        } else {
                            0int
                        }),
                decreases self.col - j,
            {
                proof {
                    lemma_offset_in_range(self.row as int, self.col as int, i as int, j as int);
                }
                let cell: i128 = self.data[i * self.col + j].to_wide();
                assert(cell == grid.at(i as int, j as int));
                if (i == j && cell != 1) || (i != j && cell != 0) {
                    assert(grid.has(i as int, j as int));
                    return false;
                }
                j += 1;
            }
            i += 1;
        }
        true
    }
}

impl<T> vstd::std_specs::core::IndexSpecImpl<(usize, usize)> for Matrix<T> {
    open spec fn index_req(&self, index: &(usize, usize)) -> bool {
        self@.has(index.0 as int, index.1 as int)
    }
}

impl<T> std::ops::Index<(usize, usize)> for Matrix<T> {
    type Output = T;

    /// The cell in row `index.0` and column `index.1`, which must lie
    /// within the matrix.
    fn index(&self, index: (usize, usize)) -> (cell: &T)
        ensures
            *cell == self@.at(index.0 as int, index.1 as int),
    {
        proof {
            use_type_invariant(self);
            lemma_offset_in_range(
                self.row as int,
                self.col as int,
                index.0 as int,
                index.1 as int,
            );
        }
        &self.data[index.0 * self.col + index.1]
    }
}

} // verus!
