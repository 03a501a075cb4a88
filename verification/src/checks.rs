use crate::element::Element;
use crate::grid::lemma_offset_in_range;
use crate::grid::Grid;
use crate::matrix::Matrix;
use vstd::prelude::*;

verus! {

/// Whether the first `n` terms of row `i` against column `j`, and each sum
/// of the first of them, lie between `lo` and `hi`.
pub open spec fn cell_within(
    a: Grid<int>,
    b: Grid<int>,
    i: int,
    j: int,
    n: int,
    lo: int,
    hi: int,
) -> bool {
    forall|k: int|
        0 <= k < n ==> lo <= #[trigger] a.term(b, i, j, k) <= hi && lo <= a.dot(b, i, j, k + 1)
            <= hi
}

impl<T: Element> Matrix<T> {

    /// Whether the sum with `rhs` exists, so that `rhs` can be added.
    pub fn can_add(&self, rhs: &Matrix<T>) -> (ok: bool)
        ensures
            ok == self.add_defined(rhs),
    {
        let (row, col) = self.shape();
        let (other_row, other_col) = rhs.shape();
        if row != other_row || col != other_col {
            return false;
        }
        let left = self.as_slice();
        let right = rhs.as_slice();
        let lo: i128 = T::lower();
        let hi: i128 = T::upper();
        let ghost target = self.values().plus(rhs.values());
        let mut k: usize = 0;
        while k < left.len()
            invariant
                k <= left@.len(),
                left@.len() == right@.len(),
                left@ == self@.cells,
                right@ == rhs@.cells,
                lo == T::min_value(),
                hi == T::max_value(),
                target == self.values().plus(rhs.values()),
                forall|i: int| 0 <= i < k ==> lo <= #[trigger] target.cells[i] <= hi,
            decreases left@.len() - k,
        {
            proof {
                T::lemma_bounds();
                left@[k as int].lemma_value_in_range();
                right@[k as int].lemma_value_in_range();
                assert(target.cells[k as int] == left@[k as int].value() + right@[k as int].value());
            }
            let cell: i128 = left[k].to_wide() + right[k].to_wide();
            if cell < lo || cell > hi {
                return false;
            }
            k += 1;
        }
        true
    }

    /// Whether the difference with `rhs` exists, so that `rhs` can be subtracted.
    pub fn can_sub(&self, rhs: &Matrix<T>) -> (ok: bool)
        ensures
            ok == self.sub_defined(rhs),
    {
        let (row, col) = self.shape();
        let (other_row, other_col) = rhs.shape();
        if row != other_row || col != other_col {
            return false;
        }
        let left = self.as_slice();
        let right = rhs.as_slice();
        let lo: i128 = T::lower();
        let hi: i128 = T::upper();
        let ghost target = self.values().minus(rhs.values());
        let mut k: usize = 0;
        while k < left.len()
            invariant
                k <= left@.len(),
                left@.len() == right@.len(),
                left@ == self@.cells,
                right@ == rhs@.cells,
                lo == T::min_value(),
                hi == T::max_value(),
                target == self.values().minus(rhs.values()),
                forall|i: int| 0 <= i < k ==> lo <= #[trigger] target.cells[i] <= hi,
            decreases left@.len() - k,
        {
            proof {
                T::lemma_bounds();
                left@[k as int].lemma_value_in_range();
                right@[k as int].lemma_value_in_range();
                assert(target.cells[k as int] == left@[k as int].value() - right@[k as int].value());
            }
            let cell: i128 = left[k].to_wide() - right[k].to_wide();
            if cell < lo || cell > hi {
                return false;
            }
            k += 1;
        }
        true
    }

    /// Whether the negation exists.
    pub fn can_neg(&self) -> (ok: bool)
        ensures
            ok == self.neg_defined(),
    {
        let cells = self.as_slice();
        let lo: i128 = T::lower();
        let hi: i128 = T::upper();
        let ghost target = self.values().negated();
        let mut k: usize = 0;
        while k < cells.len()
            invariant
                k <= cells@.len(),
                cells@ == self@.cells,
                lo == T::min_value(),
                hi == T::max_value(),
                target == self.values().negated(),
                forall|i: int| 0 <= i < k ==> lo <= #[trigger] target.cells[i] <= hi,
            decreases cells@.len() - k,
        {
            proof {
                T::lemma_bounds();
                cells@[k as int].lemma_value_in_range();
                assert(target.cells[k as int] == -cells@[k as int].value());
            }
            let cell: i128 = -cells[k].to_wide();
            if cell < lo || cell > hi {
                return false;
            }
            k += 1;
        }
        true
    }

    /// Whether the product with `rhs` exists, so that this matrix can be
    /// multiplied by `rhs`.
    pub fn can_mul(&self, rhs: &Matrix<T>) -> (ok: bool)
        ensures
            ok == self.mul_defined(rhs),
    {
        let (row, inner) = self.shape();
        let (other_row, col) = rhs.shape();
        if inner != other_row {
            return false;
        }
        if inner == 0 {
            return row == 0 || col == 0;
        }
        let left = self.as_slice();
        let right = rhs.as_slice();
        let lo: i128 = T::lower();
        let hi: i128 = T::upper();
        let ghost a = self.values();
        let ghost b = rhs.values();
        let mut i: usize = 0;
        while i < row
            invariant
                i <= row,
                row == self@.rows,
                inner == self@.cols,
                inner == rhs@.rows,
                col == rhs@.cols,
                inner > 0,
                left@ == self@.cells,
                right@ == rhs@.cells,
                left.len() == row * inner,
                right.len() == inner * col,
                lo == T::min_value(),
                hi == T::max_value(),
                a == self.values(),
                b == rhs.values(),
                forall|p: int, q: int|
                    0 <= p < i && 0 <= q < col ==> #[trigger] cell_within(
                        a,
                        b,
                        p,
                        q,
                        inner as int,
                        lo as int,
                        hi as int,
                    ),
            decreases row - i,
        {
            let mut j: usize = 0;
            while j < col
                invariant
                    i < row,
                    j <= col,
                    row == self@.rows,
                    inner == self@.cols,
                    inner == rhs@.rows,
                    col == rhs@.cols,
                    inner > 0,
                    left@ == self@.cells,
                    right@ == rhs@.cells,
                    left.len() == row * inner,
                    right.len() == inner * col,
                    lo == T::min_value(),
                    hi == T::max_value(),
                    a == self.values(),
                    b == rhs.values(),
                    forall|p: int, q: int|
                        0 <= p < i && 0 <= q < col ==> #[trigger] cell_within(
                            a,
                            b,
                            p,
                            q,
                            inner as int,
                            lo as int,
                            hi as int,
                        ),
                    forall|q: int|
                        0 <= q < j ==> #[trigger] cell_within(
                            a,
                            b,
                            i as int,
                            q,
                            inner as int,
                            lo as int,
                            hi as int,
                        ),
                decreases col - j,
            {
                proof {
                    T::lemma_bounds();
                }
                let mut sum: i128 = 0;
                let mut k: usize = 0;
                while k < inner
                    invariant
                        i < row,
                        j < col,
                        k <= inner,
                        row == self@.rows,
                        inner == self@.cols,
                        inner == rhs@.rows,
                        col == rhs@.cols,
                        left@ == self@.cells,
                        right@ == rhs@.cells,
                        left.len() == row * inner,
                        right.len() == inner * col,
                        lo == T::min_value(),
                        hi == T::max_value(),
                        a == self.values(),
                        b == rhs.values(),
                        sum == a.dot(b, i as int, j as int, k as int),
                        lo <= sum <= hi,
                        cell_within(a, b, i as int, j as int, k as int, lo as int, hi as int),
                    decreases inner - k,
                {
                    proof {
                        T::lemma_bounds();
                        lemma_offset_in_range(row as int, inner as int, i as int, k as int);
                        lemma_offset_in_range(inner as int, col as int, k as int, j as int);
                        left@[i * inner + k].lemma_value_in_range();
                        right@[k * col + j].lemma_value_in_range();
                        assert(a.term(b, i as int, j as int, k as int) == left@[i * inner
                            + k].value() * right@[k * col + j].value());
                        assert(a.dot(b, i as int, j as int, k + 1) == a.dot(
                            b,
                            i as int,
                            j as int,
                            k as int,
                        ) + a.term(b, i as int, j as int, k as int));
                    }
                    let x: i128 = left[i * inner + k].to_wide();
                    let y: i128 = right[k * col + j].to_wide();
                    match x.checked_mul(y) {
                        Some(term) => {
                            if term < lo || term > hi {
                                return false;
                            }
                            sum = sum + term;
                            if sum < lo || sum > hi {
                                assert(!(lo <= a.dot(b, i as int, j as int, k + 1) <= hi));
                                return false;
                            }
                        },
                        None => {
                            assert(!(lo <= a.term(b, i as int, j as int, k as int) <= hi));
                            return false;
                        },
                    }
                    k += 1;
                }
                j += 1;
            }
            i += 1;
        }
        proof {
            assert forall|p: int, q: int, k: int|
                0 <= p < a.rows && 0 <= q < b.cols && 0 <= k < a.cols implies lo
                <= #[trigger] a.term(b, p, q, k) <= hi by {
                assert(cell_within(a, b, p, q, inner as int, lo as int, hi as int));
            }
            assert forall|p: int, q: int, n: int|
                0 <= p < a.rows && 0 <= q < b.cols && 1 <= n <= a.cols implies lo
                <= #[trigger] a.dot(b, p, q, n) <= hi by {
                assert(cell_within(a, b, p, q, inner as int, lo as int, hi as int));
                assert(lo <= a.term(b, p, q, n - 1) <= hi);
            }
        }
        true
    }

    /// Whether `scalar` can be added to every cell.
    pub fn can_add_scalar(&self, scalar: T) -> (ok: bool)
        ensures
            ok == self.add_scalar_defined(scalar),
    {
        let cells = self.as_slice();
        let lo: i128 = T::lower();
        let hi: i128 = T::upper();
        let wide: i128 = scalar.to_wide();
        let ghost target = self.values().plus_scalar(scalar.value());
        let mut k: usize = 0;
        while k < cells.len()
            invariant
                k <= cells@.len(),
                cells@ == self@.cells,
                lo == T::min_value(),
                hi == T::max_value(),
                wide == scalar.value(),
                target == self.values().plus_scalar(scalar.value()),
                forall|i: int| 0 <= i < k ==> lo <= #[trigger] target.cells[i] <= hi,
            decreases cells@.len() - k,
        {
            proof {
                T::lemma_bounds();
                cells@[k as int].lemma_value_in_range();
                scalar.lemma_value_in_range();
                assert(target.cells[k as int] == cells@[k as int].value() + scalar.value());
            }
            let cell: i128 = cells[k].to_wide() + wide;
            if cell < lo || cell > hi {
                return false;
            }
            k += 1;
        }
        true
    }

    /// Whether `scalar` can be subtracted from every cell.
    pub fn can_sub_scalar(&self, scalar: T) -> (ok: bool)
        ensures
            ok == self.sub_scalar_defined(scalar),
    {
        let cells = self.as_slice();
        let lo: i128 = T::lower();
        let hi: i128 = T::upper();
        let wide: i128 = scalar.to_wide();
        let ghost target = self.values().minus_scalar(scalar.value());
        let mut k: usize = 0;
        while k < cells.len()
            invariant
                k <= cells@.len(),
                cells@ == self@.cells,
                lo == T::min_value(),
                hi == T::max_value(),
                wide == scalar.value(),
                target == self.values().minus_scalar(scalar.value()),
                forall|i: int| 0 <= i < k ==> lo <= #[trigger] target.cells[i] <= hi,
            decreases cells@.len() - k,
        {
            proof {
                T::lemma_bounds();
                cells@[k as int].lemma_value_in_range();
                scalar.lemma_value_in_range();
                assert(target.cells[k as int] == cells@[k as int].value() - scalar.value());
            }
            let cell: i128 = cells[k].to_wide() - wide;
            if cell < lo || cell > hi {
                return false;
            }
            k += 1;
        }
        true
    }

    /// Whether `scalar` can be multiplied with every cell.
    pub fn can_mul_scalar(&self, scalar: T) -> (ok: bool)
        ensures
            ok == self.mul_scalar_defined(scalar),
    {
        let cells = self.as_slice();
        let lo: i128 = T::lower();
        let hi: i128 = T::upper();
        let wide: i128 = scalar.to_wide();
        let ghost target = self.values().times_scalar(scalar.value());
        let mut k: usize = 0;
        while k < cells.len()
            invariant
                k <= cells@.len(),
                cells@ == self@.cells,
                lo == T::min_value(),
                hi == T::max_value(),
                wide == scalar.value(),
                target == self.values().times_scalar(scalar.value()),
                forall|i: int| 0 <= i < k ==> lo <= #[trigger] target.cells[i] <= hi,
            decreases cells@.len() - k,
        {
            proof {
                T::lemma_bounds();
                cells@[k as int].lemma_value_in_range();
                scalar.lemma_value_in_range();
                assert(target.cells[k as int] == cells@[k as int].value() * scalar.value());
            }
            match cells[k].to_wide().checked_mul(wide) {
                Some(cell) => {
                    if cell < lo || cell > hi {
                        return false;
                    }
                },
                None => {
                    return false;
                },
            }
            k += 1;
        }
        true
    }
}

} // verus!
