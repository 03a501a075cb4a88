use crate::element::Element;
use crate::grid::lemma_offset_in_range;
use crate::grid::lemma_offset_split;
use crate::grid::lemma_plus_then_minus;
use crate::matrix::Matrix;
use std::ops::Add;
use std::ops::Mul;
use std::ops::Neg;
use std::ops::Sub;
use vstd::prelude::*;
use vstd::std_specs::ops::AddSpecImpl;
use vstd::std_specs::ops::MulSpecImpl;
use vstd::std_specs::ops::NegSpecImpl;
use vstd::std_specs::ops::SubSpecImpl;

verus! {

impl<T: Element> Matrix<T> {
    /// Whether the sum with `rhs` exists: both matrices have the same
    /// shape and every cell of the sum fits the element kind.
    pub open spec fn add_defined(&self, rhs: &Matrix<T>) -> bool {
        &&& self@.same_shape(rhs@)
        &&& self.values().plus(rhs.values()).within(T::min_value(), T::max_value())
    }

    /// Whether the difference with `rhs` exists: both matrices have the
    /// same shape and every cell of the difference fits the element kind.
    pub open spec fn sub_defined(&self, rhs: &Matrix<T>) -> bool {
        &&& self@.same_shape(rhs@)
        &&& self.values().minus(rhs.values()).within(T::min_value(), T::max_value())
    }

    /// Whether the negation exists: every negated cell fits the element
    /// kind.
    pub open spec fn neg_defined(&self) -> bool {
        self.values().negated().within(T::min_value(), T::max_value())
    }

    /// Whether the product with `rhs` exists: this matrix has as many
    /// columns as `rhs` has rows, at least one where the product has a cell
    /// at all, and every term and every partial sum of a cell of the
    /// product fits the element kind.
    pub open spec fn mul_defined(&self, rhs: &Matrix<T>) -> bool {
        &&& self@.cols == rhs@.rows
        &&& self@.cols > 0 || self@.rows == 0 || rhs@.cols == 0
        &&& self.values().times_within(rhs.values(), T::min_value(), T::max_value())
    }

    /// Whether `scalar` can be added to every cell.
    pub open spec fn add_scalar_defined(&self, scalar: T) -> bool {
        self.values().plus_scalar(scalar.value()).within(T::min_value(), T::max_value())
    }

    /// Whether `scalar` can be subtracted from every cell.
    pub open spec fn sub_scalar_defined(&self, scalar: T) -> bool {
        self.values().minus_scalar(scalar.value()).within(T::min_value(), T::max_value())
    }

    /// Whether every cell can be multiplied by `scalar`.
    pub open spec fn mul_scalar_defined(&self, scalar: T) -> bool {
        self.values().times_scalar(scalar.value()).within(T::min_value(), T::max_value())
    }
}

impl<'a, T: Element> AddSpecImpl<&'a Matrix<T>> for &'a Matrix<T> {
    open spec fn obeys_add_spec() -> bool {
        false
    }

    open spec fn add_req(self, rhs: &'a Matrix<T>) -> bool {
        self.add_defined(rhs)
    }

    open spec fn add_spec(self, rhs: &'a Matrix<T>) -> Matrix<T> {
        choose|out: Matrix<T>| out.values() == self.values().plus(rhs.values())
    }
}

impl<'a, T: Element> Add<&'a Matrix<T>> for &'a Matrix<T> {
    type Output = Matrix<T>;

    /// The cellwise sum of two matrices of the same shape.
    fn add(self, rhs: &'a Matrix<T>) -> (out: Matrix<T>)
        ensures
            out.values() == self.values().plus(rhs.values()),
    {
        let (row, col) = self.shape();
        let left = self.as_slice();
        let right = rhs.as_slice();
        let ghost target = self.values().plus(rhs.values());
        let mut data: Vec<T> = Vec::new();
        let mut k: usize = 0;
        while k < left.len()
            invariant
                k <= left@.len(),
                left@.len() == right@.len(),
                left@ == self@.cells,
                right@ == rhs@.cells,
                target == self.values().plus(rhs.values()),
                target.within(T::min_value(), T::max_value()),
                data@.len() == k,
                forall|i: int| 0 <= i < k ==> #[trigger] data@[i].value() == target.cells[i],
            decreases left@.len() - k,
        {
            proof {
                T::lemma_bounds();
                left@[k as int].lemma_value_in_range();
                right@[k as int].lemma_value_in_range();
                assert(target.cells[k as int] == left@[k as int].value() + right@[k as int].value());
            }
            let cell: i128 = left[k].to_wide() + right[k].to_wide();
            data.push(T::from_wide(cell));
            k += 1;
        }
        let out = Matrix::from_vec(row, col, data);
        assert(out.values().cells =~= target.cells);
        out
    }
}

impl<'a, T: Element> AddSpecImpl<&'a T> for &'a Matrix<T> {
    open spec fn obeys_add_spec() -> bool {
        false
    }

    open spec fn add_req(self, rhs: &'a T) -> bool {
        self.add_scalar_defined(*rhs)
    }

    open spec fn add_spec(self, rhs: &'a T) -> Matrix<T> {
        choose|out: Matrix<T>| out.values() == self.values().plus_scalar(rhs.value())
    }
}

impl<'a, T: Element> Add<&'a T> for &'a Matrix<T> {
    type Output = Matrix<T>;

    /// The matrix of the same shape with `rhs` added to every cell.
    fn add(self, rhs: &'a T) -> (out: Matrix<T>)
        ensures
            out.values() == self.values().plus_scalar(rhs.value()),
    {
        let (row, col) = self.shape();
        let left = self.as_slice();
        let scalar: i128 = rhs.to_wide();
        let ghost target = self.values().plus_scalar(rhs.value());
        let mut data: Vec<T> = Vec::new();
        let mut k: usize = 0;
        while k < left.len()
            invariant
                k <= left@.len(),
                left@ == self@.cells,
                scalar == rhs.value(),
                target == self.values().plus_scalar(rhs.value()),
                target.within(T::min_value(), T::max_value()),
                data@.len() == k,
                forall|i: int| 0 <= i < k ==> #[trigger] data@[i].value() == target.cells[i],
            decreases left@.len() - k,
        {
            proof {
                T::lemma_bounds();
                left@[k as int].lemma_value_in_range();
                rhs.lemma_value_in_range();
                assert(target.cells[k as int] == left@[k as int].value() + rhs.value());
            }
            let cell: i128 = left[k].to_wide() + scalar;
            data.push(T::from_wide(cell));
            k += 1;
        }
        let out = Matrix::from_vec(row, col, data);
        assert(out.values().cells =~= target.cells);
        out
    }
}

impl<'a, T: Element> SubSpecImpl<&'a Matrix<T>> for &'a Matrix<T> {
    open spec fn obeys_sub_spec() -> bool {
        false
    }

    open spec fn sub_req(self, rhs: &'a Matrix<T>) -> bool {
        self.sub_defined(rhs)
    }

    open spec fn sub_spec(self, rhs: &'a Matrix<T>) -> Matrix<T> {
        choose|out: Matrix<T>| out.values() == self.values().minus(rhs.values())
    }
}

impl<'a, T: Element> Sub<&'a Matrix<T>> for &'a Matrix<T> {
    type Output = Matrix<T>;

    /// The cellwise difference of two matrices of the same shape.
    fn sub(self, rhs: &'a Matrix<T>) -> (out: Matrix<T>)
        ensures
            out.values() == self.values().minus(rhs.values()),
    {
        let (row, col) = self.shape();
        let left = self.as_slice();
        let right = rhs.as_slice();
        let ghost target = self.values().minus(rhs.values());
        let mut data: Vec<T> = Vec::new();
        let mut k: usize = 0;
        while k < left.len()
            invariant
                k <= left@.len(),
                left@.len() == right@.len(),
                left@ == self@.cells,
                right@ == rhs@.cells,
                target == self.values().minus(rhs.values()),
                target.within(T::min_value(), T::max_value()),
                data@.len() == k,
                forall|i: int| 0 <= i < k ==> #[trigger] data@[i].value() == target.cells[i],
            decreases left@.len() - k,
        {
            proof {
                T::lemma_bounds();
                left@[k as int].lemma_value_in_range();
                right@[k as int].lemma_value_in_range();
                assert(target.cells[k as int] == left@[k as int].value() - right@[k as int].value());
            }
            let cell: i128 = left[k].to_wide() - right[k].to_wide();
            data.push(T::from_wide(cell));
            k += 1;
        }
        let out = Matrix::from_vec(row, col, data);
        assert(out.values().cells =~= target.cells);
        out
    }
}

impl<'a, T: Element> SubSpecImpl<&'a T> for &'a Matrix<T> {
    open spec fn obeys_sub_spec() -> bool {
        false
    }

    open spec fn sub_req(self, rhs: &'a T) -> bool {
        self.sub_scalar_defined(*rhs)
    }

    open spec fn sub_spec(self, rhs: &'a T) -> Matrix<T> {
        choose|out: Matrix<T>| out.values() == self.values().minus_scalar(rhs.value())
    }
}

impl<'a, T: Element> Sub<&'a T> for &'a Matrix<T> {
    type Output = Matrix<T>;

    /// The matrix of the same shape with `rhs` subtracted from every cell.
    fn sub(self, rhs: &'a T) -> (out: Matrix<T>)
        ensures
            out.values() == self.values().minus_scalar(rhs.value()),
    {
        let (row, col) = self.shape();
        let left = self.as_slice();
        let scalar: i128 = rhs.to_wide();
        let ghost target = self.values().minus_scalar(rhs.value());
        let mut data: Vec<T> = Vec::new();
        let mut k: usize = 0;
        while k < left.len()
            invariant
                k <= left@.len(),
                left@ == self@.cells,
                scalar == rhs.value(),
                target == self.values().minus_scalar(rhs.value()),
                target.within(T::min_value(), T::max_value()),
                data@.len() == k,
                forall|i: int| 0 <= i < k ==> #[trigger] data@[i].value() == target.cells[i],
            decreases left@.len() - k,
        {
            proof {
                T::lemma_bounds();
                left@[k as int].lemma_value_in_range();
                rhs.lemma_value_in_range();
                assert(target.cells[k as int] == left@[k as int].value() - rhs.value());
            }
            let cell: i128 = left[k].to_wide() - scalar;
            data.push(T::from_wide(cell));
            k += 1;
        }
        let out = Matrix::from_vec(row, col, data);
        assert(out.values().cells =~= target.cells);
        out
    }
}

impl<'a, T: Element> NegSpecImpl for &'a Matrix<T> {
    open spec fn obeys_neg_spec() -> bool {
        false
    }

    open spec fn neg_req(self) -> bool {
        self.neg_defined()
    }

    open spec fn neg_spec(self) -> Matrix<T> {
        choose|out: Matrix<T>| out.values() == self.values().negated()
    }
}

impl<'a, T: Element> Neg for &'a Matrix<T> {
    type Output = Matrix<T>;

    /// The matrix of the same shape with every cell negated.
    fn neg(self) -> (out: Matrix<T>)
        ensures
            out.values() == self.values().negated(),
    {
        let (row, col) = self.shape();
        let cells = self.as_slice();
        let ghost target = self.values().negated();
        let mut data: Vec<T> = Vec::new();
        let mut k: usize = 0;
        while k < cells.len()
            invariant
                k <= cells@.len(),
                cells@ == self@.cells,
                target == self.values().negated(),
                target.within(T::min_value(), T::max_value()),
                data@.len() == k,
                forall|i: int| 0 <= i < k ==> #[trigger] data@[i].value() == target.cells[i],
            decreases cells@.len() - k,
        {
            proof {
                T::lemma_bounds();
                cells@[k as int].lemma_value_in_range();
                assert(target.cells[k as int] == -cells@[k as int].value());
            }
            let cell: i128 = -cells[k].to_wide();
            data.push(T::from_wide(cell));
            k += 1;
        }
        let out = Matrix::from_vec(row, col, data);
        assert(out.values().cells =~= target.cells);
        out
    }
}

impl<T: Element> NegSpecImpl for Matrix<T> {
    open spec fn obeys_neg_spec() -> bool {
        false
    }

    open spec fn neg_req(self) -> bool {
        self.neg_defined()
    }

    open spec fn neg_spec(self) -> Matrix<T> {
        choose|out: Matrix<T>| out.values() == self.values().negated()
    }
}

impl<T: Element> Neg for Matrix<T> {
    type Output = Matrix<T>;

    /// The matrix of the same shape with every cell negated.
    fn neg(self) -> (out: Matrix<T>)
        ensures
            out.values() == self.values().negated(),
    {
        (&self).neg()
    }
}

impl<'a, T: Element> MulSpecImpl<&'a Matrix<T>> for &'a Matrix<T> {
    open spec fn obeys_mul_spec() -> bool {
        false
    }

    open spec fn mul_req(self, rhs: &'a Matrix<T>) -> bool {
        self.mul_defined(rhs)
    }

    open spec fn mul_spec(self, rhs: &'a Matrix<T>) -> Matrix<T> {
        choose|out: Matrix<T>| out.values() == self.values().times(rhs.values())
    }
}

impl<'a, T: Element> Mul<&'a Matrix<T>> for &'a Matrix<T> {
    type Output = Matrix<T>;

    /// The algebraic product. Each cell is accumulated over the shared
    /// dimension in ascending order, starting from the first term.
    fn mul(self, rhs: &'a Matrix<T>) -> (out: Matrix<T>)
        ensures
            out.values() == self.values().times(rhs.values()),
    {
        let (row, inner) = self.shape();
        let (_, col) = rhs.shape();
        let left = self.as_slice();
        let right = rhs.as_slice();
        let ghost a = self.values();
        let ghost b = rhs.values();
        let ghost target = a.times(b);
        let mut data: Vec<T> = Vec::new();
        let mut i: usize = 0;
        while i < row
            invariant
                i <= row,
                row == self@.rows,
                inner == self@.cols,
                inner == rhs@.rows,
                col == rhs@.cols,
                self.mul_defined(rhs),
                left@ == self@.cells,
                right@ == rhs@.cells,
                left.len() == row * inner,
                right.len() == inner * col,
                a == self.values(),
                b == rhs.values(),
                target == a.times(b),
                data@.len() == i * col,
                forall|p: int| 0 <= p < data@.len() ==> #[trigger] data@[p].value() == target.cells[p],
            decreases row - i,
        {
            let mut j: usize = 0;
            while j < col
                invariant
                    i < row,
                    j <= col,
                    row == self@.rows,
                    inner == self@.cols,
                    inner == rhs@.rows,
                    col == rhs@.cols,
                    self.mul_defined(rhs),
                    left@ == self@.cells,
                    right@ == rhs@.cells,
                    left.len() == row * inner,
                    right.len() == inner * col,
                    a == self.values(),
                    b == rhs.values(),
                    target == a.times(b),
                    data@.len() == i * col + j,
                    forall|p: int|
                        0 <= p < data@.len() ==> #[trigger] data@[p].value() == target.cells[p],
                decreases col - j,
            {
                proof {
                    T::lemma_bounds();
                    lemma_offset_in_range(row as int, inner as int, i as int, 0);
                    lemma_offset_in_range(inner as int, col as int, 0, j as int);
                    assert(a.term(b, i as int, j as int, 0) == left@[i * inner].value()
                        * right@[j as int].value());
                    assert(a.dot(b, i as int, j as int, 1) == a.dot(b, i as int, j as int, 0)
                        + a.term(b, i as int, j as int, 0));
                }
                let mut cell: i128 = left[i * inner].to_wide() * right[j].to_wide();
                let mut k: usize = 1;
                while k < inner
                    invariant
                        i < row,
                        j < col,
                        1 <= k <= inner,
                        row == self@.rows,
                        inner == self@.cols,
                        inner == rhs@.rows,
                        col == rhs@.cols,
                        self.mul_defined(rhs),
                        left@ == self@.cells,
                        right@ == rhs@.cells,
                        left.len() == row * inner,
                        right.len() == inner * col,
                        a == self.values(),
                        b == rhs.values(),
                        cell == a.dot(b, i as int, j as int, k as int),
                    decreases inner - k,
                {
                    proof {
                        T::lemma_bounds();
                        lemma_offset_in_range(row as int, inner as int, i as int, k as int);
                        lemma_offset_in_range(inner as int, col as int, k as int, j as int);
                        assert(a.term(b, i as int, j as int, k as int) == left@[i * inner
                            + k].value() * right@[k * col + j].value());
                        assert(a.dot(b, i as int, j as int, k + 1) == a.dot(
                            b,
                            i as int,
                            j as int,
                            k as int,
                        ) + a.term(b, i as int, j as int, k as int));
                    }
                    let term: i128 = left[i * inner + k].to_wide() * right[k * col + j].to_wide();
                    cell = cell + term;
                    k += 1;
                }
                proof {
                    lemma_offset_split(col as int, i as int, j as int);
                    lemma_offset_in_range(row as int, col as int, i as int, j as int);
                    assert(target.cells[i * col + j] == a.dot(
                        b,
                        i as int,
                        j as int,
                        inner as int,
                    ));
                }
                data.push(T::from_wide(cell));
                j += 1;
            }
            proof {
                assert((i + 1) * col == i * col + col) by (nonlinear_arith);
            }
            i += 1;
        }
        let out = Matrix::from_vec(row, col, data);
        assert(out.values().cells =~= target.cells);
        out
    }
}

impl<'a, T: Element> MulSpecImpl<&'a T> for &'a Matrix<T> {
    open spec fn obeys_mul_spec() -> bool {
        false
    }

    open spec fn mul_req(self, rhs: &'a T) -> bool {
        self.mul_scalar_defined(*rhs)
    }

    open spec fn mul_spec(self, rhs: &'a T) -> Matrix<T> {
        choose|out: Matrix<T>| out.values() == self.values().times_scalar(rhs.value())
    }
}

impl<'a, T: Element> Mul<&'a T> for &'a Matrix<T> {
    type Output = Matrix<T>;

    /// The matrix of the same shape with every cell multiplied by `rhs`.
    fn mul(self, rhs: &'a T) -> (out: Matrix<T>)
        ensures
            out.values() == self.values().times_scalar(rhs.value()),
    {
        let (row, col) = self.shape();
        let left = self.as_slice();
        let scalar: i128 = rhs.to_wide();
        let ghost target = self.values().times_scalar(rhs.value());
        let mut data: Vec<T> = Vec::new();
        let mut k: usize = 0;
        while k < left.len()
            invariant
                k <= left@.len(),
                left@ == self@.cells,
                scalar == rhs.value(),
                target == self.values().times_scalar(rhs.value()),
                target.within(T::min_value(), T::max_value()),
                data@.len() == k,
                forall|i: int| 0 <= i < k ==> #[trigger] data@[i].value() == target.cells[i],
            decreases left@.len() - k,
        {
            proof {
                T::lemma_bounds();
                left@[k as int].lemma_value_in_range();
                rhs.lemma_value_in_range();
                assert(target.cells[k as int] == left@[k as int].value() * rhs.value());
            }
            let cell: i128 = left[k].to_wide() * scalar;
            data.push(T::from_wide(cell));
            k += 1;
        }
        let out = Matrix::from_vec(row, col, data);
        assert(out.values().cells =~= target.cells);
        out
    }
}

/// Matrices that stand for the same grid of integers have the same cells.
pub proof fn lemma_values_injective<T: Element>(a: Matrix<T>, b: Matrix<T>)
    requires
        a.values() == b.values(),
    ensures
        a@ == b@,
{
    assert(a@.cells.len() == a.values().cells.len());
    assert(b@.cells.len() == b.values().cells.len());
    assert forall|k: int| 0 <= k < a@.cells.len() implies a@.cells[k] == b@.cells[k] by {
        assert(a.values().cells[k] == a@.cells[k].value());
        assert(b.values().cells[k] == b@.cells[k].value());
        a@.cells[k].lemma_value_injective(b@.cells[k]);
    }
    assert(a@.cells =~= b@.cells);
    assert(a.values().rows == b.values().rows);
    assert(a.values().cols == b.values().cols);
}

/// Subtracting again what was added gives the first matrix back: where
/// `sum` is `a + b` for two matrices of the same shape, `sum - b` exists,
/// and a matrix `diff` that is `sum - b` has the cells of `a`.
pub proof fn lemma_add_then_sub<T: Element>(
    a: Matrix<T>,
    b: Matrix<T>,
    sum: Matrix<T>,
    diff: Matrix<T>,
)
    requires
        a@.same_shape(b@),
        sum.values() == a.values().plus(b.values()),
        diff.values() == sum.values().minus(b.values()),
    ensures
        sum.sub_defined(&b),
        diff@ == a@,
{
    lemma_plus_then_minus(a.values(), b.values());
    assert(sum@.rows == sum.values().rows);
    assert(sum@.cols == sum.values().cols);
    assert forall|k: int| 0 <= k < a.values().cells.len() implies T::min_value()
        <= #[trigger] a.values().cells[k] <= T::max_value() by {
        a@.cells[k].lemma_value_in_range();
    }
    lemma_values_injective(diff, a);
}

} // verus!
