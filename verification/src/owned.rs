use crate::element::Element;
use crate::matrix::Matrix;
use std::ops::Add;
use std::ops::Mul;
use std::ops::Sub;
use vstd::prelude::*;
use vstd::std_specs::ops::AddSpecImpl;
use vstd::std_specs::ops::MulSpecImpl;
use vstd::std_specs::ops::SubSpecImpl;

verus! {

impl<'a, T: Element> AddSpecImpl<&'a Matrix<T>> for Matrix<T> {
    open spec fn obeys_add_spec() -> bool {
        false
    }

    open spec fn add_req(self, rhs: &'a Matrix<T>) -> bool {
        self.add_defined(rhs)
    }

    open spec fn add_spec(self, rhs: &'a Matrix<T>) -> Matrix<T> {
        choose|out: Matrix<T>| out.values() == self.values().plus(rhs.values())
    }
}

impl<'a, T: Element> Add<&'a Matrix<T>> for Matrix<T> {
    type Output = Matrix<T>;

    /// The sum of an owned matrix and a borrowed one.
    fn add(self, rhs: &'a Matrix<T>) -> (out: Matrix<T>)
        ensures
            out.values() == self.values().plus(rhs.values()),
    {
        (&self).add(rhs)
    }
}

impl<'a, T: Element> AddSpecImpl<Matrix<T>> for &'a Matrix<T> {
    open spec fn obeys_add_spec() -> bool {
        false
    }

    open spec fn add_req(self, rhs: Matrix<T>) -> bool {
        self.add_defined(&rhs)
    }

    open spec fn add_spec(self, rhs: Matrix<T>) -> Matrix<T> {
        choose|out: Matrix<T>| out.values() == self.values().plus(rhs.values())
    }
}

impl<'a, T: Element> Add<Matrix<T>> for &'a Matrix<T> {
    type Output = Matrix<T>;

    /// The sum of a borrowed matrix and an owned one.
    fn add(self, rhs: Matrix<T>) -> (out: Matrix<T>)
        ensures
            out.values() == self.values().plus(rhs.values()),
    {
        self.add(&rhs)
    }
}

impl<T: Element> AddSpecImpl<Matrix<T>> for Matrix<T> {
    open spec fn obeys_add_spec() -> bool {
        false
    }

    open spec fn add_req(self, rhs: Matrix<T>) -> bool {
        self.add_defined(&rhs)
    }

    open spec fn add_spec(self, rhs: Matrix<T>) -> Matrix<T> {
        choose|out: Matrix<T>| out.values() == self.values().plus(rhs.values())
    }
}

impl<T: Element> Add<Matrix<T>> for Matrix<T> {
    type Output = Matrix<T>;

    /// The sum of two owned matrices.
    fn add(self, rhs: Matrix<T>) -> (out: Matrix<T>)
        ensures
            out.values() == self.values().plus(rhs.values()),
    {
        (&self).add(&rhs)
    }
}

impl<'a, T: Element> AddSpecImpl<&'a T> for Matrix<T> {
    open spec fn obeys_add_spec() -> bool {
        false
    }

    open spec fn add_req(self, rhs: &'a T) -> bool {
        self.add_scalar_defined(*rhs)
    }

    open spec fn add_spec(self, rhs: &'a T) -> Matrix<T> {
        choose|out: Matrix<T>| out.values() == self.values().plus_scalar(rhs.value())
    }
}

impl<'a, T: Element> Add<&'a T> for Matrix<T> {
    type Output = Matrix<T>;

    /// Every cell of an owned matrix increased by a borrowed scalar.
    fn add(self, rhs: &'a T) -> (out: Matrix<T>)
        ensures
            out.values() == self.values().plus_scalar(rhs.value()),
    {
        (&self).add(rhs)
    }
}

impl<'a, T: Element> AddSpecImpl<T> for &'a Matrix<T> {
    open spec fn obeys_add_spec() -> bool {
        false
    }

    open spec fn add_req(self, rhs: T) -> bool {
        self.add_scalar_defined(rhs)
    }

    open spec fn add_spec(self, rhs: T) -> Matrix<T> {
        choose|out: Matrix<T>| out.values() == self.values().plus_scalar(rhs.value())
    }
}

impl<'a, T: Element> Add<T> for &'a Matrix<T> {
    type Output = Matrix<T>;

    /// Every cell of a borrowed matrix increased by an owned scalar.
    fn add(self, rhs: T) -> (out: Matrix<T>)
        ensures
            out.values() == self.values().plus_scalar(rhs.value()),
    {
        self.add(&rhs)
    }
}

impl<T: Element> AddSpecImpl<T> for Matrix<T> {
    open spec fn obeys_add_spec() -> bool {
        false
    }

    open spec fn add_req(self, rhs: T) -> bool {
        self.add_scalar_defined(rhs)
    }

    open spec fn add_spec(self, rhs: T) -> Matrix<T> {
        choose|out: Matrix<T>| out.values() == self.values().plus_scalar(rhs.value())
    }
}

impl<T: Element> Add<T> for Matrix<T> {
    type Output = Matrix<T>;

    /// Every cell of an owned matrix increased by an owned scalar.
    fn add(self, rhs: T) -> (out: Matrix<T>)
        ensures
            out.values() == self.values().plus_scalar(rhs.value()),
    {
        (&self).add(&rhs)
    }
}

impl<'a, T: Element> SubSpecImpl<&'a Matrix<T>> for Matrix<T> {
    open spec fn obeys_sub_spec() -> bool {
        false
    }

    open spec fn sub_req(self, rhs: &'a Matrix<T>) -> bool {
        self.sub_defined(rhs)
    }

    open spec fn sub_spec(self, rhs: &'a Matrix<T>) -> Matrix<T> {
        choose|out: Matrix<T>| out.values() == self.values().minus(rhs.values())
    }
}

impl<'a, T: Element> Sub<&'a Matrix<T>> for Matrix<T> {
    type Output = Matrix<T>;

    /// The difference of an owned matrix and a borrowed one.
    fn sub(self, rhs: &'a Matrix<T>) -> (out: Matrix<T>)
        ensures
            out.values() == self.values().minus(rhs.values()),
    {
        (&self).sub(rhs)
    }
}

impl<'a, T: Element> SubSpecImpl<Matrix<T>> for &'a Matrix<T> {
    open spec fn obeys_sub_spec() -> bool {
        false
    }

    open spec fn sub_req(self, rhs: Matrix<T>) -> bool {
        self.sub_defined(&rhs)
    }

    open spec fn sub_spec(self, rhs: Matrix<T>) -> Matrix<T> {
        choose|out: Matrix<T>| out.values() == self.values().minus(rhs.values())
    }
}

impl<'a, T: Element> Sub<Matrix<T>> for &'a Matrix<T> {
    type Output = Matrix<T>;

    /// The difference of a borrowed matrix and an owned one.
    fn sub(self, rhs: Matrix<T>) -> (out: Matrix<T>)
        ensures
            out.values() == self.values().minus(rhs.values()),
    {
        self.sub(&rhs)
    }
}

impl<T: Element> SubSpecImpl<Matrix<T>> for Matrix<T> {
    open spec fn obeys_sub_spec() -> bool {
        false
    }

    open spec fn sub_req(self, rhs: Matrix<T>) -> bool {
        self.sub_defined(&rhs)
    }

    open spec fn sub_spec(self, rhs: Matrix<T>) -> Matrix<T> {
        choose|out: Matrix<T>| out.values() == self.values().minus(rhs.values())
    }
}

impl<T: Element> Sub<Matrix<T>> for Matrix<T> {
    type Output = Matrix<T>;

    /// The difference of two owned matrices.
    fn sub(self, rhs: Matrix<T>) -> (out: Matrix<T>)
        ensures
            out.values() == self.values().minus(rhs.values()),
    {
        (&self).sub(&rhs)
    }
}

impl<'a, T: Element> SubSpecImpl<&'a T> for Matrix<T> {
    open spec fn obeys_sub_spec() -> bool {
        false
    }

    open spec fn sub_req(self, rhs: &'a T) -> bool {
        self.sub_scalar_defined(*rhs)
    }

    open spec fn sub_spec(self, rhs: &'a T) -> Matrix<T> {
        choose|out: Matrix<T>| out.values() == self.values().minus_scalar(rhs.value())
    }
}

impl<'a, T: Element> Sub<&'a T> for Matrix<T> {
    type Output = Matrix<T>;

    /// Every cell of an owned matrix decreased by a borrowed scalar.
    fn sub(self, rhs: &'a T) -> (out: Matrix<T>)
        ensures
            out.values() == self.values().minus_scalar(rhs.value()),
    {
        (&self).sub(rhs)
    }
}

impl<'a, T: Element> SubSpecImpl<T> for &'a Matrix<T> {
    open spec fn obeys_sub_spec() -> bool {
        false
    }

    open spec fn sub_req(self, rhs: T) -> bool {
        self.sub_scalar_defined(rhs)
    }

    open spec fn sub_spec(self, rhs: T) -> Matrix<T> {
        choose|out: Matrix<T>| out.values() == self.values().minus_scalar(rhs.value())
    }
}

impl<'a, T: Element> Sub<T> for &'a Matrix<T> {
    type Output = Matrix<T>;

    /// Every cell of a borrowed matrix decreased by an owned scalar.
    fn sub(self, rhs: T) -> (out: Matrix<T>)
        ensures
            out.values() == self.values().minus_scalar(rhs.value()),
    {
        self.sub(&rhs)
    }
}

impl<T: Element> SubSpecImpl<T> for Matrix<T> {
    open spec fn obeys_sub_spec() -> bool {
        false
    }

    open spec fn sub_req(self, rhs: T) -> bool {
        self.sub_scalar_defined(rhs)
    }

    open spec fn sub_spec(self, rhs: T) -> Matrix<T> {
        choose|out: Matrix<T>| out.values() == self.values().minus_scalar(rhs.value())
    }
}

impl<T: Element> Sub<T> for Matrix<T> {
    type Output = Matrix<T>;

    /// Every cell of an owned matrix decreased by an owned scalar.
    fn sub(self, rhs: T) -> (out: Matrix<T>)
        ensures
            out.values() == self.values().minus_scalar(rhs.value()),
    {
        (&self).sub(&rhs)
    }
}

impl<'a, T: Element> MulSpecImpl<&'a Matrix<T>> for Matrix<T> {
    open spec fn obeys_mul_spec() -> bool {
        false
    }

    open spec fn mul_req(self, rhs: &'a Matrix<T>) -> bool {
        self.mul_defined(rhs)
    }

    open spec fn mul_spec(self, rhs: &'a Matrix<T>) -> Matrix<T> {
        choose|out: Matrix<T>| out.values() == self.values().times(rhs.values())
    }
}

impl<'a, T: Element> Mul<&'a Matrix<T>> for Matrix<T> {
    type Output = Matrix<T>;

    /// The product of an owned matrix and a borrowed one.
    fn mul(self, rhs: &'a Matrix<T>) -> (out: Matrix<T>)
        ensures
            out.values() == self.values().times(rhs.values()),
    {
        (&self).mul(rhs)
    }
}

impl<'a, T: Element> MulSpecImpl<Matrix<T>> for &'a Matrix<T> {
    open spec fn obeys_mul_spec() -> bool {
        false
    }

    open spec fn mul_req(self, rhs: Matrix<T>) -> bool {
        self.mul_defined(&rhs)
    }

    open spec fn mul_spec(self, rhs: Matrix<T>) -> Matrix<T> {
        choose|out: Matrix<T>| out.values() == self.values().times(rhs.values())
    }
}

impl<'a, T: Element> Mul<Matrix<T>> for &'a Matrix<T> {
    type Output = Matrix<T>;

    /// The product of a borrowed matrix and an owned one.
    fn mul(self, rhs: Matrix<T>) -> (out: Matrix<T>)
        ensures
            out.values() == self.values().times(rhs.values()),
    {
        self.mul(&rhs)
    }
}

impl<T: Element> MulSpecImpl<Matrix<T>> for Matrix<T> {
    open spec fn obeys_mul_spec() -> bool {
        false
    }

    open spec fn mul_req(self, rhs: Matrix<T>) -> bool {
        self.mul_defined(&rhs)
    }

    open spec fn mul_spec(self, rhs: Matrix<T>) -> Matrix<T> {
        choose|out: Matrix<T>| out.values() == self.values().times(rhs.values())
    }
}

impl<T: Element> Mul<Matrix<T>> for Matrix<T> {
    type Output = Matrix<T>;

    /// The product of two owned matrices.
    fn mul(self, rhs: Matrix<T>) -> (out: Matrix<T>)
        ensures
            out.values() == self.values().times(rhs.values()),
    {
        (&self).mul(&rhs)
    }
}

impl<'a, T: Element> MulSpecImpl<&'a T> for Matrix<T> {
    open spec fn obeys_mul_spec() -> bool {
        false
    }

    open spec fn mul_req(self, rhs: &'a T) -> bool {
        self.mul_scalar_defined(*rhs)
    }

    open spec fn mul_spec(self, rhs: &'a T) -> Matrix<T> {
        choose|out: Matrix<T>| out.values() == self.values().times_scalar(rhs.value())
    }
}

impl<'a, T: Element> Mul<&'a T> for Matrix<T> {
    type Output = Matrix<T>;

    /// Every cell of an owned matrix multiplied by a borrowed scalar.
    fn mul(self, rhs: &'a T) -> (out: Matrix<T>)
        ensures
            out.values() == self.values().times_scalar(rhs.value()),
    {
        (&self).mul(rhs)
    }
}

impl<'a, T: Element> MulSpecImpl<T> for &'a Matrix<T> {
    open spec fn obeys_mul_spec() -> bool {
        false
    }

    open spec fn mul_req(self, rhs: T) -> bool {
        self.mul_scalar_defined(rhs)
    }

    open spec fn mul_spec(self, rhs: T) -> Matrix<T> {
        choose|out: Matrix<T>| out.values() == self.values().times_scalar(rhs.value())
    }
}

impl<'a, T: Element> Mul<T> for &'a Matrix<T> {
    type Output = Matrix<T>;

    /// Every cell of a borrowed matrix multiplied by an owned scalar.
    fn mul(self, rhs: T) -> (out: Matrix<T>)
        ensures
            out.values() == self.values().times_scalar(rhs.value()),
    {
        self.mul(&rhs)
    }
}

impl<T: Element> MulSpecImpl<T> for Matrix<T> {
    open spec fn obeys_mul_spec() -> bool {
        false
    }

    open spec fn mul_req(self, rhs: T) -> bool {
        self.mul_scalar_defined(rhs)
    }

    open spec fn mul_spec(self, rhs: T) -> Matrix<T> {
        choose|out: Matrix<T>| out.values() == self.values().times_scalar(rhs.value())
    }
}

impl<T: Element> Mul<T> for Matrix<T> {
    type Output = Matrix<T>;

    /// Every cell of an owned matrix multiplied by an owned scalar.
    fn mul(self, rhs: T) -> (out: Matrix<T>)
        ensures
            out.values() == self.values().times_scalar(rhs.value()),
    {
        (&self).mul(&rhs)
    }
}

} // verus!
