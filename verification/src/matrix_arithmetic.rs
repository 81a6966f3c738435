//! Matrix arithmetic, element by element: with a scalar, which is applied to
//! every entry, and with a matrix of the same shape; each as an operator
//! that gives a new matrix and as one that assigns in place.

use crate::elementwise::broadcast;
use crate::elementwise::broadcast_assign;
use crate::elementwise::broadcast_req;
use crate::elementwise::broadcast_spec;
use crate::elementwise::zip;
use crate::elementwise::zip_assign;
use crate::elementwise::zip_req;
use crate::elementwise::vals;
use crate::elementwise::zip_spec;
use crate::elementwise::Op;
use crate::matrix::Matrix;
use crate::scalar::Scalar;
use std::ops::Add;
use std::ops::AddAssign;
use std::ops::Div;
use std::ops::DivAssign;
use std::ops::Mul;
use std::ops::MulAssign;
use std::ops::Sub;
use std::ops::SubAssign;
use vstd::prelude::*;

verus! {

impl<'a, T: Scalar> vstd::std_specs::ops::AddSpecImpl<T> for &'a Matrix<T> {
    /// The result is a new matrix, which `add` itself describes.
    open spec fn obeys_add_spec() -> bool {
        false
    }

    open spec fn add_req(self, scalar: T) -> bool {
        broadcast_req(Op::Add, self.data@, scalar)
    }

    open spec fn add_spec(self, scalar: T) -> Matrix<T> {
        *self
    }
}

impl<'a, T: Scalar> Add<T> for &'a Matrix<T> {
    type Output = Matrix<T>;

    /// `&m + k`: the matrix of every entry `+ k`.
    fn add(self, scalar: T) -> (r: Matrix<T>)
        ensures
            r.same_shape(self),
            self.wf() ==> r.wf(),
            r.data@ == broadcast_spec(Op::Add, self.data@, scalar),
    {
        Matrix {
            rows: self.rows,
            cols: self.cols,
            data: broadcast(Op::Add, self.data.as_slice(), scalar),
        }
    }
}

impl<T: Scalar> AddAssign<T> for Matrix<T> {
    /// `m += k`: every entry becomes itself `+ k`.
    fn add_assign(&mut self, scalar: T)
        requires
            broadcast_req(Op::Add, old(self).data@, scalar),
        ensures
            final(self).same_shape(old(self)),
            old(self).wf() ==> final(self).wf(),
            final(self).data@ == broadcast_spec(Op::Add, old(self).data@, scalar),
    {
        broadcast_assign(Op::Add, self.data.as_mut_slice(), scalar);
    }
}

impl<'a, 'b, T: Scalar> vstd::std_specs::ops::AddSpecImpl<&'b Matrix<T>> for &'a Matrix<T> {
    /// The result is a new matrix, which `add` itself describes.
    open spec fn obeys_add_spec() -> bool {
        false
    }

    open spec fn add_req(self, other: &'b Matrix<T>) -> bool {
        self.same_shape(other) && zip_req(Op::Add, self.data@, other.data@)
    }

    open spec fn add_spec(self, other: &'b Matrix<T>) -> Matrix<T> {
        *self
    }
}

impl<'a, 'b, T: Scalar> Add<&'b Matrix<T>> for &'a Matrix<T> {
    type Output = Matrix<T>;

    /// `&a + &b`: the sum of two matrices of one shape.
    fn add(self, other: &'b Matrix<T>) -> (r: Matrix<T>)
        ensures
            r.same_shape(self),
            self.wf() ==> r.wf(),
            r.data@ == zip_spec(Op::Add, self.data@, other.data@),
    {
        Matrix {
            rows: self.rows,
            cols: self.cols,
            data: zip(Op::Add, self.data.as_slice(), other.data.as_slice()),
        }
    }
}

impl<'b, T: Scalar> AddAssign<&'b Matrix<T>> for Matrix<T> {
    /// `a += &b`: `a` becomes the sum of `a` and `b`.
    fn add_assign(&mut self, other: &'b Matrix<T>)
        requires
            old(self).same_shape(other),
            zip_req(Op::Add, old(self).data@, other.data@),
        ensures
            final(self).same_shape(old(self)),
            old(self).wf() ==> final(self).wf(),
            final(self).data@ == zip_spec(Op::Add, old(self).data@, other.data@),
    {
        zip_assign(Op::Add, self.data.as_mut_slice(), other.data.as_slice());
    }
}

impl<'a, T: Scalar> vstd::std_specs::ops::SubSpecImpl<T> for &'a Matrix<T> {
    /// The result is a new matrix, which `sub` itself describes.
    open spec fn obeys_sub_spec() -> bool {
        false
    }

    open spec fn sub_req(self, scalar: T) -> bool {
        broadcast_req(Op::Sub, self.data@, scalar)
    }

    open spec fn sub_spec(self, scalar: T) -> Matrix<T> {
        *self
    }
}

impl<'a, T: Scalar> Sub<T> for &'a Matrix<T> {
    type Output = Matrix<T>;

    /// `&m - k`: the matrix of every entry `- k`.
    fn sub(self, scalar: T) -> (r: Matrix<T>)
        ensures
            r.same_shape(self),
            self.wf() ==> r.wf(),
            r.data@ == broadcast_spec(Op::Sub, self.data@, scalar),
    {
        Matrix {
            rows: self.rows,
            cols: self.cols,
            data: broadcast(Op::Sub, self.data.as_slice(), scalar),
        }
    }
}

impl<T: Scalar> SubAssign<T> for Matrix<T> {
    /// `m -= k`: every entry becomes itself `- k`.
    fn sub_assign(&mut self, scalar: T)
        requires
            broadcast_req(Op::Sub, old(self).data@, scalar),
        ensures
            final(self).same_shape(old(self)),
            old(self).wf() ==> final(self).wf(),
            final(self).data@ == broadcast_spec(Op::Sub, old(self).data@, scalar),
    {
        broadcast_assign(Op::Sub, self.data.as_mut_slice(), scalar);
    }
}

impl<'a, 'b, T: Scalar> vstd::std_specs::ops::SubSpecImpl<&'b Matrix<T>> for &'a Matrix<T> {
    /// The result is a new matrix, which `sub` itself describes.
    open spec fn obeys_sub_spec() -> bool {
        false
    }

    open spec fn sub_req(self, other: &'b Matrix<T>) -> bool {
        self.same_shape(other) && zip_req(Op::Sub, self.data@, other.data@)
    }

    open spec fn sub_spec(self, other: &'b Matrix<T>) -> Matrix<T> {
        *self
    }
}

impl<'a, 'b, T: Scalar> Sub<&'b Matrix<T>> for &'a Matrix<T> {
    type Output = Matrix<T>;

    /// `&a - &b`: the difference of two matrices of one shape.
    fn sub(self, other: &'b Matrix<T>) -> (r: Matrix<T>)
        ensures
            r.same_shape(self),
            self.wf() ==> r.wf(),
            r.data@ == zip_spec(Op::Sub, self.data@, other.data@),
    {
        Matrix {
            rows: self.rows,
            cols: self.cols,
            data: zip(Op::Sub, self.data.as_slice(), other.data.as_slice()),
        }
    }
}

impl<'b, T: Scalar> SubAssign<&'b Matrix<T>> for Matrix<T> {
    /// `a -= &b`: `a` becomes the difference of `a` and `b`.
    fn sub_assign(&mut self, other: &'b Matrix<T>)
        requires
            old(self).same_shape(other),
            zip_req(Op::Sub, old(self).data@, other.data@),
        ensures
            final(self).same_shape(old(self)),
            old(self).wf() ==> final(self).wf(),
            final(self).data@ == zip_spec(Op::Sub, old(self).data@, other.data@),
    {
        zip_assign(Op::Sub, self.data.as_mut_slice(), other.data.as_slice());
    }
}

impl<'a, T: Scalar> vstd::std_specs::ops::MulSpecImpl<T> for &'a Matrix<T> {
    /// The result is a new matrix, which `mul` itself describes.
    open spec fn obeys_mul_spec() -> bool {
        false
    }

    open spec fn mul_req(self, scalar: T) -> bool {
        broadcast_req(Op::Mul, self.data@, scalar)
    }

    open spec fn mul_spec(self, scalar: T) -> Matrix<T> {
        *self
    }
}

impl<'a, T: Scalar> Mul<T> for &'a Matrix<T> {
    type Output = Matrix<T>;

    /// `&m * k`: the matrix of every entry `* k`.
    fn mul(self, scalar: T) -> (r: Matrix<T>)
        ensures
            r.same_shape(self),
            self.wf() ==> r.wf(),
            r.data@ == broadcast_spec(Op::Mul, self.data@, scalar),
    {
        Matrix {
            rows: self.rows,
            cols: self.cols,
            data: broadcast(Op::Mul, self.data.as_slice(), scalar),
        }
    }
}

impl<T: Scalar> MulAssign<T> for Matrix<T> {
    /// `m *= k`: every entry becomes itself `* k`.
    fn mul_assign(&mut self, scalar: T)
        requires
            broadcast_req(Op::Mul, old(self).data@, scalar),
        ensures
            final(self).same_shape(old(self)),
            old(self).wf() ==> final(self).wf(),
            final(self).data@ == broadcast_spec(Op::Mul, old(self).data@, scalar),
    {
        broadcast_assign(Op::Mul, self.data.as_mut_slice(), scalar);
    }
}

impl<'a, 'b, T: Scalar> vstd::std_specs::ops::MulSpecImpl<&'b Matrix<T>> for &'a Matrix<T> {
    /// The result is a new matrix, which `mul` itself describes.
    open spec fn obeys_mul_spec() -> bool {
        false
    }

    open spec fn mul_req(self, other: &'b Matrix<T>) -> bool {
        self.same_shape(other) && zip_req(Op::Mul, self.data@, other.data@)
    }

    open spec fn mul_spec(self, other: &'b Matrix<T>) -> Matrix<T> {
        *self
    }
}

impl<'a, 'b, T: Scalar> Mul<&'b Matrix<T>> for &'a Matrix<T> {
    type Output = Matrix<T>;

    /// `&a * &b`: the element-wise product of two matrices of one shape.
    fn mul(self, other: &'b Matrix<T>) -> (r: Matrix<T>)
        ensures
            r.same_shape(self),
            self.wf() ==> r.wf(),
            r.data@ == zip_spec(Op::Mul, self.data@, other.data@),
    {
        Matrix {
            rows: self.rows,
            cols: self.cols,
            data: zip(Op::Mul, self.data.as_slice(), other.data.as_slice()),
        }
    }
}

impl<'b, T: Scalar> MulAssign<&'b Matrix<T>> for Matrix<T> {
    /// `a *= &b`: `a` becomes the element-wise product of `a` and `b`.
    fn mul_assign(&mut self, other: &'b Matrix<T>)
        requires
            old(self).same_shape(other),
            zip_req(Op::Mul, old(self).data@, other.data@),
        ensures
            final(self).same_shape(old(self)),
            old(self).wf() ==> final(self).wf(),
            final(self).data@ == zip_spec(Op::Mul, old(self).data@, other.data@),
    {
        zip_assign(Op::Mul, self.data.as_mut_slice(), other.data.as_slice());
    }
}

impl<'a, T: Scalar> vstd::std_specs::ops::DivSpecImpl<T> for &'a Matrix<T> {
    /// The result is a new matrix, which `div` itself describes.
    open spec fn obeys_div_spec() -> bool {
        false
    }

    open spec fn div_req(self, scalar: T) -> bool {
        broadcast_req(Op::Div, self.data@, scalar)
    }

    open spec fn div_spec(self, scalar: T) -> Matrix<T> {
        *self
    }
}

impl<'a, T: Scalar> Div<T> for &'a Matrix<T> {
    type Output = Matrix<T>;

    /// `&m / k`: the matrix of every entry `/ k`.
    fn div(self, scalar: T) -> (r: Matrix<T>)
        ensures
            r.same_shape(self),
            self.wf() ==> r.wf(),
            r.data@ == broadcast_spec(Op::Div, self.data@, scalar),
    {
        Matrix {
            rows: self.rows,
            cols: self.cols,
            data: broadcast(Op::Div, self.data.as_slice(), scalar),
        }
    }
}

impl<T: Scalar> DivAssign<T> for Matrix<T> {
    /// `m /= k`: every entry becomes itself `/ k`.
    fn div_assign(&mut self, scalar: T)
        requires
            broadcast_req(Op::Div, old(self).data@, scalar),
        ensures
            final(self).same_shape(old(self)),
            old(self).wf() ==> final(self).wf(),
            final(self).data@ == broadcast_spec(Op::Div, old(self).data@, scalar),
    {
        broadcast_assign(Op::Div, self.data.as_mut_slice(), scalar);
    }
}

impl<'a, 'b, T: Scalar> vstd::std_specs::ops::DivSpecImpl<&'b Matrix<T>> for &'a Matrix<T> {
    /// The result is a new matrix, which `div` itself describes.
    open spec fn obeys_div_spec() -> bool {
        false
    }

    open spec fn div_req(self, other: &'b Matrix<T>) -> bool {
        self.same_shape(other) && zip_req(Op::Div, self.data@, other.data@)
    }

    open spec fn div_spec(self, other: &'b Matrix<T>) -> Matrix<T> {
        *self
    }
}

impl<'a, 'b, T: Scalar> Div<&'b Matrix<T>> for &'a Matrix<T> {
    type Output = Matrix<T>;

    /// `&a / &b`: the element-wise quotient of two matrices of one shape.
    fn div(self, other: &'b Matrix<T>) -> (r: Matrix<T>)
        ensures
            r.same_shape(self),
            self.wf() ==> r.wf(),
            r.data@ == zip_spec(Op::Div, self.data@, other.data@),
    {
        Matrix {
            rows: self.rows,
            cols: self.cols,
            data: zip(Op::Div, self.data.as_slice(), other.data.as_slice()),
        }
    }
}

impl<'b, T: Scalar> DivAssign<&'b Matrix<T>> for Matrix<T> {
    /// `a /= &b`: `a` becomes the element-wise quotient of `a` and `b`.
    fn div_assign(&mut self, other: &'b Matrix<T>)
        requires
            old(self).same_shape(other),
            zip_req(Op::Div, old(self).data@, other.data@),
        ensures
            final(self).same_shape(old(self)),
            old(self).wf() ==> final(self).wf(),
            final(self).data@ == zip_spec(Op::Div, old(self).data@, other.data@),
    {
        zip_assign(Op::Div, self.data.as_mut_slice(), other.data.as_slice());
    }
}

/// `(A + B) - B = A`: adding a matrix and taking it off again leaves the
/// numbers of the first.
pub proof fn lemma_add_then_sub<T: Scalar>(a: &Matrix<T>, b: &Matrix<T>)
    requires
        a.same_shape(b),
        zip_req(Op::Add, a.data@, b.data@),
        zip_req(Op::Sub, zip_spec(Op::Add, a.data@, b.data@), b.data@),
    ensures
        vals(zip_spec(Op::Sub, zip_spec(Op::Add, a.data@, b.data@), b.data@)) == vals(a.data@),
{
    let sum = zip_spec(Op::Add, a.data@, b.data@);
    let back = zip_spec(Op::Sub, sum, b.data@);
    assert forall|i: int| 0 <= i < a.data@.len() implies back[i].val() == a.data@[i].val() by {
        a.data@[i].lemma_add(b.data@[i]);
        assert(sum[i] == a.data@[i].add_spec(b.data@[i]));
        sum[i].lemma_sub(b.data@[i]);
    }
    assert(vals(back) =~= vals(a.data@));
}

/// `A * 1 = A`: multiplying by the scalar one leaves the numbers.
pub proof fn lemma_mul_one<T: Scalar>(a: &Matrix<T>)
    requires
        broadcast_req(Op::Mul, a.data@, T::one_spec()),
    ensures
        vals(broadcast_spec(Op::Mul, a.data@, T::one_spec())) == vals(a.data@),
{
    T::lemma_constants();
    let scaled = broadcast_spec(Op::Mul, a.data@, T::one_spec());
    assert forall|i: int| 0 <= i < a.data@.len() implies scaled[i].val() == a.data@[i].val() by {
        a.data@[i].lemma_mul(T::one_spec());
        let x = a.data@[i].val();
        assert(x * 1real == x) by (nonlinear_arith);
    }
    assert(vals(scaled) =~= vals(a.data@));
}

/// `A + 0 = A`: adding the scalar zero leaves the numbers.
pub proof fn lemma_add_zero<T: Scalar>(a: &Matrix<T>)
    requires
        broadcast_req(Op::Add, a.data@, T::zero_spec()),
    ensures
        vals(broadcast_spec(Op::Add, a.data@, T::zero_spec())) == vals(a.data@),
{
    T::lemma_constants();
    let shifted = broadcast_spec(Op::Add, a.data@, T::zero_spec());
    assert forall|i: int| 0 <= i < a.data@.len() implies shifted[i].val() == a.data@[i].val() by {
        a.data@[i].lemma_add(T::zero_spec());
    }
    assert(vals(shifted) =~= vals(a.data@));
}

/// `A + 0 = A`: adding the zero matrix leaves the numbers.
pub proof fn lemma_add_zero_matrix<T: Scalar>(a: &Matrix<T>, zero: &Matrix<T>)
    requires
        a.same_shape(zero),
        zero.is_zero(),
        zip_req(Op::Add, a.data@, zero.data@),
    ensures
        vals(zip_spec(Op::Add, a.data@, zero.data@)) == vals(a.data@),
{
    T::lemma_constants();
    let sum = zip_spec(Op::Add, a.data@, zero.data@);
    assert forall|i: int| 0 <= i < a.data@.len() implies sum[i].val() == a.data@[i].val() by {
        a.data@[i].lemma_add(zero.data@[i]);
        assert(zero.data@[i] == T::zero_spec());
    }
    assert(vals(sum) =~= vals(a.data@));
}

} // verus!
