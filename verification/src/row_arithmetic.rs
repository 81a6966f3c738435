//! Row arithmetic, element by element: a row with a row of the same
//! length or with a scalar, as an operator that gives a new row and as one
//! that assigns in place, on an owned row or through a mutable borrow.

use crate::elementwise::broadcast;
use crate::elementwise::broadcast_assign;
use crate::elementwise::broadcast_req;
use crate::elementwise::broadcast_spec;
use crate::elementwise::zip;
use crate::elementwise::zip_assign;
use crate::elementwise::zip_req;
use crate::elementwise::zip_spec;
use crate::elementwise::Op;
use crate::matrix::Row;
use crate::matrix::RowMut;
use crate::scalar::Scalar;
use std::ops::Add;
use std::ops::AddAssign;
use std::ops::Div;
use std::ops::DivAssign;
use std::ops::Mul;
use std::ops::MulAssign;
use std::ops::Sub;
use std::ops::SubAssign;
use vstd::prelude::*;

verus! {

impl<T: Scalar> Row<T> {
    /// The fused update `self[i] -= other[i] * k`, in one pass.
    pub fn sub_assign_scaled(&mut self, other: &Row<T>, k: T)
        requires
            crate::elementwise::scaled_req(old(self).data@, other.data@, k),
        ensures
            final(self).data@ == crate::elementwise::scaled_spec(old(self).data@, other.data@, k),
    {
        crate::elementwise::sub_assign_scaled(
            self.data.as_mut_slice(),
            other.data.as_slice(),
            k,
        );
    }
}

impl<'a, T: Scalar> RowMut<'a, T> {
    /// The fused update `self[i] -= other[i] * k`, in one pass and in the
    /// matrix that the row is borrowed from.
    pub fn sub_assign_scaled(&mut self, other: &Row<T>, k: T)
        requires
            crate::elementwise::scaled_req(old(self).data@, other.data@, k),
        ensures
            final(self).data@ == crate::elementwise::scaled_spec(old(self).data@, other.data@, k),
            final(final(self).data)@ == final(old(self).data)@,
    {
        crate::elementwise::sub_assign_scaled(self.data, other.data.as_slice(), k);
    }
}

impl<T: Scalar> vstd::std_specs::ops::AddSpecImpl<Row<T>> for Row<T> {
    /// The result is a new row, which `add` itself describes.
    open spec fn obeys_add_spec() -> bool {
        false
    }

    open spec fn add_req(self, rhs: Row<T>) -> bool {
        zip_req(Op::Add, self.data@, rhs.data@)
    }

    open spec fn add_spec(self, rhs: Row<T>) -> Row<T> {
        self
    }
}

impl<T: Scalar> Add<Row<T>> for Row<T> {
    type Output = Row<T>;

    /// `a + b`: the row of `a[i] + b[i]`.
    fn add(self, rhs: Row<T>) -> (r: Row<T>)
        ensures
            r.data@ == zip_spec(Op::Add, self.data@, rhs.data@),
    {
        Row { data: zip(Op::Add, self.data.as_slice(), rhs.data.as_slice()) }
    }
}

impl<T: Scalar> vstd::std_specs::ops::AddSpecImpl<T> for Row<T> {
    /// The result is a new row, which `add` itself describes.
    open spec fn obeys_add_spec() -> bool {
        false
    }

    open spec fn add_req(self, rhs: T) -> bool {
        broadcast_req(Op::Add, self.data@, rhs)
    }

    open spec fn add_spec(self, rhs: T) -> Row<T> {
        self
    }
}

impl<T: Scalar> Add<T> for Row<T> {
    type Output = Row<T>;

    /// `a + k`: the row of `a[i] + k`.
    fn add(self, rhs: T) -> (r: Row<T>)
        ensures
            r.data@ == broadcast_spec(Op::Add, self.data@, rhs),
    {
        Row { data: broadcast(Op::Add, self.data.as_slice(), rhs) }
    }
}

impl<'a, 'b, T: Scalar> vstd::std_specs::ops::AddSpecImpl<&'b Row<T>> for &'a Row<T> {
    /// The result is a new row, which `add` itself describes.
    open spec fn obeys_add_spec() -> bool {
        false
    }

    open spec fn add_req(self, rhs: &'b Row<T>) -> bool {
        zip_req(Op::Add, self.data@, rhs.data@)
    }

    open spec fn add_spec(self, rhs: &'b Row<T>) -> Row<T> {
        *self
    }
}

impl<'a, 'b, T: Scalar> Add<&'b Row<T>> for &'a Row<T> {
    type Output = Row<T>;

    /// `&a + &b`: the row of `a[i] + b[i]`.
    fn add(self, rhs: &'b Row<T>) -> (r: Row<T>)
        ensures
            r.data@ == zip_spec(Op::Add, self.data@, rhs.data@),
    {
        Row { data: zip(Op::Add, self.data.as_slice(), rhs.data.as_slice()) }
    }
}

impl<'a, T: Scalar> vstd::std_specs::ops::AddSpecImpl<T> for &'a Row<T> {
    /// The result is a new row, which `add` itself describes.
    open spec fn obeys_add_spec() -> bool {
        false
    }

    open spec fn add_req(self, rhs: T) -> bool {
        broadcast_req(Op::Add, self.data@, rhs)
    }

    open spec fn add_spec(self, rhs: T) -> Row<T> {
        *self
    }
}

impl<'a, T: Scalar> Add<T> for &'a Row<T> {
    type Output = Row<T>;

    /// `&a + k`: the row of `a[i] + k`.
    fn add(self, rhs: T) -> (r: Row<T>)
        ensures
            r.data@ == broadcast_spec(Op::Add, self.data@, rhs),
    {
        Row { data: broadcast(Op::Add, self.data.as_slice(), rhs) }
    }
}

impl<T: Scalar> AddAssign<T> for Row<T> {
    /// `a += k`: every `a[i]` becomes `a[i] + k`.
    fn add_assign(&mut self, rhs: T)
        requires
            broadcast_req(Op::Add, old(self).data@, rhs),
        ensures
            final(self).data@ == broadcast_spec(Op::Add, old(self).data@, rhs),
    {
        broadcast_assign(Op::Add, self.data.as_mut_slice(), rhs);
    }
}

impl<T: Scalar> AddAssign<Row<T>> for Row<T> {
    /// `a += b`: every `a[i]` becomes `a[i] + b[i]`.
    fn add_assign(&mut self, rhs: Row<T>)
        requires
            zip_req(Op::Add, old(self).data@, rhs.data@),
        ensures
            final(self).data@ == zip_spec(Op::Add, old(self).data@, rhs.data@),
    {
        zip_assign(Op::Add, self.data.as_mut_slice(), rhs.data.as_slice());
    }
}

impl<'a, T: Scalar> AddAssign<T> for RowMut<'a, T> {
    /// `a += k` through a borrowed row: every `a[i]` becomes
    /// `a[i] + k`, in the matrix.
    fn add_assign(&mut self, rhs: T)
        requires
            broadcast_req(Op::Add, old(self).data@, rhs),
        ensures
            final(self).data@ == broadcast_spec(Op::Add, old(self).data@, rhs),
            final(final(self).data)@ == final(old(self).data)@,
    {
        broadcast_assign(Op::Add, self.data, rhs);
    }
}

impl<'a, T: Scalar> AddAssign<&'a Row<T>> for Row<T> {
    /// `a += &b`: every `a[i]` becomes `a[i] + b[i]`.
    fn add_assign(&mut self, rhs: &'a Row<T>)
        requires
            zip_req(Op::Add, old(self).data@, rhs.data@),
        ensures
            final(self).data@ == zip_spec(Op::Add, old(self).data@, rhs.data@),
    {
        zip_assign(Op::Add, self.data.as_mut_slice(), rhs.data.as_slice());
    }
}

impl<'a, 'b, T: Scalar> AddAssign<&'b Row<T>> for RowMut<'a, T> {
    /// `a += &b` through a borrowed row: every `a[i]` becomes
    /// `a[i] + b[i]`, in the matrix.
    fn add_assign(&mut self, rhs: &'b Row<T>)
        requires
            zip_req(Op::Add, old(self).data@, rhs.data@),
        ensures
            final(self).data@ == zip_spec(Op::Add, old(self).data@, rhs.data@),
            final(final(self).data)@ == final(old(self).data)@,
    {
        zip_assign(Op::Add, self.data, rhs.data.as_slice());
    }
}

impl<'a, T: Scalar> AddAssign<Row<T>> for RowMut<'a, T> {
    /// `a += b` through a borrowed row: every `a[i]` becomes
    /// `a[i] + b[i]`, in the matrix.
    fn add_assign(&mut self, rhs: Row<T>)
        requires
            zip_req(Op::Add, old(self).data@, rhs.data@),
        ensures
            final(self).data@ == zip_spec(Op::Add, old(self).data@, rhs.data@),
            final(final(self).data)@ == final(old(self).data)@,
    {
        zip_assign(Op::Add, self.data, rhs.data.as_slice());
    }
}

impl<T: Scalar> vstd::std_specs::ops::SubSpecImpl<Row<T>> for Row<T> {
    /// The result is a new row, which `sub` itself describes.
    open spec fn obeys_sub_spec() -> bool {
        false
    }

    open spec fn sub_req(self, rhs: Row<T>) -> bool {
        zip_req(Op::Sub, self.data@, rhs.data@)
    }

    open spec fn sub_spec(self, rhs: Row<T>) -> Row<T> {
        self
    }
}

impl<T: Scalar> Sub<Row<T>> for Row<T> {
    type Output = Row<T>;

    /// `a - b`: the row of `a[i] - b[i]`.
    fn sub(self, rhs: Row<T>) -> (r: Row<T>)
        ensures
            r.data@ == zip_spec(Op::Sub, self.data@, rhs.data@),
    {
        Row { data: zip(Op::Sub, self.data.as_slice(), rhs.data.as_slice()) }
    }
}

impl<T: Scalar> vstd::std_specs::ops::SubSpecImpl<T> for Row<T> {
    /// The result is a new row, which `sub` itself describes.
    open spec fn obeys_sub_spec() -> bool {
        false
    }

    open spec fn sub_req(self, rhs: T) -> bool {
        broadcast_req(Op::Sub, self.data@, rhs)
    }

    open spec fn sub_spec(self, rhs: T) -> Row<T> {
        self
    }
}

impl<T: Scalar> Sub<T> for Row<T> {
    type Output = Row<T>;

    /// `a - k`: the row of `a[i] - k`.
    fn sub(self, rhs: T) -> (r: Row<T>)
        ensures
            r.data@ == broadcast_spec(Op::Sub, self.data@, rhs),
    {
        Row { data: broadcast(Op::Sub, self.data.as_slice(), rhs) }
    }
}

impl<'a, 'b, T: Scalar> vstd::std_specs::ops::SubSpecImpl<&'b Row<T>> for &'a Row<T> {
    /// The result is a new row, which `sub` itself describes.
    open spec fn obeys_sub_spec() -> bool {
        false
    }

    open spec fn sub_req(self, rhs: &'b Row<T>) -> bool {
        zip_req(Op::Sub, self.data@, rhs.data@)
    }

    open spec fn sub_spec(self, rhs: &'b Row<T>) -> Row<T> {
        *self
    }
}

impl<'a, 'b, T: Scalar> Sub<&'b Row<T>> for &'a Row<T> {
    type Output = Row<T>;

    /// `&a - &b`: the row of `a[i] - b[i]`.
    fn sub(self, rhs: &'b Row<T>) -> (r: Row<T>)
        ensures
            r.data@ == zip_spec(Op::Sub, self.data@, rhs.data@),
    {
        Row { data: zip(Op::Sub, self.data.as_slice(), rhs.data.as_slice()) }
    }
}

impl<'a, T: Scalar> vstd::std_specs::ops::SubSpecImpl<T> for &'a Row<T> {
    /// The result is a new row, which `sub` itself describes.
    open spec fn obeys_sub_spec() -> bool {
        false
    }

    open spec fn sub_req(self, rhs: T) -> bool {
        broadcast_req(Op::Sub, self.data@, rhs)
    }

    open spec fn sub_spec(self, rhs: T) -> Row<T> {
        *self
    }
}

impl<'a, T: Scalar> Sub<T> for &'a Row<T> {
    type Output = Row<T>;

    /// `&a - k`: the row of `a[i] - k`.
    fn sub(self, rhs: T) -> (r: Row<T>)
        ensures
            r.data@ == broadcast_spec(Op::Sub, self.data@, rhs),
    {
        Row { data: broadcast(Op::Sub, self.data.as_slice(), rhs) }
    }
}

impl<T: Scalar> SubAssign<T> for Row<T> {
    /// `a -= k`: every `a[i]` becomes `a[i] - k`.
    fn sub_assign(&mut self, rhs: T)
        requires
            broadcast_req(Op::Sub, old(self).data@, rhs),
        ensures
            final(self).data@ == broadcast_spec(Op::Sub, old(self).data@, rhs),
    {
        broadcast_assign(Op::Sub, self.data.as_mut_slice(), rhs);
    }
}

impl<T: Scalar> SubAssign<Row<T>> for Row<T> {
    /// `a -= b`: every `a[i]` becomes `a[i] - b[i]`.
    fn sub_assign(&mut self, rhs: Row<T>)
        requires
            zip_req(Op::Sub, old(self).data@, rhs.data@),
        ensures
            final(self).data@ == zip_spec(Op::Sub, old(self).data@, rhs.data@),
    {
        zip_assign(Op::Sub, self.data.as_mut_slice(), rhs.data.as_slice());
    }
}

impl<'a, T: Scalar> SubAssign<T> for RowMut<'a, T> {
    /// `a -= k` through a borrowed row: every `a[i]` becomes
    /// `a[i] - k`, in the matrix.
    fn sub_assign(&mut self, rhs: T)
        requires
            broadcast_req(Op::Sub, old(self).data@, rhs),
        ensures
            final(self).data@ == broadcast_spec(Op::Sub, old(self).data@, rhs),
            final(final(self).data)@ == final(old(self).data)@,
    {
        broadcast_assign(Op::Sub, self.data, rhs);
    }
}

impl<'a, T: Scalar> SubAssign<&'a Row<T>> for Row<T> {
    /// `a -= &b`: every `a[i]` becomes `a[i] - b[i]`.
    fn sub_assign(&mut self, rhs: &'a Row<T>)
        requires
            zip_req(Op::Sub, old(self).data@, rhs.data@),
        ensures
            final(self).data@ == zip_spec(Op::Sub, old(self).data@, rhs.data@),
    {
        zip_assign(Op::Sub, self.data.as_mut_slice(), rhs.data.as_slice());
    }
}

impl<'a, 'b, T: Scalar> SubAssign<&'b Row<T>> for RowMut<'a, T> {
    /// `a -= &b` through a borrowed row: every `a[i]` becomes
    /// `a[i] - b[i]`, in the matrix.
    fn sub_assign(&mut self, rhs: &'b Row<T>)
        requires
            zip_req(Op::Sub, old(self).data@, rhs.data@),
        ensures
            final(self).data@ == zip_spec(Op::Sub, old(self).data@, rhs.data@),
            final(final(self).data)@ == final(old(self).data)@,
    {
        zip_assign(Op::Sub, self.data, rhs.data.as_slice());
    }
}

impl<'a, T: Scalar> SubAssign<Row<T>> for RowMut<'a, T> {
    /// `a -= b` through a borrowed row: every `a[i]` becomes
    /// `a[i] - b[i]`, in the matrix.
    fn sub_assign(&mut self, rhs: Row<T>)
        requires
            zip_req(Op::Sub, old(self).data@, rhs.data@),
        ensures
            final(self).data@ == zip_spec(Op::Sub, old(self).data@, rhs.data@),
            final(final(self).data)@ == final(old(self).data)@,
    {
        zip_assign(Op::Sub, self.data, rhs.data.as_slice());
    }
}

impl<T: Scalar> vstd::std_specs::ops::MulSpecImpl<Row<T>> for Row<T> {
    /// The result is a new row, which `mul` itself describes.
    open spec fn obeys_mul_spec() -> bool {
        false
    }

    open spec fn mul_req(self, rhs: Row<T>) -> bool {
        zip_req(Op::Mul, self.data@, rhs.data@)
    }

    open spec fn mul_spec(self, rhs: Row<T>) -> Row<T> {
        self
    }
}

impl<T: Scalar> Mul<Row<T>> for Row<T> {
    type Output = Row<T>;

    /// `a * b`: the row of `a[i] * b[i]`.
    fn mul(self, rhs: Row<T>) -> (r: Row<T>)
        ensures
            r.data@ == zip_spec(Op::Mul, self.data@, rhs.data@),
    {
        Row { data: zip(Op::Mul, self.data.as_slice(), rhs.data.as_slice()) }
    }
}

impl<T: Scalar> vstd::std_specs::ops::MulSpecImpl<T> for Row<T> {
    /// The result is a new row, which `mul` itself describes.
    open spec fn obeys_mul_spec() -> bool {
        false
    }

    open spec fn mul_req(self, rhs: T) -> bool {
        broadcast_req(Op::Mul, self.data@, rhs)
    }

    open spec fn mul_spec(self, rhs: T) -> Row<T> {
        self
    }
}

impl<T: Scalar> Mul<T> for Row<T> {
    type Output = Row<T>;

    /// `a * k`: the row of `a[i] * k`.
    fn mul(self, rhs: T) -> (r: Row<T>)
        ensures
            r.data@ == broadcast_spec(Op::Mul, self.data@, rhs),
    {
        Row { data: broadcast(Op::Mul, self.data.as_slice(), rhs) }
    }
}

impl<'a, 'b, T: Scalar> vstd::std_specs::ops::MulSpecImpl<&'b Row<T>> for &'a Row<T> {
    /// The result is a new row, which `mul` itself describes.
    open spec fn obeys_mul_spec() -> bool {
        false
    }

    open spec fn mul_req(self, rhs: &'b Row<T>) -> bool {
        zip_req(Op::Mul, self.data@, rhs.data@)
    }

    open spec fn mul_spec(self, rhs: &'b Row<T>) -> Row<T> {
        *self
    }
}

impl<'a, 'b, T: Scalar> Mul<&'b Row<T>> for &'a Row<T> {
    type Output = Row<T>;

    /// `&a * &b`: the row of `a[i] * b[i]`.
    fn mul(self, rhs: &'b Row<T>) -> (r: Row<T>)
        ensures
            r.data@ == zip_spec(Op::Mul, self.data@, rhs.data@),
    {
        Row { data: zip(Op::Mul, self.data.as_slice(), rhs.data.as_slice()) }
    }
}

impl<'a, T: Scalar> vstd::std_specs::ops::MulSpecImpl<T> for &'a Row<T> {
    /// The result is a new row, which `mul` itself describes.
    open spec fn obeys_mul_spec() -> bool {
        false
    }

    open spec fn mul_req(self, rhs: T) -> bool {
        broadcast_req(Op::Mul, self.data@, rhs)
    }

    open spec fn mul_spec(self, rhs: T) -> Row<T> {
        *self
    }
}

impl<'a, T: Scalar> Mul<T> for &'a Row<T> {
    type Output = Row<T>;

    /// `&a * k`: the row of `a[i] * k`.
    fn mul(self, rhs: T) -> (r: Row<T>)
        ensures
            r.data@ == broadcast_spec(Op::Mul, self.data@, rhs),
    {
        Row { data: broadcast(Op::Mul, self.data.as_slice(), rhs) }
    }
}

impl<T: Scalar> MulAssign<T> for Row<T> {
    /// `a *= k`: every `a[i]` becomes `a[i] * k`.
    fn mul_assign(&mut self, rhs: T)
        requires
            broadcast_req(Op::Mul, old(self).data@, rhs),
        ensures
            final(self).data@ == broadcast_spec(Op::Mul, old(self).data@, rhs),
    {
        broadcast_assign(Op::Mul, self.data.as_mut_slice(), rhs);
    }
}

impl<T: Scalar> MulAssign<Row<T>> for Row<T> {
    /// `a *= b`: every `a[i]` becomes `a[i] * b[i]`.
    fn mul_assign(&mut self, rhs: Row<T>)
        requires
            zip_req(Op::Mul, old(self).data@, rhs.data@),
        ensures
            final(self).data@ == zip_spec(Op::Mul, old(self).data@, rhs.data@),
    {
        zip_assign(Op::Mul, self.data.as_mut_slice(), rhs.data.as_slice());
    }
}

impl<'a, T: Scalar> MulAssign<T> for RowMut<'a, T> {
    /// `a *= k` through a borrowed row: every `a[i]` becomes
    /// `a[i] * k`, in the matrix.
    fn mul_assign(&mut self, rhs: T)
        requires
            broadcast_req(Op::Mul, old(self).data@, rhs),
        ensures
            final(self).data@ == broadcast_spec(Op::Mul, old(self).data@, rhs),
            final(final(self).data)@ == final(old(self).data)@,
    {
        broadcast_assign(Op::Mul, self.data, rhs);
    }
}

impl<'a, T: Scalar> MulAssign<&'a Row<T>> for Row<T> {
    /// `a *= &b`: every `a[i]` becomes `a[i] * b[i]`.
    fn mul_assign(&mut self, rhs: &'a Row<T>)
        requires
            zip_req(Op::Mul, old(self).data@, rhs.data@),
        ensures
            final(self).data@ == zip_spec(Op::Mul, old(self).data@, rhs.data@),
    {
        zip_assign(Op::Mul, self.data.as_mut_slice(), rhs.data.as_slice());
    }
}

impl<'a, 'b, T: Scalar> MulAssign<&'b Row<T>> for RowMut<'a, T> {
    /// `a *= &b` through a borrowed row: every `a[i]` becomes
    /// `a[i] * b[i]`, in the matrix.
    fn mul_assign(&mut self, rhs: &'b Row<T>)
        requires
            zip_req(Op::Mul, old(self).data@, rhs.data@),
        ensures
            final(self).data@ == zip_spec(Op::Mul, old(self).data@, rhs.data@),
            final(final(self).data)@ == final(old(self).data)@,
    {
        zip_assign(Op::Mul, self.data, rhs.data.as_slice());
    }
}

impl<'a, T: Scalar> MulAssign<Row<T>> for RowMut<'a, T> {
    /// `a *= b` through a borrowed row: every `a[i]` becomes
    /// `a[i] * b[i]`, in the matrix.
    fn mul_assign(&mut self, rhs: Row<T>)
        requires
            zip_req(Op::Mul, old(self).data@, rhs.data@),
        ensures
            final(self).data@ == zip_spec(Op::Mul, old(self).data@, rhs.data@),
            final(final(self).data)@ == final(old(self).data)@,
    {
        zip_assign(Op::Mul, self.data, rhs.data.as_slice());
    }
}

impl<T: Scalar> vstd::std_specs::ops::DivSpecImpl<Row<T>> for Row<T> {
    /// The result is a new row, which `div` itself describes.
    open spec fn obeys_div_spec() -> bool {
        false
    }

    open spec fn div_req(self, rhs: Row<T>) -> bool {
        zip_req(Op::Div, self.data@, rhs.data@)
    }

    open spec fn div_spec(self, rhs: Row<T>) -> Row<T> {
        self
    }
}

impl<T: Scalar> Div<Row<T>> for Row<T> {
    type Output = Row<T>;

    /// `a / b`: the row of `a[i] / b[i]`.
    fn div(self, rhs: Row<T>) -> (r: Row<T>)
        ensures
            r.data@ == zip_spec(Op::Div, self.data@, rhs.data@),
    {
        Row { data: zip(Op::Div, self.data.as_slice(), rhs.data.as_slice()) }
    }
}

impl<T: Scalar> vstd::std_specs::ops::DivSpecImpl<T> for Row<T> {
    /// The result is a new row, which `div` itself describes.
    open spec fn obeys_div_spec() -> bool {
        false
    }

    open spec fn div_req(self, rhs: T) -> bool {
        broadcast_req(Op::Div, self.data@, rhs)
    }

    open spec fn div_spec(self, rhs: T) -> Row<T> {
        self
    }
}

impl<T: Scalar> Div<T> for Row<T> {
    type Output = Row<T>;

    /// `a / k`: the row of `a[i] / k`.
    fn div(self, rhs: T) -> (r: Row<T>)
        ensures
            r.data@ == broadcast_spec(Op::Div, self.data@, rhs),
    {
        Row { data: broadcast(Op::Div, self.data.as_slice(), rhs) }
    }
}

impl<'a, 'b, T: Scalar> vstd::std_specs::ops::DivSpecImpl<&'b Row<T>> for &'a Row<T> {
    /// The result is a new row, which `div` itself describes.
    open spec fn obeys_div_spec() -> bool {
        false
    }

    open spec fn div_req(self, rhs: &'b Row<T>) -> bool {
        zip_req(Op::Div, self.data@, rhs.data@)
    }

    open spec fn div_spec(self, rhs: &'b Row<T>) -> Row<T> {
        *self
    }
}

impl<'a, 'b, T: Scalar> Div<&'b Row<T>> for &'a Row<T> {
    type Output = Row<T>;

    /// `&a / &b`: the row of `a[i] / b[i]`.
    fn div(self, rhs: &'b Row<T>) -> (r: Row<T>)
        ensures
            r.data@ == zip_spec(Op::Div, self.data@, rhs.data@),
    {
        Row { data: zip(Op::Div, self.data.as_slice(), rhs.data.as_slice()) }
    }
}

impl<'a, T: Scalar> vstd::std_specs::ops::DivSpecImpl<T> for &'a Row<T> {
    /// The result is a new row, which `div` itself describes.
    open spec fn obeys_div_spec() -> bool {
        false
    }

    open spec fn div_req(self, rhs: T) -> bool {
        broadcast_req(Op::Div, self.data@, rhs)
    }

    open spec fn div_spec(self, rhs: T) -> Row<T> {
        *self
    }
}

impl<'a, T: Scalar> Div<T> for &'a Row<T> {
    type Output = Row<T>;

    /// `&a / k`: the row of `a[i] / k`.
    fn div(self, rhs: T) -> (r: Row<T>)
        ensures
            r.data@ == broadcast_spec(Op::Div, self.data@, rhs),
    {
        Row { data: broadcast(Op::Div, self.data.as_slice(), rhs) }
    }
}

impl<T: Scalar> DivAssign<T> for Row<T> {
    /// `a /= k`: every `a[i]` becomes `a[i] / k`.
    fn div_assign(&mut self, rhs: T)
        requires
            broadcast_req(Op::Div, old(self).data@, rhs),
        ensures
            final(self).data@ == broadcast_spec(Op::Div, old(self).data@, rhs),
    {
        broadcast_assign(Op::Div, self.data.as_mut_slice(), rhs);
    }
}

impl<T: Scalar> DivAssign<Row<T>> for Row<T> {
    /// `a /= b`: every `a[i]` becomes `a[i] / b[i]`.
    fn div_assign(&mut self, rhs: Row<T>)
        requires
            zip_req(Op::Div, old(self).data@, rhs.data@),
        ensures
            final(self).data@ == zip_spec(Op::Div, old(self).data@, rhs.data@),
    {
        zip_assign(Op::Div, self.data.as_mut_slice(), rhs.data.as_slice());
    }
}

impl<'a, T: Scalar> DivAssign<T> for RowMut<'a, T> {
    /// `a /= k` through a borrowed row: every `a[i]` becomes
    /// `a[i] / k`, in the matrix.
    fn div_assign(&mut self, rhs: T)
        requires
            broadcast_req(Op::Div, old(self).data@, rhs),
        ensures
            final(self).data@ == broadcast_spec(Op::Div, old(self).data@, rhs),
            final(final(self).data)@ == final(old(self).data)@,
    {
        broadcast_assign(Op::Div, self.data, rhs);
    }
}

impl<'a, T: Scalar> DivAssign<&'a Row<T>> for Row<T> {
    /// `a /= &b`: every `a[i]` becomes `a[i] / b[i]`.
    fn div_assign(&mut self, rhs: &'a Row<T>)
        requires
            zip_req(Op::Div, old(self).data@, rhs.data@),
        ensures
            final(self).data@ == zip_spec(Op::Div, old(self).data@, rhs.data@),
    {
        zip_assign(Op::Div, self.data.as_mut_slice(), rhs.data.as_slice());
    }
}

impl<'a, 'b, T: Scalar> DivAssign<&'b Row<T>> for RowMut<'a, T> {
    /// `a /= &b` through a borrowed row: every `a[i]` becomes
    /// `a[i] / b[i]`, in the matrix.
    fn div_assign(&mut self, rhs: &'b Row<T>)
        requires
            zip_req(Op::Div, old(self).data@, rhs.data@),
        ensures
            final(self).data@ == zip_spec(Op::Div, old(self).data@, rhs.data@),
            final(final(self).data)@ == final(old(self).data)@,
    {
        zip_assign(Op::Div, self.data, rhs.data.as_slice());
    }
}

impl<'a, T: Scalar> DivAssign<Row<T>> for RowMut<'a, T> {
    /// `a /= b` through a borrowed row: every `a[i]` becomes
    /// `a[i] / b[i]`, in the matrix.
    fn div_assign(&mut self, rhs: Row<T>)
        requires
            zip_req(Op::Div, old(self).data@, rhs.data@),
        ensures
            final(self).data@ == zip_spec(Op::Div, old(self).data@, rhs.data@),
            final(final(self).data)@ == final(old(self).data)@,
    {
        zip_assign(Op::Div, self.data, rhs.data.as_slice());
    }
}

} // verus!
