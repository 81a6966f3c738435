//! The operators of tableau-row arithmetic: a row of the tableau with a row
//! of the same shape or with a scalar, giving a new row or assigning in
//! place, on an owned row or through a mutable borrow of the tableau.

use crate::elementwise::broadcast_req;
use crate::elementwise::broadcast_spec;
use crate::elementwise::zip_req;
use crate::elementwise::zip_spec;
use crate::elementwise::Op;
use crate::scalar::Scalar;
use crate::tableau::TableauRow;
use crate::tableau::TableauRowMut;
use std::ops::Add;
use std::ops::AddAssign;
use std::ops::Div;
use std::ops::DivAssign;
use std::ops::Mul;
use std::ops::MulAssign;
use std::ops::Sub;
use std::ops::SubAssign;
use vstd::prelude::*;

verus! {

/// Two rows that are combined must have as many variable columns.
pub fn assert_same_shape<T>(a: &TableauRow<T>, b: &TableauRow<T>)
    requires
        a.coefficients.data@.len() + a.slack.data@.len() == b.coefficients.data@.len()
            + b.slack.data@.len(),
{
}

impl<'a, 'b, T: Scalar> vstd::std_specs::ops::AddSpecImpl<&'b TableauRow<T>> for &'a TableauRow<T> {
    /// The result is a new row, which `add` itself describes.
    open spec fn obeys_add_spec() -> bool {
        false
    }

    open spec fn add_req(self, rhs: &'b TableauRow<T>) -> bool {
        self.same_shape(rhs) && zip_req(Op::Add, self.flat(), rhs.flat())
    }

    open spec fn add_spec(self, rhs: &'b TableauRow<T>) -> TableauRow<T> {
        *self
    }
}

impl<'a, 'b, T: Scalar> Add<&'b TableauRow<T>> for &'a TableauRow<T> {
    type Output = TableauRow<T>;

    /// `&a + &b`: the row of `a[i] + b[i]` over all logical columns.
    fn add(self, rhs: &'b TableauRow<T>) -> (r: TableauRow<T>)
        ensures
            r.same_shape(self),
            r.flat() == zip_spec(Op::Add, self.flat(), rhs.flat()),
    {
        assert_same_shape(self, rhs);
        self.zip(Op::Add, rhs)
    }
}

impl<'b, T: Scalar> vstd::std_specs::ops::AddSpecImpl<&'b TableauRow<T>> for TableauRow<T> {
    /// The result is a new row, which `add` itself describes.
    open spec fn obeys_add_spec() -> bool {
        false
    }

    open spec fn add_req(self, rhs: &'b TableauRow<T>) -> bool {
        self.same_shape(rhs) && zip_req(Op::Add, self.flat(), rhs.flat())
    }

    open spec fn add_spec(self, rhs: &'b TableauRow<T>) -> TableauRow<T> {
        self
    }
}

impl<'b, T: Scalar> Add<&'b TableauRow<T>> for TableauRow<T> {
    type Output = TableauRow<T>;

    /// `a + &b`: the row of `a[i] + b[i]` over all logical columns.
    fn add(self, rhs: &'b TableauRow<T>) -> (r: TableauRow<T>)
        ensures
            r.same_shape(&self),
            r.flat() == zip_spec(Op::Add, self.flat(), rhs.flat()),
    {
        self.zip(Op::Add, rhs)
    }
}

impl<'a, T: Scalar> vstd::std_specs::ops::AddSpecImpl<TableauRow<T>> for &'a TableauRow<T> {
    /// The result is a new row, which `add` itself describes.
    open spec fn obeys_add_spec() -> bool {
        false
    }

    open spec fn add_req(self, rhs: TableauRow<T>) -> bool {
        self.same_shape(&rhs) && zip_req(Op::Add, self.flat(), rhs.flat())
    }

    open spec fn add_spec(self, rhs: TableauRow<T>) -> TableauRow<T> {
        *self
    }
}

impl<'a, T: Scalar> Add<TableauRow<T>> for &'a TableauRow<T> {
    type Output = TableauRow<T>;

    /// `&a + b`: the row of `a[i] + b[i]` over all logical columns.
    fn add(self, rhs: TableauRow<T>) -> (r: TableauRow<T>)
        ensures
            r.same_shape(self),
            r.flat() == zip_spec(Op::Add, self.flat(), rhs.flat()),
    {
        self.zip(Op::Add, &rhs)
    }
}

impl<T: Scalar> vstd::std_specs::ops::AddSpecImpl<TableauRow<T>> for TableauRow<T> {
    /// The result is a new row, which `add` itself describes.
    open spec fn obeys_add_spec() -> bool {
        false
    }

    open spec fn add_req(self, rhs: TableauRow<T>) -> bool {
        self.same_shape(&rhs) && zip_req(Op::Add, self.flat(), rhs.flat())
    }

    open spec fn add_spec(self, rhs: TableauRow<T>) -> TableauRow<T> {
        self
    }
}

impl<T: Scalar> Add<TableauRow<T>> for TableauRow<T> {
    type Output = TableauRow<T>;

    /// `a + b`: the row of `a[i] + b[i]` over all logical columns.
    fn add(self, rhs: TableauRow<T>) -> (r: TableauRow<T>)
        ensures
            r.same_shape(&self),
            r.flat() == zip_spec(Op::Add, self.flat(), rhs.flat()),
    {
        self.zip(Op::Add, &rhs)
    }
}

impl<'a, T: Scalar> vstd::std_specs::ops::AddSpecImpl<T> for &'a TableauRow<T> {
    /// The result is a new row, which `add` itself describes.
    open spec fn obeys_add_spec() -> bool {
        false
    }

    open spec fn add_req(self, rhs: T) -> bool {
        broadcast_req(Op::Add, self.flat(), rhs)
    }

    open spec fn add_spec(self, rhs: T) -> TableauRow<T> {
        *self
    }
}

impl<'a, T: Scalar> Add<T> for &'a TableauRow<T> {
    type Output = TableauRow<T>;

    /// `&a + k`: the row of `a[i] + k` over all logical columns.
    fn add(self, rhs: T) -> (r: TableauRow<T>)
        ensures
            r.same_shape(self),
            r.flat() == broadcast_spec(Op::Add, self.flat(), rhs),
    {
        self.broadcast(Op::Add, rhs)
    }
}

impl<T: Scalar> vstd::std_specs::ops::AddSpecImpl<T> for TableauRow<T> {
    /// The result is a new row, which `add` itself describes.
    open spec fn obeys_add_spec() -> bool {
        false
    }

    open spec fn add_req(self, rhs: T) -> bool {
        broadcast_req(Op::Add, self.flat(), rhs)
    }

    open spec fn add_spec(self, rhs: T) -> TableauRow<T> {
        self
    }
}

impl<T: Scalar> Add<T> for TableauRow<T> {
    type Output = TableauRow<T>;

    /// `a + k`: the row of `a[i] + k` over all logical columns.
    fn add(self, rhs: T) -> (r: TableauRow<T>)
        ensures
            r.same_shape(&self),
            r.flat() == broadcast_spec(Op::Add, self.flat(), rhs),
    {
        self.broadcast(Op::Add, rhs)
    }
}

impl<'a, T: Scalar> AddAssign<&'a TableauRow<T>> for TableauRow<T> {
    /// `a += &b`: every `a[i]` becomes `a[i] + b[i]`.
    fn add_assign(&mut self, rhs: &'a TableauRow<T>)
        requires
            old(self).same_shape(rhs),
            zip_req(Op::Add, old(self).flat(), rhs.flat()),
        ensures
            final(self).same_shape(old(self)),
            final(self).flat() == zip_spec(Op::Add, old(self).flat(), rhs.flat()),
    {
        self.zip_assign(Op::Add, rhs);
    }
}

impl<T: Scalar> AddAssign<T> for TableauRow<T> {
    /// `a += k`: every `a[i]` becomes `a[i] + k`.
    fn add_assign(&mut self, rhs: T)
        requires
            broadcast_req(Op::Add, old(self).flat(), rhs),
        ensures
            final(self).same_shape(old(self)),
            final(self).flat() == broadcast_spec(Op::Add, old(self).flat(), rhs),
    {
        self.broadcast_assign(Op::Add, rhs);
    }
}

impl<'a, 'b, T: Scalar> AddAssign<&'b TableauRow<T>> for TableauRowMut<'a, T> {
    /// `a += &b` through a borrowed row: every `a[i]` becomes
    /// `a[i] + b[i]`, in the tableau.
    fn add_assign(&mut self, rhs: &'b TableauRow<T>)
        requires
            old(self).coefficients.data@.len() == rhs.coefficients.data@.len(),
            old(self).slack.data@.len() == rhs.slack.data@.len(),
            zip_req(Op::Add, old(self).flat(), rhs.flat()),
        ensures
            final(self).flat() == zip_spec(Op::Add, old(self).flat(), rhs.flat()),
            final(final(self).coefficients.data)@ == final(old(self).coefficients.data)@,
            final(final(self).slack.data)@ == final(old(self).slack.data)@,
            *final(final(self).rhs) == *final(old(self).rhs),
    {
        self.zip_assign(Op::Add, rhs);
    }
}

impl<'a, T: Scalar> AddAssign<TableauRow<T>> for TableauRowMut<'a, T> {
    /// `a += b` through a borrowed row: every `a[i]` becomes
    /// `a[i] + b[i]`, in the tableau.
    fn add_assign(&mut self, rhs: TableauRow<T>)
        requires
            old(self).coefficients.data@.len() == rhs.coefficients.data@.len(),
            old(self).slack.data@.len() == rhs.slack.data@.len(),
            zip_req(Op::Add, old(self).flat(), rhs.flat()),
        ensures
            final(self).flat() == zip_spec(Op::Add, old(self).flat(), rhs.flat()),
            final(final(self).coefficients.data)@ == final(old(self).coefficients.data)@,
            final(final(self).slack.data)@ == final(old(self).slack.data)@,
            *final(final(self).rhs) == *final(old(self).rhs),
    {
        self.zip_assign(Op::Add, &rhs);
    }
}

impl<'a, T: Scalar> AddAssign<T> for TableauRowMut<'a, T> {
    /// `a += k` through a borrowed row: every `a[i]` becomes
    /// `a[i] + k`, in the tableau.
    fn add_assign(&mut self, rhs: T)
        requires
            broadcast_req(Op::Add, old(self).flat(), rhs),
        ensures
            final(self).flat() == broadcast_spec(Op::Add, old(self).flat(), rhs),
            final(final(self).coefficients.data)@ == final(old(self).coefficients.data)@,
            final(final(self).slack.data)@ == final(old(self).slack.data)@,
            *final(final(self).rhs) == *final(old(self).rhs),
    {
        self.broadcast_assign(Op::Add, rhs);
    }
}

impl<'a, 'b, T: Scalar> vstd::std_specs::ops::SubSpecImpl<&'b TableauRow<T>> for &'a TableauRow<T> {
    /// The result is a new row, which `sub` itself describes.
    open spec fn obeys_sub_spec() -> bool {
        false
    }

    open spec fn sub_req(self, rhs: &'b TableauRow<T>) -> bool {
        self.same_shape(rhs) && zip_req(Op::Sub, self.flat(), rhs.flat())
    }

    open spec fn sub_spec(self, rhs: &'b TableauRow<T>) -> TableauRow<T> {
        *self
    }
}

impl<'a, 'b, T: Scalar> Sub<&'b TableauRow<T>> for &'a TableauRow<T> {
    type Output = TableauRow<T>;

    /// `&a - &b`: the row of `a[i] - b[i]` over all logical columns.
    fn sub(self, rhs: &'b TableauRow<T>) -> (r: TableauRow<T>)
        ensures
            r.same_shape(self),
            r.flat() == zip_spec(Op::Sub, self.flat(), rhs.flat()),
    {
        assert_same_shape(self, rhs);
        self.zip(Op::Sub, rhs)
    }
}

impl<'b, T: Scalar> vstd::std_specs::ops::SubSpecImpl<&'b TableauRow<T>> for TableauRow<T> {
    /// The result is a new row, which `sub` itself describes.
    open spec fn obeys_sub_spec() -> bool {
        false
    }

    open spec fn sub_req(self, rhs: &'b TableauRow<T>) -> bool {
        self.same_shape(rhs) && zip_req(Op::Sub, self.flat(), rhs.flat())
    }

    open spec fn sub_spec(self, rhs: &'b TableauRow<T>) -> TableauRow<T> {
        self
    }
}

impl<'b, T: Scalar> Sub<&'b TableauRow<T>> for TableauRow<T> {
    type Output = TableauRow<T>;

    /// `a - &b`: the row of `a[i] - b[i]` over all logical columns.
    fn sub(self, rhs: &'b TableauRow<T>) -> (r: TableauRow<T>)
        ensures
            r.same_shape(&self),
            r.flat() == zip_spec(Op::Sub, self.flat(), rhs.flat()),
    {
        self.zip(Op::Sub, rhs)
    }
}

impl<'a, T: Scalar> vstd::std_specs::ops::SubSpecImpl<TableauRow<T>> for &'a TableauRow<T> {
    /// The result is a new row, which `sub` itself describes.
    open spec fn obeys_sub_spec() -> bool {
        false
    }

    open spec fn sub_req(self, rhs: TableauRow<T>) -> bool {
        self.same_shape(&rhs) && zip_req(Op::Sub, self.flat(), rhs.flat())
    }

    open spec fn sub_spec(self, rhs: TableauRow<T>) -> TableauRow<T> {
        *self
    }
}

impl<'a, T: Scalar> Sub<TableauRow<T>> for &'a TableauRow<T> {
    type Output = TableauRow<T>;

    /// `&a - b`: the row of `a[i] - b[i]` over all logical columns.
    fn sub(self, rhs: TableauRow<T>) -> (r: TableauRow<T>)
        ensures
            r.same_shape(self),
            r.flat() == zip_spec(Op::Sub, self.flat(), rhs.flat()),
    {
        self.zip(Op::Sub, &rhs)
    }
}

impl<T: Scalar> vstd::std_specs::ops::SubSpecImpl<TableauRow<T>> for TableauRow<T> {
    /// The result is a new row, which `sub` itself describes.
    open spec fn obeys_sub_spec() -> bool {
        false
    }

    open spec fn sub_req(self, rhs: TableauRow<T>) -> bool {
        self.same_shape(&rhs) && zip_req(Op::Sub, self.flat(), rhs.flat())
    }

    open spec fn sub_spec(self, rhs: TableauRow<T>) -> TableauRow<T> {
        self
    }
}

impl<T: Scalar> Sub<TableauRow<T>> for TableauRow<T> {
    type Output = TableauRow<T>;

    /// `a - b`: the row of `a[i] - b[i]` over all logical columns.
    fn sub(self, rhs: TableauRow<T>) -> (r: TableauRow<T>)
        ensures
            r.same_shape(&self),
            r.flat() == zip_spec(Op::Sub, self.flat(), rhs.flat()),
    {
        self.zip(Op::Sub, &rhs)
    }
}

impl<'a, T: Scalar> vstd::std_specs::ops::SubSpecImpl<T> for &'a TableauRow<T> {
    /// The result is a new row, which `sub` itself describes.
    open spec fn obeys_sub_spec() -> bool {
        false
    }

    open spec fn sub_req(self, rhs: T) -> bool {
        broadcast_req(Op::Sub, self.flat(), rhs)
    }

    open spec fn sub_spec(self, rhs: T) -> TableauRow<T> {
        *self
    }
}

impl<'a, T: Scalar> Sub<T> for &'a TableauRow<T> {
    type Output = TableauRow<T>;

    /// `&a - k`: the row of `a[i] - k` over all logical columns.
    fn sub(self, rhs: T) -> (r: TableauRow<T>)
        ensures
            r.same_shape(self),
            r.flat() == broadcast_spec(Op::Sub, self.flat(), rhs),
    {
        self.broadcast(Op::Sub, rhs)
    }
}

impl<T: Scalar> vstd::std_specs::ops::SubSpecImpl<T> for TableauRow<T> {
    /// The result is a new row, which `sub` itself describes.
    open spec fn obeys_sub_spec() -> bool {
        false
    }

    open spec fn sub_req(self, rhs: T) -> bool {
        broadcast_req(Op::Sub, self.flat(), rhs)
    }

    open spec fn sub_spec(self, rhs: T) -> TableauRow<T> {
        self
    }
}

impl<T: Scalar> Sub<T> for TableauRow<T> {
    type Output = TableauRow<T>;

    /// `a - k`: the row of `a[i] - k` over all logical columns.
    fn sub(self, rhs: T) -> (r: TableauRow<T>)
        ensures
            r.same_shape(&self),
            r.flat() == broadcast_spec(Op::Sub, self.flat(), rhs),
    {
        self.broadcast(Op::Sub, rhs)
    }
}

impl<'a, T: Scalar> SubAssign<&'a TableauRow<T>> for TableauRow<T> {
    /// `a -= &b`: every `a[i]` becomes `a[i] - b[i]`.
    fn sub_assign(&mut self, rhs: &'a TableauRow<T>)
        requires
            old(self).same_shape(rhs),
            zip_req(Op::Sub, old(self).flat(), rhs.flat()),
        ensures
            final(self).same_shape(old(self)),
            final(self).flat() == zip_spec(Op::Sub, old(self).flat(), rhs.flat()),
    {
        self.zip_assign(Op::Sub, rhs);
    }
}

impl<T: Scalar> SubAssign<T> for TableauRow<T> {
    /// `a -= k`: every `a[i]` becomes `a[i] - k`.
    fn sub_assign(&mut self, rhs: T)
        requires
            broadcast_req(Op::Sub, old(self).flat(), rhs),
        ensures
            final(self).same_shape(old(self)),
            final(self).flat() == broadcast_spec(Op::Sub, old(self).flat(), rhs),
    {
        self.broadcast_assign(Op::Sub, rhs);
    }
}

impl<'a, 'b, T: Scalar> SubAssign<&'b TableauRow<T>> for TableauRowMut<'a, T> {
    /// `a -= &b` through a borrowed row: every `a[i]` becomes
    /// `a[i] - b[i]`, in the tableau.
    fn sub_assign(&mut self, rhs: &'b TableauRow<T>)
        requires
            old(self).coefficients.data@.len() == rhs.coefficients.data@.len(),
            old(self).slack.data@.len() == rhs.slack.data@.len(),
            zip_req(Op::Sub, old(self).flat(), rhs.flat()),
        ensures
            final(self).flat() == zip_spec(Op::Sub, old(self).flat(), rhs.flat()),
            final(final(self).coefficients.data)@ == final(old(self).coefficients.data)@,
            final(final(self).slack.data)@ == final(old(self).slack.data)@,
            *final(final(self).rhs) == *final(old(self).rhs),
    {
        self.zip_assign(Op::Sub, rhs);
    }
}

impl<'a, T: Scalar> SubAssign<TableauRow<T>> for TableauRowMut<'a, T> {
    /// `a -= b` through a borrowed row: every `a[i]` becomes
    /// `a[i] - b[i]`, in the tableau.
    fn sub_assign(&mut self, rhs: TableauRow<T>)
        requires
            old(self).coefficients.data@.len() == rhs.coefficients.data@.len(),
            old(self).slack.data@.len() == rhs.slack.data@.len(),
            zip_req(Op::Sub, old(self).flat(), rhs.flat()),
        ensures
            final(self).flat() == zip_spec(Op::Sub, old(self).flat(), rhs.flat()),
            final(final(self).coefficients.data)@ == final(old(self).coefficients.data)@,
            final(final(self).slack.data)@ == final(old(self).slack.data)@,
            *final(final(self).rhs) == *final(old(self).rhs),
    {
        self.zip_assign(Op::Sub, &rhs);
    }
}

impl<'a, T: Scalar> SubAssign<T> for TableauRowMut<'a, T> {
    /// `a -= k` through a borrowed row: every `a[i]` becomes
    /// `a[i] - k`, in the tableau.
    fn sub_assign(&mut self, rhs: T)
        requires
            broadcast_req(Op::Sub, old(self).flat(), rhs),
        ensures
            final(self).flat() == broadcast_spec(Op::Sub, old(self).flat(), rhs),
            final(final(self).coefficients.data)@ == final(old(self).coefficients.data)@,
            final(final(self).slack.data)@ == final(old(self).slack.data)@,
            *final(final(self).rhs) == *final(old(self).rhs),
    {
        self.broadcast_assign(Op::Sub, rhs);
    }
}

impl<'a, 'b, T: Scalar> vstd::std_specs::ops::MulSpecImpl<&'b TableauRow<T>> for &'a TableauRow<T> {
    /// The result is a new row, which `mul` itself describes.
    open spec fn obeys_mul_spec() -> bool {
        false
    }

    open spec fn mul_req(self, rhs: &'b TableauRow<T>) -> bool {
        self.same_shape(rhs) && zip_req(Op::Mul, self.flat(), rhs.flat())
    }

    open spec fn mul_spec(self, rhs: &'b TableauRow<T>) -> TableauRow<T> {
        *self
    }
}

impl<'a, 'b, T: Scalar> Mul<&'b TableauRow<T>> for &'a TableauRow<T> {
    type Output = TableauRow<T>;

    /// `&a * &b`: the row of `a[i] * b[i]` over all logical columns.
    fn mul(self, rhs: &'b TableauRow<T>) -> (r: TableauRow<T>)
        ensures
            r.same_shape(self),
            r.flat() == zip_spec(Op::Mul, self.flat(), rhs.flat()),
    {
        assert_same_shape(self, rhs);
        self.zip(Op::Mul, rhs)
    }
}

impl<'b, T: Scalar> vstd::std_specs::ops::MulSpecImpl<&'b TableauRow<T>> for TableauRow<T> {
    /// The result is a new row, which `mul` itself describes.
    open spec fn obeys_mul_spec() -> bool {
        false
    }

    open spec fn mul_req(self, rhs: &'b TableauRow<T>) -> bool {
        self.same_shape(rhs) && zip_req(Op::Mul, self.flat(), rhs.flat())
    }

    open spec fn mul_spec(self, rhs: &'b TableauRow<T>) -> TableauRow<T> {
        self
    }
}

impl<'b, T: Scalar> Mul<&'b TableauRow<T>> for TableauRow<T> {
    type Output = TableauRow<T>;

    /// `a * &b`: the row of `a[i] * b[i]` over all logical columns.
    fn mul(self, rhs: &'b TableauRow<T>) -> (r: TableauRow<T>)
        ensures
            r.same_shape(&self),
            r.flat() == zip_spec(Op::Mul, self.flat(), rhs.flat()),
    {
        self.zip(Op::Mul, rhs)
    }
}

impl<'a, T: Scalar> vstd::std_specs::ops::MulSpecImpl<TableauRow<T>> for &'a TableauRow<T> {
    /// The result is a new row, which `mul` itself describes.
    open spec fn obeys_mul_spec() -> bool {
        false
    }

    open spec fn mul_req(self, rhs: TableauRow<T>) -> bool {
        self.same_shape(&rhs) && zip_req(Op::Mul, self.flat(), rhs.flat())
    }

    open spec fn mul_spec(self, rhs: TableauRow<T>) -> TableauRow<T> {
        *self
    }
}

impl<'a, T: Scalar> Mul<TableauRow<T>> for &'a TableauRow<T> {
    type Output = TableauRow<T>;

    /// `&a * b`: the row of `a[i] * b[i]` over all logical columns.
    fn mul(self, rhs: TableauRow<T>) -> (r: TableauRow<T>)
        ensures
            r.same_shape(self),
            r.flat() == zip_spec(Op::Mul, self.flat(), rhs.flat()),
    {
        self.zip(Op::Mul, &rhs)
    }
}

impl<T: Scalar> vstd::std_specs::ops::MulSpecImpl<TableauRow<T>> for TableauRow<T> {
    /// The result is a new row, which `mul` itself describes.
    open spec fn obeys_mul_spec() -> bool {
        false
    }

    open spec fn mul_req(self, rhs: TableauRow<T>) -> bool {
        self.same_shape(&rhs) && zip_req(Op::Mul, self.flat(), rhs.flat())
    }

    open spec fn mul_spec(self, rhs: TableauRow<T>) -> TableauRow<T> {
        self
    }
}

impl<T: Scalar> Mul<TableauRow<T>> for TableauRow<T> {
    type Output = TableauRow<T>;

    /// `a * b`: the row of `a[i] * b[i]` over all logical columns.
    fn mul(self, rhs: TableauRow<T>) -> (r: TableauRow<T>)
        ensures
            r.same_shape(&self),
            r.flat() == zip_spec(Op::Mul, self.flat(), rhs.flat()),
    {
        self.zip(Op::Mul, &rhs)
    }
}

impl<'a, T: Scalar> vstd::std_specs::ops::MulSpecImpl<T> for &'a TableauRow<T> {
    /// The result is a new row, which `mul` itself describes.
    open spec fn obeys_mul_spec() -> bool {
        false
    }

    open spec fn mul_req(self, rhs: T) -> bool {
        broadcast_req(Op::Mul, self.flat(), rhs)
    }

    open spec fn mul_spec(self, rhs: T) -> TableauRow<T> {
        *self
    }
}

impl<'a, T: Scalar> Mul<T> for &'a TableauRow<T> {
    type Output = TableauRow<T>;

    /// `&a * k`: the row of `a[i] * k` over all logical columns.
    fn mul(self, rhs: T) -> (r: TableauRow<T>)
        ensures
            r.same_shape(self),
            r.flat() == broadcast_spec(Op::Mul, self.flat(), rhs),
    {
        self.broadcast(Op::Mul, rhs)
    }
}

impl<T: Scalar> vstd::std_specs::ops::MulSpecImpl<T> for TableauRow<T> {
    /// The result is a new row, which `mul` itself describes.
    open spec fn obeys_mul_spec() -> bool {
        false
    }

    open spec fn mul_req(self, rhs: T) -> bool {
        broadcast_req(Op::Mul, self.flat(), rhs)
    }

    open spec fn mul_spec(self, rhs: T) -> TableauRow<T> {
        self
    }
}

impl<T: Scalar> Mul<T> for TableauRow<T> {
    type Output = TableauRow<T>;

    /// `a * k`: the row of `a[i] * k` over all logical columns.
    fn mul(self, rhs: T) -> (r: TableauRow<T>)
        ensures
            r.same_shape(&self),
            r.flat() == broadcast_spec(Op::Mul, self.flat(), rhs),
    {
        self.broadcast(Op::Mul, rhs)
    }
}

impl<'a, T: Scalar> MulAssign<&'a TableauRow<T>> for TableauRow<T> {
    /// `a *= &b`: every `a[i]` becomes `a[i] * b[i]`.
    fn mul_assign(&mut self, rhs: &'a TableauRow<T>)
        requires
            old(self).same_shape(rhs),
            zip_req(Op::Mul, old(self).flat(), rhs.flat()),
        ensures
            final(self).same_shape(old(self)),
            final(self).flat() == zip_spec(Op::Mul, old(self).flat(), rhs.flat()),
    {
        self.zip_assign(Op::Mul, rhs);
    }
}

impl<T: Scalar> MulAssign<T> for TableauRow<T> {
    /// `a *= k`: every `a[i]` becomes `a[i] * k`.
    fn mul_assign(&mut self, rhs: T)
        requires
            broadcast_req(Op::Mul, old(self).flat(), rhs),
        ensures
            final(self).same_shape(old(self)),
            final(self).flat() == broadcast_spec(Op::Mul, old(self).flat(), rhs),
    {
        self.broadcast_assign(Op::Mul, rhs);
    }
}

impl<'a, 'b, T: Scalar> MulAssign<&'b TableauRow<T>> for TableauRowMut<'a, T> {
    /// `a *= &b` through a borrowed row: every `a[i]` becomes
    /// `a[i] * b[i]`, in the tableau.
    fn mul_assign(&mut self, rhs: &'b TableauRow<T>)
        requires
            old(self).coefficients.data@.len() == rhs.coefficients.data@.len(),
            old(self).slack.data@.len() == rhs.slack.data@.len(),
            zip_req(Op::Mul, old(self).flat(), rhs.flat()),
        ensures
            final(self).flat() == zip_spec(Op::Mul, old(self).flat(), rhs.flat()),
            final(final(self).coefficients.data)@ == final(old(self).coefficients.data)@,
            final(final(self).slack.data)@ == final(old(self).slack.data)@,
            *final(final(self).rhs) == *final(old(self).rhs),
    {
        self.zip_assign(Op::Mul, rhs);
    }
}

impl<'a, T: Scalar> MulAssign<TableauRow<T>> for TableauRowMut<'a, T> {
    /// `a *= b` through a borrowed row: every `a[i]` becomes
    /// `a[i] * b[i]`, in the tableau.
    fn mul_assign(&mut self, rhs: TableauRow<T>)
        requires
            old(self).coefficients.data@.len() == rhs.coefficients.data@.len(),
            old(self).slack.data@.len() == rhs.slack.data@.len(),
            zip_req(Op::Mul, old(self).flat(), rhs.flat()),
        ensures
            final(self).flat() == zip_spec(Op::Mul, old(self).flat(), rhs.flat()),
            final(final(self).coefficients.data)@ == final(old(self).coefficients.data)@,
            final(final(self).slack.data)@ == final(old(self).slack.data)@,
            *final(final(self).rhs) == *final(old(self).rhs),
    {
        self.zip_assign(Op::Mul, &rhs);
    }
}

impl<'a, T: Scalar> MulAssign<T> for TableauRowMut<'a, T> {
    /// `a *= k` through a borrowed row: every `a[i]` becomes
    /// `a[i] * k`, in the tableau.
    fn mul_assign(&mut self, rhs: T)
        requires
            broadcast_req(Op::Mul, old(self).flat(), rhs),
        ensures
            final(self).flat() == broadcast_spec(Op::Mul, old(self).flat(), rhs),
            final(final(self).coefficients.data)@ == final(old(self).coefficients.data)@,
            final(final(self).slack.data)@ == final(old(self).slack.data)@,
            *final(final(self).rhs) == *final(old(self).rhs),
    {
        self.broadcast_assign(Op::Mul, rhs);
    }
}

impl<'a, 'b, T: Scalar> vstd::std_specs::ops::DivSpecImpl<&'b TableauRow<T>> for &'a TableauRow<T> {
    /// The result is a new row, which `div` itself describes.
    open spec fn obeys_div_spec() -> bool {
        false
    }

    open spec fn div_req(self, rhs: &'b TableauRow<T>) -> bool {
        self.same_shape(rhs) && zip_req(Op::Div, self.flat(), rhs.flat())
    }

    open spec fn div_spec(self, rhs: &'b TableauRow<T>) -> TableauRow<T> {
        *self
    }
}

impl<'a, 'b, T: Scalar> Div<&'b TableauRow<T>> for &'a TableauRow<T> {
    type Output = TableauRow<T>;

    /// `&a / &b`: the row of `a[i] / b[i]` over all logical columns.
    fn div(self, rhs: &'b TableauRow<T>) -> (r: TableauRow<T>)
        ensures
            r.same_shape(self),
            r.flat() == zip_spec(Op::Div, self.flat(), rhs.flat()),
    {
        assert_same_shape(self, rhs);
        self.zip(Op::Div, rhs)
    }
}

impl<'b, T: Scalar> vstd::std_specs::ops::DivSpecImpl<&'b TableauRow<T>> for TableauRow<T> {
    /// The result is a new row, which `div` itself describes.
    open spec fn obeys_div_spec() -> bool {
        false
    }

    open spec fn div_req(self, rhs: &'b TableauRow<T>) -> bool {
        self.same_shape(rhs) && zip_req(Op::Div, self.flat(), rhs.flat())
    }

    open spec fn div_spec(self, rhs: &'b TableauRow<T>) -> TableauRow<T> {
        self
    }
}

impl<'b, T: Scalar> Div<&'b TableauRow<T>> for TableauRow<T> {
    type Output = TableauRow<T>;

    /// `a / &b`: the row of `a[i] / b[i]` over all logical columns.
    fn div(self, rhs: &'b TableauRow<T>) -> (r: TableauRow<T>)
        ensures
            r.same_shape(&self),
            r.flat() == zip_spec(Op::Div, self.flat(), rhs.flat()),
    {
        self.zip(Op::Div, rhs)
    }
}

impl<'a, T: Scalar> vstd::std_specs::ops::DivSpecImpl<TableauRow<T>> for &'a TableauRow<T> {
    /// The result is a new row, which `div` itself describes.
    open spec fn obeys_div_spec() -> bool {
        false
    }

    open spec fn div_req(self, rhs: TableauRow<T>) -> bool {
        self.same_shape(&rhs) && zip_req(Op::Div, self.flat(), rhs.flat())
    }

    open spec fn div_spec(self, rhs: TableauRow<T>) -> TableauRow<T> {
        *self
    }
}

impl<'a, T: Scalar> Div<TableauRow<T>> for &'a TableauRow<T> {
    type Output = TableauRow<T>;

    /// `&a / b`: the row of `a[i] / b[i]` over all logical columns.
    fn div(self, rhs: TableauRow<T>) -> (r: TableauRow<T>)
        ensures
            r.same_shape(self),
            r.flat() == zip_spec(Op::Div, self.flat(), rhs.flat()),
    {
        self.zip(Op::Div, &rhs)
    }
}

impl<T: Scalar> vstd::std_specs::ops::DivSpecImpl<TableauRow<T>> for TableauRow<T> {
    /// The result is a new row, which `div` itself describes.
    open spec fn obeys_div_spec() -> bool {
        false
    }

    open spec fn div_req(self, rhs: TableauRow<T>) -> bool {
        self.same_shape(&rhs) && zip_req(Op::Div, self.flat(), rhs.flat())
    }

    open spec fn div_spec(self, rhs: TableauRow<T>) -> TableauRow<T> {
        self
    }
}

impl<T: Scalar> Div<TableauRow<T>> for TableauRow<T> {
    type Output = TableauRow<T>;

    /// `a / b`: the row of `a[i] / b[i]` over all logical columns.
    fn div(self, rhs: TableauRow<T>) -> (r: TableauRow<T>)
        ensures
            r.same_shape(&self),
            r.flat() == zip_spec(Op::Div, self.flat(), rhs.flat()),
    {
        self.zip(Op::Div, &rhs)
    }
}

impl<'a, T: Scalar> vstd::std_specs::ops::DivSpecImpl<T> for &'a TableauRow<T> {
    /// The result is a new row, which `div` itself describes.
    open spec fn obeys_div_spec() -> bool {
        false
    }

    open spec fn div_req(self, rhs: T) -> bool {
        broadcast_req(Op::Div, self.flat(), rhs)
    }

    open spec fn div_spec(self, rhs: T) -> TableauRow<T> {
        *self
    }
}

impl<'a, T: Scalar> Div<T> for &'a TableauRow<T> {
    type Output = TableauRow<T>;

    /// `&a / k`: the row of `a[i] / k` over all logical columns.
    fn div(self, rhs: T) -> (r: TableauRow<T>)
        ensures
            r.same_shape(self),
            r.flat() == broadcast_spec(Op::Div, self.flat(), rhs),
    {
        self.broadcast(Op::Div, rhs)
    }
}

impl<T: Scalar> vstd::std_specs::ops::DivSpecImpl<T> for TableauRow<T> {
    /// The result is a new row, which `div` itself describes.
    open spec fn obeys_div_spec() -> bool {
        false
    }

    open spec fn div_req(self, rhs: T) -> bool {
        broadcast_req(Op::Div, self.flat(), rhs)
    }

    open spec fn div_spec(self, rhs: T) -> TableauRow<T> {
        self
    }
}

impl<T: Scalar> Div<T> for TableauRow<T> {
    type Output = TableauRow<T>;

    /// `a / k`: the row of `a[i] / k` over all logical columns.
    fn div(self, rhs: T) -> (r: TableauRow<T>)
        ensures
            r.same_shape(&self),
            r.flat() == broadcast_spec(Op::Div, self.flat(), rhs),
    {
        self.broadcast(Op::Div, rhs)
    }
}

impl<'a, T: Scalar> DivAssign<&'a TableauRow<T>> for TableauRow<T> {
    /// `a /= &b`: every `a[i]` becomes `a[i] / b[i]`.
    fn div_assign(&mut self, rhs: &'a TableauRow<T>)
        requires
            old(self).same_shape(rhs),
            zip_req(Op::Div, old(self).flat(), rhs.flat()),
        ensures
            final(self).same_shape(old(self)),
            final(self).flat() == zip_spec(Op::Div, old(self).flat(), rhs.flat()),
    {
        self.zip_assign(Op::Div, rhs);
    }
}

impl<T: Scalar> DivAssign<T> for TableauRow<T> {
    /// `a /= k`: every `a[i]` becomes `a[i] / k`.
    fn div_assign(&mut self, rhs: T)
        requires
            broadcast_req(Op::Div, old(self).flat(), rhs),
        ensures
            final(self).same_shape(old(self)),
            final(self).flat() == broadcast_spec(Op::Div, old(self).flat(), rhs),
    {
        self.broadcast_assign(Op::Div, rhs);
    }
}

impl<'a, 'b, T: Scalar> DivAssign<&'b TableauRow<T>> for TableauRowMut<'a, T> {
    /// `a /= &b` through a borrowed row: every `a[i]` becomes
    /// `a[i] / b[i]`, in the tableau.
    fn div_assign(&mut self, rhs: &'b TableauRow<T>)
        requires
            old(self).coefficients.data@.len() == rhs.coefficients.data@.len(),
            old(self).slack.data@.len() == rhs.slack.data@.len(),
            zip_req(Op::Div, old(self).flat(), rhs.flat()),
        ensures
            final(self).flat() == zip_spec(Op::Div, old(self).flat(), rhs.flat()),
            final(final(self).coefficients.data)@ == final(old(self).coefficients.data)@,
            final(final(self).slack.data)@ == final(old(self).slack.data)@,
            *final(final(self).rhs) == *final(old(self).rhs),
    {
        self.zip_assign(Op::Div, rhs);
    }
}

impl<'a, T: Scalar> DivAssign<TableauRow<T>> for TableauRowMut<'a, T> {
    /// `a /= b` through a borrowed row: every `a[i]` becomes
    /// `a[i] / b[i]`, in the tableau.
    fn div_assign(&mut self, rhs: TableauRow<T>)
        requires
            old(self).coefficients.data@.len() == rhs.coefficients.data@.len(),
            old(self).slack.data@.len() == rhs.slack.data@.len(),
            zip_req(Op::Div, old(self).flat(), rhs.flat()),
        ensures
            final(self).flat() == zip_spec(Op::Div, old(self).flat(), rhs.flat()),
            final(final(self).coefficients.data)@ == final(old(self).coefficients.data)@,
            final(final(self).slack.data)@ == final(old(self).slack.data)@,
            *final(final(self).rhs) == *final(old(self).rhs),
    {
        self.zip_assign(Op::Div, &rhs);
    }
}

impl<'a, T: Scalar> DivAssign<T> for TableauRowMut<'a, T> {
    /// `a /= k` through a borrowed row: every `a[i]` becomes
    /// `a[i] / k`, in the tableau.
    fn div_assign(&mut self, rhs: T)
        requires
            broadcast_req(Op::Div, old(self).flat(), rhs),
        ensures
            final(self).flat() == broadcast_spec(Op::Div, old(self).flat(), rhs),
            final(final(self).coefficients.data)@ == final(old(self).coefficients.data)@,
            final(final(self).slack.data)@ == final(old(self).slack.data)@,
            *final(final(self).rhs) == *final(old(self).rhs),
    {
        self.broadcast_assign(Op::Div, rhs);
    }
}

} // verus!
