//! The bit operators on matrices of one shape, element by element, for
//! entries that have them.

use crate::matrix::Matrix;
use std::ops::BitAnd;
use std::ops::BitAndAssign;
use std::ops::BitOr;
use std::ops::BitOrAssign;
use std::ops::BitXor;
use std::ops::BitXorAssign;
use std::ops::Shl;
use std::ops::ShlAssign;
use std::ops::Shr;
use std::ops::ShrAssign;
use vstd::prelude::*;
use vstd::std_specs::ops::BitAndSpec;
use vstd::std_specs::ops::BitOrSpec;
use vstd::std_specs::ops::BitXorSpec;
use vstd::std_specs::ops::ShlSpec;
use vstd::std_specs::ops::ShrSpec;

verus! {

/// Whether the and of every pair of entries can be computed.
pub open spec fn bitand_each_req<T: BitAnd<Output = T>>(a: Seq<T>, b: Seq<T>) -> bool {
    &&& a.len() == b.len()
    &&& forall|i: int| 0 <= i < a.len() ==> (#[trigger] a[i]).bitand_req(b[i])
}

/// Whether `r` holds the and of every pair of entries, as far as the
/// entries' own operator says what that is.
pub open spec fn bitand_each<T: BitAnd<Output = T>>(a: Seq<T>, b: Seq<T>, r: Seq<T>) -> bool {
    &&& r.len() == a.len()
    &&& T::obeys_bitand_spec() ==> forall|i: int|
        0 <= i < a.len() ==> #[trigger] r[i] == a[i].bitand_spec(b[i])
}

impl<'a, 'b, T: Copy + BitAnd<Output = T>> vstd::std_specs::ops::BitAndSpecImpl<&'b Matrix<T>> for &'a Matrix<T> {
    /// The result is a new matrix, which `bitand` itself describes.
    open spec fn obeys_bitand_spec() -> bool {
        false
    }

    open spec fn bitand_req(self, other: &'b Matrix<T>) -> bool {
        self.same_shape(other) && bitand_each_req(self.data@, other.data@)
    }

    open spec fn bitand_spec(self, other: &'b Matrix<T>) -> Matrix<T> {
        *self
    }
}

impl<'a, 'b, T: Copy + BitAnd<Output = T>> BitAnd<&'b Matrix<T>> for &'a Matrix<T> {
    type Output = Matrix<T>;

    /// `&a & &b`: the matrix of `a[i] & b[i]`.
    fn bitand(self, other: &'b Matrix<T>) -> (r: Matrix<T>)
        ensures
            r.same_shape(self),
            bitand_each(self.data@, other.data@, r.data@),
    {
        let n = self.data.len();
        let mut data: Vec<T> = Vec::with_capacity(n);
        let mut i: usize = 0;
        while i < n
            invariant
                n == self.data@.len(),
                bitand_each_req(self.data@, other.data@),
                i <= n,
                data@.len() == i,
                T::obeys_bitand_spec() ==> forall|j: int|
                    0 <= j < i ==> #[trigger] data@[j] == self.data@[j].bitand_spec(other.data@[j]),
            decreases n - i,
        {
            data.push(self.data[i] & other.data[i]);
            i += 1;
        }
        Matrix { rows: self.rows, cols: self.cols, data }
    }
}

impl<'b, T: Copy + BitAnd<Output = T>> BitAndAssign<&'b Matrix<T>> for Matrix<T> {
    /// `a &= &b`: every `a[i]` becomes `a[i] & b[i]`.
    fn bitand_assign(&mut self, other: &'b Matrix<T>)
        requires
            old(self).same_shape(other),
            bitand_each_req(old(self).data@, other.data@),
        ensures
            final(self).same_shape(old(self)),
            bitand_each(old(self).data@, other.data@, final(self).data@),
    {
        let n = self.data.len();
        let mut i: usize = 0;
        while i < n
            invariant
                self.rows == old(self).rows,
                self.cols == old(self).cols,
                n == old(self).data@.len(),
                self.data@.len() == n,
                bitand_each_req(old(self).data@, other.data@),
                i <= n,
                T::obeys_bitand_spec() ==> forall|j: int|
                    0 <= j < i ==> #[trigger] self.data@[j] == old(self).data@[j].bitand_spec(
                        other.data@[j],
                    ),
                forall|j: int| i <= j < n ==> #[trigger] self.data@[j] == old(self).data@[j],
            decreases n - i,
        {
            let v = self.data[i] & other.data[i];
            self.data[i] = v;
            i += 1;
        }
    }
}

/// Whether the or of every pair of entries can be computed.
pub open spec fn bitor_each_req<T: BitOr<Output = T>>(a: Seq<T>, b: Seq<T>) -> bool {
    &&& a.len() == b.len()
    &&& forall|i: int| 0 <= i < a.len() ==> (#[trigger] a[i]).bitor_req(b[i])
}

/// Whether `r` holds the or of every pair of entries, as far as the
/// entries' own operator says what that is.
pub open spec fn bitor_each<T: BitOr<Output = T>>(a: Seq<T>, b: Seq<T>, r: Seq<T>) -> bool {
    &&& r.len() == a.len()
    &&& T::obeys_bitor_spec() ==> forall|i: int|
        0 <= i < a.len() ==> #[trigger] r[i] == a[i].bitor_spec(b[i])
}

impl<'a, 'b, T: Copy + BitOr<Output = T>> vstd::std_specs::ops::BitOrSpecImpl<&'b Matrix<T>> for &'a Matrix<T> {
    /// The result is a new matrix, which `bitor` itself describes.
    open spec fn obeys_bitor_spec() -> bool {
        false
    }

    open spec fn bitor_req(self, other: &'b Matrix<T>) -> bool {
        self.same_shape(other) && bitor_each_req(self.data@, other.data@)
    }

    open spec fn bitor_spec(self, other: &'b Matrix<T>) -> Matrix<T> {
        *self
    }
}

impl<'a, 'b, T: Copy + BitOr<Output = T>> BitOr<&'b Matrix<T>> for &'a Matrix<T> {
    type Output = Matrix<T>;

    /// `&a | &b`: the matrix of `a[i] | b[i]`.
    fn bitor(self, other: &'b Matrix<T>) -> (r: Matrix<T>)
        ensures
            r.same_shape(self),
            bitor_each(self.data@, other.data@, r.data@),
    {
        let n = self.data.len();
        let mut data: Vec<T> = Vec::with_capacity(n);
        let mut i: usize = 0;
        while i < n
            invariant
                n == self.data@.len(),
                bitor_each_req(self.data@, other.data@),
                i <= n,
                data@.len() == i,
                T::obeys_bitor_spec() ==> forall|j: int|
                    0 <= j < i ==> #[trigger] data@[j] == self.data@[j].bitor_spec(other.data@[j]),
            decreases n - i,
        {
            data.push(self.data[i] | other.data[i]);
            i += 1;
        }
        Matrix { rows: self.rows, cols: self.cols, data }
    }
}

impl<'b, T: Copy + BitOr<Output = T>> BitOrAssign<&'b Matrix<T>> for Matrix<T> {
    /// `a |= &b`: every `a[i]` becomes `a[i] | b[i]`.
    fn bitor_assign(&mut self, other: &'b Matrix<T>)
        requires
            old(self).same_shape(other),
            bitor_each_req(old(self).data@, other.data@),
        ensures
            final(self).same_shape(old(self)),
            bitor_each(old(self).data@, other.data@, final(self).data@),
    {
        let n = self.data.len();
        let mut i: usize = 0;
        while i < n
            invariant
                self.rows == old(self).rows,
                self.cols == old(self).cols,
                n == old(self).data@.len(),
                self.data@.len() == n,
                bitor_each_req(old(self).data@, other.data@),
                i <= n,
                T::obeys_bitor_spec() ==> forall|j: int|
                    0 <= j < i ==> #[trigger] self.data@[j] == old(self).data@[j].bitor_spec(
                        other.data@[j],
                    ),
                forall|j: int| i <= j < n ==> #[trigger] self.data@[j] == old(self).data@[j],
            decreases n - i,
        {
            let v = self.data[i] | other.data[i];
            self.data[i] = v;
            i += 1;
        }
    }
}

/// Whether the exclusive or of every pair of entries can be computed.
pub open spec fn bitxor_each_req<T: BitXor<Output = T>>(a: Seq<T>, b: Seq<T>) -> bool {
    &&& a.len() == b.len()
    &&& forall|i: int| 0 <= i < a.len() ==> (#[trigger] a[i]).bitxor_req(b[i])
}

/// Whether `r` holds the exclusive or of every pair of entries, as far as the
/// entries' own operator says what that is.
pub open spec fn bitxor_each<T: BitXor<Output = T>>(a: Seq<T>, b: Seq<T>, r: Seq<T>) -> bool {
    &&& r.len() == a.len()
    &&& T::obeys_bitxor_spec() ==> forall|i: int|
        0 <= i < a.len() ==> #[trigger] r[i] == a[i].bitxor_spec(b[i])
}

impl<'a, 'b, T: Copy + BitXor<Output = T>> vstd::std_specs::ops::BitXorSpecImpl<&'b Matrix<T>> for &'a Matrix<T> {
    /// The result is a new matrix, which `bitxor` itself describes.
    open spec fn obeys_bitxor_spec() -> bool {
        false
    }

    open spec fn bitxor_req(self, other: &'b Matrix<T>) -> bool {
        self.same_shape(other) && bitxor_each_req(self.data@, other.data@)
    }

    open spec fn bitxor_spec(self, other: &'b Matrix<T>) -> Matrix<T> {
        *self
    }
}

impl<'a, 'b, T: Copy + BitXor<Output = T>> BitXor<&'b Matrix<T>> for &'a Matrix<T> {
    type Output = Matrix<T>;

    /// `&a ^ &b`: the matrix of `a[i] ^ b[i]`.
    fn bitxor(self, other: &'b Matrix<T>) -> (r: Matrix<T>)
        ensures
            r.same_shape(self),
            bitxor_each(self.data@, other.data@, r.data@),
    {
        let n = self.data.len();
        let mut data: Vec<T> = Vec::with_capacity(n);
        let mut i: usize = 0;
        while i < n
            invariant
                n == self.data@.len(),
                bitxor_each_req(self.data@, other.data@),
                i <= n,
                data@.len() == i,
                T::obeys_bitxor_spec() ==> forall|j: int|
                    0 <= j < i ==> #[trigger] data@[j] == self.data@[j].bitxor_spec(other.data@[j]),
            decreases n - i,
        {
            data.push(self.data[i] ^ other.data[i]);
            i += 1;
        }
        Matrix { rows: self.rows, cols: self.cols, data }
    }
}

impl<'b, T: Copy + BitXor<Output = T>> BitXorAssign<&'b Matrix<T>> for Matrix<T> {
    /// `a ^= &b`: every `a[i]` becomes `a[i] ^ b[i]`.
    fn bitxor_assign(&mut self, other: &'b Matrix<T>)
        requires
            old(self).same_shape(other),
            bitxor_each_req(old(self).data@, other.data@),
        ensures
            final(self).same_shape(old(self)),
            bitxor_each(old(self).data@, other.data@, final(self).data@),
    {
        let n = self.data.len();
        let mut i: usize = 0;
        while i < n
            invariant
                self.rows == old(self).rows,
                self.cols == old(self).cols,
                n == old(self).data@.len(),
                self.data@.len() == n,
                bitxor_each_req(old(self).data@, other.data@),
                i <= n,
                T::obeys_bitxor_spec() ==> forall|j: int|
                    0 <= j < i ==> #[trigger] self.data@[j] == old(self).data@[j].bitxor_spec(
                        other.data@[j],
                    ),
                forall|j: int| i <= j < n ==> #[trigger] self.data@[j] == old(self).data@[j],
            decreases n - i,
        {
            let v = self.data[i] ^ other.data[i];
            self.data[i] = v;
            i += 1;
        }
    }
}

/// Whether the shift to the left of every pair of entries can be computed.
pub open spec fn shl_each_req<T: Shl<Output = T>>(a: Seq<T>, b: Seq<T>) -> bool {
    &&& a.len() == b.len()
    &&& forall|i: int| 0 <= i < a.len() ==> (#[trigger] a[i]).shl_req(b[i])
}

/// Whether `r` holds the shift to the left of every pair of entries, as far as the
/// entries' own operator says what that is.
pub open spec fn shl_each<T: Shl<Output = T>>(a: Seq<T>, b: Seq<T>, r: Seq<T>) -> bool {
    &&& r.len() == a.len()
    &&& T::obeys_shl_spec() ==> forall|i: int|
        0 <= i < a.len() ==> #[trigger] r[i] == a[i].shl_spec(b[i])
}

impl<'a, 'b, T: Copy + Shl<Output = T>> vstd::std_specs::ops::ShlSpecImpl<&'b Matrix<T>> for &'a Matrix<T> {
    /// The result is a new matrix, which `shl` itself describes.
    open spec fn obeys_shl_spec() -> bool {
        false
    }

    open spec fn shl_req(self, other: &'b Matrix<T>) -> bool {
        self.same_shape(other) && shl_each_req(self.data@, other.data@)
    }

    open spec fn shl_spec(self, other: &'b Matrix<T>) -> Matrix<T> {
        *self
    }
}

impl<'a, 'b, T: Copy + Shl<Output = T>> Shl<&'b Matrix<T>> for &'a Matrix<T> {
    type Output = Matrix<T>;

    /// `&a << &b`: the matrix of `a[i] << b[i]`.
    fn shl(self, other: &'b Matrix<T>) -> (r: Matrix<T>)
        ensures
            r.same_shape(self),
            shl_each(self.data@, other.data@, r.data@),
    {
        let n = self.data.len();
        let mut data: Vec<T> = Vec::with_capacity(n);
        let mut i: usize = 0;
        while i < n
            invariant
                n == self.data@.len(),
                shl_each_req(self.data@, other.data@),
                i <= n,
                data@.len() == i,
                T::obeys_shl_spec() ==> forall|j: int|
                    0 <= j < i ==> #[trigger] data@[j] == self.data@[j].shl_spec(other.data@[j]),
            decreases n - i,
        {
            data.push(self.data[i] << other.data[i]);
            i += 1;
        }
        Matrix { rows: self.rows, cols: self.cols, data }
    }
}

impl<'b, T: Copy + Shl<Output = T>> ShlAssign<&'b Matrix<T>> for Matrix<T> {
    /// `a <<= &b`: every `a[i]` becomes `a[i] << b[i]`.
    fn shl_assign(&mut self, other: &'b Matrix<T>)
        requires
            old(self).same_shape(other),
            shl_each_req(old(self).data@, other.data@),
        ensures
            final(self).same_shape(old(self)),
            shl_each(old(self).data@, other.data@, final(self).data@),
    {
        let n = self.data.len();
        let mut i: usize = 0;
        while i < n
            invariant
                self.rows == old(self).rows,
                self.cols == old(self).cols,
                n == old(self).data@.len(),
                self.data@.len() == n,
                shl_each_req(old(self).data@, other.data@),
                i <= n,
                T::obeys_shl_spec() ==> forall|j: int|
                    0 <= j < i ==> #[trigger] self.data@[j] == old(self).data@[j].shl_spec(
                        other.data@[j],
                    ),
                forall|j: int| i <= j < n ==> #[trigger] self.data@[j] == old(self).data@[j],
            decreases n - i,
        {
            let v = self.data[i] << other.data[i];
            self.data[i] = v;
            i += 1;
        }
    }
}

/// Whether the shift to the right of every pair of entries can be computed.
pub open spec fn shr_each_req<T: Shr<Output = T>>(a: Seq<T>, b: Seq<T>) -> bool {
    &&& a.len() == b.len()
    &&& forall|i: int| 0 <= i < a.len() ==> (#[trigger] a[i]).shr_req(b[i])
}

/// Whether `r` holds the shift to the right of every pair of entries, as far as the
/// entries' own operator says what that is.
pub open spec fn shr_each<T: Shr<Output = T>>(a: Seq<T>, b: Seq<T>, r: Seq<T>) -> bool {
    &&& r.len() == a.len()
    &&& T::obeys_shr_spec() ==> forall|i: int|
        0 <= i < a.len() ==> #[trigger] r[i] == a[i].shr_spec(b[i])
}

impl<'a, 'b, T: Copy + Shr<Output = T>> vstd::std_specs::ops::ShrSpecImpl<&'b Matrix<T>> for &'a Matrix<T> {
    /// The result is a new matrix, which `shr` itself describes.
    open spec fn obeys_shr_spec() -> bool {
        false
    }

    open spec fn shr_req(self, other: &'b Matrix<T>) -> bool {
        self.same_shape(other) && shr_each_req(self.data@, other.data@)
    }

    open spec fn shr_spec(self, other: &'b Matrix<T>) -> Matrix<T> {
        *self
    }
}

impl<'a, 'b, T: Copy + Shr<Output = T>> Shr<&'b Matrix<T>> for &'a Matrix<T> {
    type Output = Matrix<T>;

    /// `&a >> &b`: the matrix of `a[i] >> b[i]`.
    fn shr(self, other: &'b Matrix<T>) -> (r: Matrix<T>)
        ensures
            r.same_shape(self),
            shr_each(self.data@, other.data@, r.data@),
    {
        let n = self.data.len();
        let mut data: Vec<T> = Vec::with_capacity(n);
        let mut i: usize = 0;
        while i < n
            invariant
                n == self.data@.len(),
                shr_each_req(self.data@, other.data@),
                i <= n,
                data@.len() == i,
                T::obeys_shr_spec() ==> forall|j: int|
                    0 <= j < i ==> #[trigger] data@[j] == self.data@[j].shr_spec(other.data@[j]),
            decreases n - i,
        {
            data.push(self.data[i] >> other.data[i]);
            i += 1;
        }
        Matrix { rows: self.rows, cols: self.cols, data }
    }
}

impl<'b, T: Copy + Shr<Output = T>> ShrAssign<&'b Matrix<T>> for Matrix<T> {
    /// `a >>= &b`: every `a[i]` becomes `a[i] >> b[i]`.
    fn shr_assign(&mut self, other: &'b Matrix<T>)
        requires
            old(self).same_shape(other),
            shr_each_req(old(self).data@, other.data@),
        ensures
            final(self).same_shape(old(self)),
            shr_each(old(self).data@, other.data@, final(self).data@),
    {
        let n = self.data.len();
        let mut i: usize = 0;
        while i < n
            invariant
                self.rows == old(self).rows,
                self.cols == old(self).cols,
                n == old(self).data@.len(),
                self.data@.len() == n,
                shr_each_req(old(self).data@, other.data@),
                i <= n,
                T::obeys_shr_spec() ==> forall|j: int|
                    0 <= j < i ==> #[trigger] self.data@[j] == old(self).data@[j].shr_spec(
                        other.data@[j],
                    ),
                forall|j: int| i <= j < n ==> #[trigger] self.data@[j] == old(self).data@[j],
            decreases n - i,
        {
            let v = self.data[i] >> other.data[i];
            self.data[i] = v;
            i += 1;
        }
    }
}

} // verus!
