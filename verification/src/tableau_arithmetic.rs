//! Row arithmetic lifted to rows of the tableau: each operation acts on the
//! structural part, the slack part and the right-hand side alike.

use crate::elementwise::broadcast_req;
use crate::elementwise::broadcast_spec;
use crate::elementwise::op_req;
use crate::elementwise::op_spec;
use crate::elementwise::scaled_req;
use crate::elementwise::scaled_spec;
use crate::elementwise::zip_req;
use crate::elementwise::zip_spec;
use crate::elementwise::Op;
use crate::matrix::Row;
use crate::scalar::Scalar;
use crate::tableau::TableauRow;
use crate::tableau::TableauRowMut;
use vstd::prelude::*;

verus! {

/// An operation with a scalar acts on a row in three parts as it acts on
/// each part.
pub proof fn lemma_broadcast_parts<T: Scalar>(op: Op, a: Seq<T>, b: Seq<T>, c: T, k: T)
    ensures
        broadcast_req(op, a + b + seq![c], k) <==> broadcast_req(op, a, k) && broadcast_req(
            op,
            b,
            k,
        ) && op_req(op, c, k),
        broadcast_spec(op, a + b + seq![c], k) == broadcast_spec(op, a, k) + broadcast_spec(
            op,
            b,
            k,
        ) + seq![op_spec(op, c, k)],
{
    let whole = a + b + seq![c];
    if broadcast_req(op, whole, k) {
        assert forall|i: int| 0 <= i < a.len() implies op_req(op, #[trigger] a[i], k) by {
            assert(whole[i] == a[i]);
        }
        assert forall|i: int| 0 <= i < b.len() implies op_req(op, #[trigger] b[i], k) by {
            assert(whole[a.len() + i] == b[i]);
        }
        assert(whole[(a.len() + b.len()) as int] == c);
    }
    assert(broadcast_spec(op, whole, k) =~= broadcast_spec(op, a, k) + broadcast_spec(op, b, k)
        + seq![op_spec(op, c, k)]);
}

/// An operation between two rows of one shape acts on the rows in three
/// parts as it acts on each pair of parts.
pub proof fn lemma_zip_parts<T: Scalar>(
    op: Op,
    a: Seq<T>,
    b: Seq<T>,
    c: T,
    a2: Seq<T>,
    b2: Seq<T>,
    c2: T,
)
    requires
        a.len() == a2.len(),
        b.len() == b2.len(),
    ensures
        zip_req(op, a + b + seq![c], a2 + b2 + seq![c2]) <==> zip_req(op, a, a2) && zip_req(
            op,
            b,
            b2,
        ) && op_req(op, c, c2),
        zip_spec(op, a + b + seq![c], a2 + b2 + seq![c2]) == zip_spec(op, a, a2) + zip_spec(
            op,
            b,
            b2,
        ) + seq![op_spec(op, c, c2)],
{
    let whole = a + b + seq![c];
    let whole2 = a2 + b2 + seq![c2];
    if zip_req(op, whole, whole2) {
        assert forall|i: int| 0 <= i < a.len() implies op_req(op, #[trigger] a[i], a2[i]) by {
            assert(whole[i] == a[i] && whole2[i] == a2[i]);
        }
        assert forall|i: int| 0 <= i < b.len() implies op_req(op, #[trigger] b[i], b2[i]) by {
            assert(whole[a.len() + i] == b[i] && whole2[a.len() + i] == b2[i]);
        }
        assert(whole[(a.len() + b.len()) as int] == c && whole2[(a.len() + b.len()) as int] == c2);
    }
    assert(zip_spec(op, whole, whole2) =~= zip_spec(op, a, a2) + zip_spec(op, b, b2)
        + seq![op_spec(op, c, c2)]);
}

/// The fused update acts on rows in three parts as it acts on each pair of
/// parts.
pub proof fn lemma_scaled_parts<T: Scalar>(
    a: Seq<T>,
    b: Seq<T>,
    c: T,
    a2: Seq<T>,
    b2: Seq<T>,
    c2: T,
    k: T,
)
    requires
        a.len() == a2.len(),
        b.len() == b2.len(),
    ensures
        scaled_req(a + b + seq![c], a2 + b2 + seq![c2], k) <==> scaled_req(a, a2, k)
            && scaled_req(b, b2, k) && c2.mul_req(k) && c.sub_req(c2.mul_spec(k)),
        scaled_spec(a + b + seq![c], a2 + b2 + seq![c2], k) == scaled_spec(a, a2, k)
            + scaled_spec(b, b2, k) + seq![c.sub_spec(c2.mul_spec(k))],
{
    let whole = a + b + seq![c];
    let whole2 = a2 + b2 + seq![c2];
    if scaled_req(whole, whole2, k) {
        assert forall|i: int| 0 <= i < a.len() implies (#[trigger] a2[i]).mul_req(k)
            && a[i].sub_req(a2[i].mul_spec(k)) by {
            assert(whole[i] == a[i] && whole2[i] == a2[i]);
        }
        assert forall|i: int| 0 <= i < b.len() implies (#[trigger] b2[i]).mul_req(k)
            && b[i].sub_req(b2[i].mul_spec(k)) by {
            assert(whole[a.len() + i] == b[i] && whole2[a.len() + i] == b2[i]);
        }
        assert(whole[(a.len() + b.len()) as int] == c && whole2[(a.len() + b.len()) as int] == c2);
    }
    if scaled_req(a, a2, k) && scaled_req(b, b2, k) && c2.mul_req(k) && c.sub_req(c2.mul_spec(k)) {
        assert forall|i: int| 0 <= i < whole.len() implies (#[trigger] whole2[i]).mul_req(k)
            && whole[i].sub_req(whole2[i].mul_spec(k)) by {
            if i < a.len() {
                assert(whole[i] == a[i] && whole2[i] == a2[i]);
            } else if i < a.len() + b.len() {
                assert(whole[i] == b[i - a.len()] && whole2[i] == b2[i - a.len()]);
            }
        }
    }
    assert(scaled_spec(whole, whole2, k) =~= scaled_spec(a, a2, k) + scaled_spec(b, b2, k)
        + seq![c.sub_spec(c2.mul_spec(k))]);
}

impl<T: Scalar> TableauRow<T> {
    /// A new row of `self[i] op other[i]` over all logical columns.
    pub fn zip(&self, op: Op, other: &TableauRow<T>) -> (r: TableauRow<T>)
        requires
            self.same_shape(other),
            zip_req(op, self.flat(), other.flat()),
        ensures
            r.same_shape(self),
            r.flat() == zip_spec(op, self.flat(), other.flat()),
    {
        proof {
            lemma_zip_parts(
                op,
                self.coefficients.data@,
                self.slack.data@,
                self.rhs,
                other.coefficients.data@,
                other.slack.data@,
                other.rhs,
            );
        }
        TableauRow {
            coefficients: Row {
                data: crate::elementwise::zip(
                    op,
                    self.coefficients.data.as_slice(),
                    other.coefficients.data.as_slice(),
                ),
            },
            slack: Row {
                data: crate::elementwise::zip(
                    op,
                    self.slack.data.as_slice(),
                    other.slack.data.as_slice(),
                ),
            },
            rhs: crate::elementwise::apply(op, self.rhs, other.rhs),
        }
    }

    /// A new row of `self[i] op k` over all logical columns.
    pub fn broadcast(&self, op: Op, k: T) -> (r: TableauRow<T>)
        requires
            broadcast_req(op, self.flat(), k),
        ensures
            r.same_shape(self),
            r.flat() == broadcast_spec(op, self.flat(), k),
    {
        proof {
            lemma_broadcast_parts(op, self.coefficients.data@, self.slack.data@, self.rhs, k);
        }
        TableauRow {
            coefficients: Row {
                data: crate::elementwise::broadcast(op, self.coefficients.data.as_slice(), k),
            },
            slack: Row { data: crate::elementwise::broadcast(op, self.slack.data.as_slice(), k) },
            rhs: crate::elementwise::apply(op, self.rhs, k),
        }
    }

    /// Replaces every `self[i]` by `self[i] op other[i]`.
    pub fn zip_assign(&mut self, op: Op, other: &TableauRow<T>)
        requires
            old(self).same_shape(other),
            zip_req(op, old(self).flat(), other.flat()),
        ensures
            final(self).same_shape(old(self)),
            final(self).flat() == zip_spec(op, old(self).flat(), other.flat()),
    {
        proof {
            lemma_zip_parts(
                op,
                self.coefficients.data@,
                self.slack.data@,
                self.rhs,
                other.coefficients.data@,
                other.slack.data@,
                other.rhs,
            );
        }
        crate::elementwise::zip_assign(
            op,
            self.coefficients.data.as_mut_slice(),
            other.coefficients.data.as_slice(),
        );
        crate::elementwise::zip_assign(
            op,
            self.slack.data.as_mut_slice(),
            other.slack.data.as_slice(),
        );
        self.rhs = crate::elementwise::apply(op, self.rhs, other.rhs);
    }

    /// Replaces every `self[i]` by `self[i] op k`.
    pub fn broadcast_assign(&mut self, op: Op, k: T)
        requires
            broadcast_req(op, old(self).flat(), k),
        ensures
            final(self).same_shape(old(self)),
            final(self).flat() == broadcast_spec(op, old(self).flat(), k),
    {
        proof {
            lemma_broadcast_parts(op, self.coefficients.data@, self.slack.data@, self.rhs, k);
        }
        crate::elementwise::broadcast_assign(op, self.coefficients.data.as_mut_slice(), k);
        crate::elementwise::broadcast_assign(op, self.slack.data.as_mut_slice(), k);
        self.rhs = crate::elementwise::apply(op, self.rhs, k);
    }
}

impl<'a, T: Scalar> TableauRowMut<'a, T> {
    /// Replaces every `self[i]` by `self[i] op other[i]`, in the tableau.
    pub fn zip_assign(&mut self, op: Op, other: &TableauRow<T>)
        requires
            old(self).coefficients.data@.len() == other.coefficients.data@.len(),
            old(self).slack.data@.len() == other.slack.data@.len(),
            zip_req(op, old(self).flat(), other.flat()),
        ensures
            final(self).coefficients.data@ == zip_spec(
                op,
                old(self).coefficients.data@,
                other.coefficients.data@,
            ),
            final(self).slack.data@ == zip_spec(op, old(self).slack.data@, other.slack.data@),
            *final(self).rhs == op_spec(op, *old(self).rhs, other.rhs),
            final(self).flat() == zip_spec(op, old(self).flat(), other.flat()),
            final(final(self).coefficients.data)@ == final(old(self).coefficients.data)@,
            final(final(self).slack.data)@ == final(old(self).slack.data)@,
            *final(final(self).rhs) == *final(old(self).rhs),
    {
        proof {
            lemma_zip_parts(
                op,
                self.coefficients.data@,
                self.slack.data@,
                *self.rhs,
                other.coefficients.data@,
                other.slack.data@,
                other.rhs,
            );
        }
        crate::elementwise::zip_assign(
            op,
            self.coefficients.data,
            other.coefficients.data.as_slice(),
        );
        crate::elementwise::zip_assign(op, self.slack.data, other.slack.data.as_slice());
        *self.rhs = crate::elementwise::apply(op, *self.rhs, other.rhs);
    }

    /// Replaces every `self[i]` by `self[i] op k`, in the tableau.
    pub fn broadcast_assign(&mut self, op: Op, k: T)
        requires
            broadcast_req(op, old(self).flat(), k),
        ensures
            final(self).coefficients.data@ == broadcast_spec(op, old(self).coefficients.data@, k),
            final(self).slack.data@ == broadcast_spec(op, old(self).slack.data@, k),
            *final(self).rhs == op_spec(op, *old(self).rhs, k),
            final(self).flat() == broadcast_spec(op, old(self).flat(), k),
            final(final(self).coefficients.data)@ == final(old(self).coefficients.data)@,
            final(final(self).slack.data)@ == final(old(self).slack.data)@,
            *final(final(self).rhs) == *final(old(self).rhs),
    {
        proof {
            lemma_broadcast_parts(op, self.coefficients.data@, self.slack.data@, *self.rhs, k);
        }
        crate::elementwise::broadcast_assign(op, self.coefficients.data, k);
        crate::elementwise::broadcast_assign(op, self.slack.data, k);
        *self.rhs = crate::elementwise::apply(op, *self.rhs, k);
    }

    /// The fused update `self[i] -= other[i] * k` over all logical columns:
    /// one pass over each part, and one multiply and subtract on the
    /// right-hand side.
    pub fn sub_assign_scaled(&mut self, other: &TableauRow<T>, k: T)
        requires
            old(self).coefficients.data@.len() == other.coefficients.data@.len(),
            old(self).slack.data@.len() == other.slack.data@.len(),
            scaled_req(old(self).flat(), other.flat(), k),
        ensures
            final(self).coefficients.data@ == scaled_spec(
                old(self).coefficients.data@,
                other.coefficients.data@,
                k,
            ),
            final(self).slack.data@ == scaled_spec(old(self).slack.data@, other.slack.data@, k),
            *final(self).rhs == (*old(self).rhs).sub_spec(other.rhs.mul_spec(k)),
            final(self).flat() == scaled_spec(old(self).flat(), other.flat(), k),
            final(final(self).coefficients.data)@ == final(old(self).coefficients.data)@,
            final(final(self).slack.data)@ == final(old(self).slack.data)@,
            *final(final(self).rhs) == *final(old(self).rhs),
    {
        proof {
            lemma_scaled_parts(
                self.coefficients.data@,
                self.slack.data@,
                *self.rhs,
                other.coefficients.data@,
                other.slack.data@,
                other.rhs,
                k,
            );
        }
        crate::elementwise::sub_assign_scaled(
            self.coefficients.data,
            other.coefficients.data.as_slice(),
            k,
        );
        crate::elementwise::sub_assign_scaled(self.slack.data, other.slack.data.as_slice(), k);
        *self.rhs = (*self.rhs).sub(other.rhs.mul(k));
    }
}

} // verus!
