//! Arithmetic on sequences of scalars, element by element: the common ground
//! of row, matrix and tableau-row arithmetic.

use crate::scalar::Scalar;
use vstd::prelude::*;

verus! {

/// One of the four field operations.
#[derive(Clone, Copy, Debug, PartialEq, Eq, Structural)]
pub enum Op {
    Add,
    Sub,
    Mul,
    Div,
}

/// Whether `a op b` can be computed.
pub open spec fn op_req<T: Scalar>(op: Op, a: T, b: T) -> bool {
    match op {
        Op::Add => a.add_req(b),
        Op::Sub => a.sub_req(b),
        Op::Mul => a.mul_req(b),
        Op::Div => a.div_req(b),
    }
}

/// The value of `a op b`.
pub open spec fn op_spec<T: Scalar>(op: Op, a: T, b: T) -> T {
    match op {
        Op::Add => a.add_spec(b),
        Op::Sub => a.sub_spec(b),
        Op::Mul => a.mul_spec(b),
        Op::Div => a.div_spec(b),
    }
}

/// The operation on the numbers themselves.
pub open spec fn op_val(op: Op, x: real, y: real) -> real {
    match op {
        Op::Add => x + y,
        Op::Sub => x - y,
        Op::Mul => x * y,
        Op::Div => x / y,
    }
}

/// Where `a op b` can be computed, it stands for the operation on the
/// numbers, and a divisor is not zero.
pub proof fn lemma_op<T: Scalar>(op: Op, a: T, b: T)
    requires
        op_req(op, a, b),
    ensures
        op_spec(op, a, b).val() == op_val(op, a.val(), b.val()),
        op == Op::Div ==> b.val() != 0real,
{
    match op {
        Op::Add => a.lemma_add(b),
        Op::Sub => a.lemma_sub(b),
        Op::Mul => a.lemma_mul(b),
        Op::Div => a.lemma_div(b),
    }
}

/// Computes `a op b`.
pub fn apply<T: Scalar>(op: Op, a: T, b: T) -> (r: T)
    requires
        op_req(op, a, b),
    ensures
        r == op_spec(op, a, b),
        r.val() == op_val(op, a.val(), b.val()),
{
    match op {
        Op::Add => a.add(b),
        Op::Sub => a.sub(b),
        Op::Mul => a.mul(b),
        Op::Div => a.div(b),
    }
}

/// The numbers that a sequence of scalars stands for.
pub open spec fn vals<T: Scalar>(a: Seq<T>) -> Seq<real> {
    Seq::new(a.len(), |i: int| a[i].val())
}

/// Whether two sequences can be combined element by element: they have the
/// same length and every pair can be.
pub open spec fn zip_req<T: Scalar>(op: Op, a: Seq<T>, b: Seq<T>) -> bool {
    &&& a.len() == b.len()
    &&& forall|i: int| 0 <= i < a.len() ==> op_req(op, #[trigger] a[i], b[i])
}

/// The sequence of `a[i] op b[i]`.
pub open spec fn zip_spec<T: Scalar>(op: Op, a: Seq<T>, b: Seq<T>) -> Seq<T> {
    Seq::new(a.len(), |i: int| op_spec(op, a[i], b[i]))
}

/// Whether every element can be combined with the scalar `k`.
pub open spec fn broadcast_req<T: Scalar>(op: Op, a: Seq<T>, k: T) -> bool {
    forall|i: int| 0 <= i < a.len() ==> op_req(op, #[trigger] a[i], k)
}

/// The sequence of `a[i] op k`.
pub open spec fn broadcast_spec<T: Scalar>(op: Op, a: Seq<T>, k: T) -> Seq<T> {
    Seq::new(a.len(), |i: int| op_spec(op, a[i], k))
}

/// Whether `a[i] - b[i] * k` can be computed for every `i`.
pub open spec fn scaled_req<T: Scalar>(a: Seq<T>, b: Seq<T>, k: T) -> bool {
    &&& a.len() == b.len()
    &&& forall|i: int|
        0 <= i < a.len() ==> (#[trigger] b[i]).mul_req(k) && a[i].sub_req(b[i].mul_spec(k))
}

/// The sequence of `a[i] - b[i] * k`.
pub open spec fn scaled_spec<T: Scalar>(a: Seq<T>, b: Seq<T>, k: T) -> Seq<T> {
    Seq::new(a.len(), |i: int| a[i].sub_spec(b[i].mul_spec(k)))
}

/// Where two sequences can be combined, the result stands for the
/// operation on the numbers, element by element.
pub proof fn lemma_zip_vals<T: Scalar>(op: Op, a: Seq<T>, b: Seq<T>)
    requires
        zip_req(op, a, b),
    ensures
        vals(zip_spec(op, a, b)) == Seq::new(
            a.len(),
            |i: int| op_val(op, a[i].val(), b[i].val()),
        ),
{
    assert forall|i: int| 0 <= i < a.len() implies zip_spec(op, a, b)[i].val() == op_val(
        op,
        a[i].val(),
        b[i].val(),
    ) by {
        lemma_op(op, a[i], b[i]);
    }
    assert(vals(zip_spec(op, a, b)) =~= Seq::new(
        a.len(),
        |i: int| op_val(op, a[i].val(), b[i].val()),
    ));
}

/// Where a sequence can be combined with a scalar, the result stands for
/// the operation on the numbers, element by element.
pub proof fn lemma_broadcast_vals<T: Scalar>(op: Op, a: Seq<T>, k: T)
    requires
        broadcast_req(op, a, k),
    ensures
        vals(broadcast_spec(op, a, k)) == Seq::new(
            a.len(),
            |i: int| op_val(op, a[i].val(), k.val()),
        ),
{
    assert forall|i: int| 0 <= i < a.len() implies broadcast_spec(op, a, k)[i].val() == op_val(
        op,
        a[i].val(),
        k.val(),
    ) by {
        lemma_op(op, a[i], k);
    }
    assert(vals(broadcast_spec(op, a, k)) =~= Seq::new(
        a.len(),
        |i: int| op_val(op, a[i].val(), k.val()),
    ));
}

/// Where the fused update can be computed, the result stands for
/// `a[i] - b[i] * k` on the numbers.
pub proof fn lemma_scaled_vals<T: Scalar>(a: Seq<T>, b: Seq<T>, k: T)
    requires
        scaled_req(a, b, k),
    ensures
        vals(scaled_spec(a, b, k)) == Seq::new(
            a.len(),
            |i: int| a[i].val() - b[i].val() * k.val(),
        ),
{
    assert forall|i: int| 0 <= i < a.len() implies scaled_spec(a, b, k)[i].val() == a[i].val()
        - b[i].val() * k.val() by {
        b[i].lemma_mul(k);
        a[i].lemma_sub(b[i].mul_spec(k));
    }
    assert(vals(scaled_spec(a, b, k)) =~= Seq::new(
        a.len(),
        |i: int| a[i].val() - b[i].val() * k.val(),
    ));
}

/// A new vector of `a[i] op b[i]`.
pub fn zip<T: Scalar>(op: Op, a: &[T], b: &[T]) -> (r: Vec<T>)
    requires
        zip_req(op, a@, b@),
    ensures
        r@ == zip_spec(op, a@, b@),
{
    let n = a.len();
    let mut out: Vec<T> = Vec::with_capacity(n);
    let mut i: usize = 0;
    while i < n
        invariant
            n == a@.len(),
            zip_req(op, a@, b@),
            i <= n,
            out@ == zip_spec(op, a@, b@).subrange(0, i as int),
        decreases n - i,
    {
        out.push(apply(op, a[i], b[i]));
        i += 1;
        assert(out@ =~= zip_spec(op, a@, b@).subrange(0, i as int));
    }
    assert(out@ =~= zip_spec(op, a@, b@));
    out
}

/// Replaces every `a[i]` by `a[i] op b[i]`.
pub fn zip_assign<T: Scalar>(op: Op, a: &mut [T], b: &[T])
    requires
        zip_req(op, old(a)@, b@),
    ensures
        final(a)@ == zip_spec(op, old(a)@, b@),
{
    let n = a.len();
    let mut i: usize = 0;
    while i < n
        invariant
            n == old(a)@.len(),
            a@.len() == n,
            zip_req(op, old(a)@, b@),
            i <= n,
            forall|j: int| 0 <= j < i ==> a@[j] == op_spec(op, old(a)@[j], b@[j]),
            forall|j: int| i <= j < n ==> a@[j] == old(a)@[j],
        decreases n - i,
    {
        a[i] = apply(op, a[i], b[i]);
        i += 1;
    }
    assert(a@ =~= zip_spec(op, old(a)@, b@));
}

/// A new vector of `a[i] op k`.
pub fn broadcast<T: Scalar>(op: Op, a: &[T], k: T) -> (r: Vec<T>)
    requires
        broadcast_req(op, a@, k),
    ensures
        r@ == broadcast_spec(op, a@, k),
{
    let n = a.len();
    let mut out: Vec<T> = Vec::with_capacity(n);
    let mut i: usize = 0;
    while i < n
        invariant
            n == a@.len(),
            broadcast_req(op, a@, k),
            i <= n,
            out@ == broadcast_spec(op, a@, k).subrange(0, i as int),
        decreases n - i,
    {
        out.push(apply(op, a[i], k));
        i += 1;
        assert(out@ =~= broadcast_spec(op, a@, k).subrange(0, i as int));
    }
    assert(out@ =~= broadcast_spec(op, a@, k));
    out
}

/// Replaces every `a[i]` by `a[i] op k`.
pub fn broadcast_assign<T: Scalar>(op: Op, a: &mut [T], k: T)
    requires
        broadcast_req(op, old(a)@, k),
    ensures
        final(a)@ == broadcast_spec(op, old(a)@, k),
{
    let n = a.len();
    let mut i: usize = 0;
    while i < n
        invariant
            n == old(a)@.len(),
            a@.len() == n,
            broadcast_req(op, old(a)@, k),
            i <= n,
            forall|j: int| 0 <= j < i ==> a@[j] == op_spec(op, old(a)@[j], k),
            forall|j: int| i <= j < n ==> a@[j] == old(a)@[j],
        decreases n - i,
    {
        a[i] = apply(op, a[i], k);
        i += 1;
    }
    assert(a@ =~= broadcast_spec(op, old(a)@, k));
}

/// The fused update `a[i] -= b[i] * k`, in one pass and without a temporary.
pub fn sub_assign_scaled<T: Scalar>(a: &mut [T], b: &[T], k: T)
    requires
        scaled_req(old(a)@, b@, k),
    ensures
        final(a)@ == scaled_spec(old(a)@, b@, k),
{
    let n = a.len();
    let mut i: usize = 0;
    while i < n
        invariant
            n == old(a)@.len(),
            a@.len() == n,
            scaled_req(old(a)@, b@, k),
            i <= n,
            forall|j: int| 0 <= j < i ==> a@[j] == old(a)@[j].sub_spec(b@[j].mul_spec(k)),
            forall|j: int| i <= j < n ==> a@[j] == old(a)@[j],
        decreases n - i,
    {
        a[i] = a[i].sub(b[i].mul(k));
        i += 1;
    }
    assert(a@ =~= scaled_spec(old(a)@, b@, k));
}

} // verus!
