//! The scalar that the engine computes with: an ordered field whose
//! operations may be undefined where a result cannot be represented.

use vstd::math::abs;
use vstd::prelude::*;

verus! {

/// A number type with zero, one, negation, the four field operations and a
/// comparison.
///
/// Every value stands for a real number, `val`. Each operation comes as a
/// triple: `*_req` says on which operands the machine can compute it,
/// `*_spec` names the value it then returns, and the law next to it says
/// which number that value stands for.
pub trait Scalar: Copy + Sized {
    /// The number that this value stands for.
    spec fn val(self) -> real;

    spec fn zero_spec() -> Self;

    spec fn one_spec() -> Self;

    spec fn neg_req(self) -> bool;

    spec fn neg_spec(self) -> Self;

    spec fn add_req(self, rhs: Self) -> bool;

    spec fn add_spec(self, rhs: Self) -> Self;

    spec fn sub_req(self, rhs: Self) -> bool;

    spec fn sub_spec(self, rhs: Self) -> Self;

    spec fn mul_req(self, rhs: Self) -> bool;

    spec fn mul_spec(self, rhs: Self) -> Self;

    spec fn div_req(self, rhs: Self) -> bool;

    spec fn div_spec(self, rhs: Self) -> Self;

    /// The constants stand for 0 and 1.
    proof fn lemma_constants()
        ensures
            Self::zero_spec().val() == 0real,
            Self::one_spec().val() == 1real,
    ;

    /// Negation, where defined, negates the number.
    proof fn lemma_neg(self)
        requires
            self.neg_req(),
        ensures
            self.neg_spec().val() == -self.val(),
    ;

    /// Addition, where defined, adds the numbers.
    proof fn lemma_add(self, rhs: Self)
        requires
            self.add_req(rhs),
        ensures
            self.add_spec(rhs).val() == self.val() + rhs.val(),
    ;

    /// Subtraction, where defined, subtracts the numbers.
    proof fn lemma_sub(self, rhs: Self)
        requires
            self.sub_req(rhs),
        ensures
            self.sub_spec(rhs).val() == self.val() - rhs.val(),
    ;

    /// Multiplication, where defined, multiplies the numbers.
    proof fn lemma_mul(self, rhs: Self)
        requires
            self.mul_req(rhs),
        ensures
            self.mul_spec(rhs).val() == self.val() * rhs.val(),
    ;

    /// Division is defined only by a divisor that is not zero, and then
    /// divides the numbers.
    proof fn lemma_div(self, rhs: Self)
        requires
            self.div_req(rhs),
        ensures
            rhs.val() != 0real,
            self.div_spec(rhs).val() == self.val() / rhs.val(),
    ;

    fn zero() -> (r: Self)
        ensures
            r == Self::zero_spec(),
            r.val() == 0real,
    ;

    fn one() -> (r: Self)
        ensures
            r == Self::one_spec(),
            r.val() == 1real,
    ;

    fn neg(self) -> (r: Self)
        requires
            self.neg_req(),
        ensures
            r == self.neg_spec(),
            r.val() == -self.val(),
    ;

    fn add(self, rhs: Self) -> (r: Self)
        requires
            self.add_req(rhs),
        ensures
            r == self.add_spec(rhs),
            r.val() == self.val() + rhs.val(),
    ;

    fn sub(self, rhs: Self) -> (r: Self)
        requires
            self.sub_req(rhs),
        ensures
            r == self.sub_spec(rhs),
            r.val() == self.val() - rhs.val(),
    ;

    fn mul(self, rhs: Self) -> (r: Self)
        requires
            self.mul_req(rhs),
        ensures
            r == self.mul_spec(rhs),
            r.val() == self.val() * rhs.val(),
    ;

    fn div(self, rhs: Self) -> (r: Self)
        requires
            self.div_req(rhs),
        ensures
            r == self.div_spec(rhs),
            rhs.val() != 0real,
            r.val() == self.val() / rhs.val(),
    ;

    /// Whether this number is strictly below `rhs`.
    fn lt(self, rhs: Self) -> (b: bool)
        ensures
            b == (self.val() < rhs.val()),
    ;
}

/// A scalar with a test for being safely above zero.
///
/// An exact type answers `self > 0`. A type that rounds may answer "no" for
/// small positive numbers, but never "yes" for a number that is not positive.
pub trait EpsilonThreshold: Scalar {
    /// What `is_strictly_positive` answers.
    spec fn strictly_positive(self) -> bool;

    /// Only positive numbers pass the test.
    proof fn lemma_strictly_positive(self)
        ensures
            self.strictly_positive() ==> self.val() > 0real,
    ;

    fn is_strictly_positive(self) -> (b: bool)
        ensures
            b == self.strictly_positive(),
    ;
}

/// The product of two integers, read as reals, is the product of the reals.
pub proof fn lemma_int_mul_as_real(a: int, b: int)
    ensures
        (a * b) as real == (a as real) * (b as real),
{
    assert((a * b) as real == (a as real) * (b as real)) by (nonlinear_arith);
}

impl Scalar for i32 {
    open spec fn val(self) -> real {
        self as real
    }

    open spec fn zero_spec() -> Self {
        0i32
    }

    open spec fn one_spec() -> Self {
        1i32
    }

    open spec fn neg_req(self) -> bool {
        self != i32::MIN
    }

    open spec fn neg_spec(self) -> Self {
        (-self) as i32
    }

    open spec fn add_req(self, rhs: Self) -> bool {
        i32::MIN <= self + rhs <= i32::MAX
    }

    open spec fn add_spec(self, rhs: Self) -> Self {
        (self + rhs) as i32
    }

    open spec fn sub_req(self, rhs: Self) -> bool {
        i32::MIN <= self - rhs <= i32::MAX
    }

    open spec fn sub_spec(self, rhs: Self) -> Self {
        (self - rhs) as i32
    }

    open spec fn mul_req(self, rhs: Self) -> bool {
        i32::MIN <= self * rhs <= i32::MAX
    }

    open spec fn mul_spec(self, rhs: Self) -> Self {
        (self * rhs) as i32
    }

    /// An integer is divided only where the division is exact.
    open spec fn div_req(self, rhs: Self) -> bool {
        &&& rhs != 0
        &&& self % rhs == 0
        &&& !(self == i32::MIN && rhs == -1)
    }

    open spec fn div_spec(self, rhs: Self) -> Self {
        (self / rhs) as i32
    }

    proof fn lemma_constants() {
    }

    proof fn lemma_neg(self) {
    }

    proof fn lemma_add(self, rhs: Self) {
    }

    proof fn lemma_sub(self, rhs: Self) {
    }

    proof fn lemma_mul(self, rhs: Self) {
        lemma_int_mul_as_real(self as int, rhs as int);
    }

    proof fn lemma_div(self, rhs: Self) {
        let q = self as int / rhs as int;
        lemma_exact_quotient(self as int, rhs as int);
        lemma_int_mul_as_real(q, rhs as int);
        assert(q <= i32::MAX) by (nonlinear_arith)
            requires
                q * (rhs as int) == self as int,
                -abs(self as int) <= q <= abs(self as int),
                -0x8000_0000 <= self as int <= 0x7fff_ffff,
                !(self as int == -0x8000_0000 && rhs as int == -1),
        ;
        assert(q as real == (self as real) / (rhs as real)) by (nonlinear_arith)
            requires
                (q as real) * (rhs as real) == self as real,
                rhs as real != 0real,
        ;
    }

    fn zero() -> (r: Self) {
        0
    }

    fn one() -> (r: Self) {
        1
    }

    fn neg(self) -> (r: Self) {
        -self
    }

    fn add(self, rhs: Self) -> (r: Self) {
        self + rhs
    }

    fn sub(self, rhs: Self) -> (r: Self) {
        self - rhs
    }

    fn mul(self, rhs: Self) -> (r: Self) {
        proof {
            self.lemma_mul(rhs);
        }
        self * rhs
    }

    fn div(self, rhs: Self) -> (r: Self) {
        proof {
            self.lemma_div(rhs);
            lemma_exact_quotient(self as int, rhs as int);
            lemma_exact_quotient(-(self as int), rhs as int);
        }
        self / rhs
    }

    fn lt(self, rhs: Self) -> (b: bool) {
        self < rhs
    }
}

impl EpsilonThreshold for i32 {
    open spec fn strictly_positive(self) -> bool {
        self > 0
    }

    proof fn lemma_strictly_positive(self) {
    }

    fn is_strictly_positive(self) -> (b: bool) {
        self > 0
    }
}

/// Where `b` divides `a`, the quotient times `b` gives `a` back, the quotient
/// of the negated number is the negated quotient, and the quotient is no
/// larger than `a` in size.
pub proof fn lemma_exact_quotient(a: int, b: int)
    requires
        b != 0,
        a % b == 0,
    ensures
        (a / b) * b == a,
        (-a) % b == 0,
        (-a) / b == -(a / b),
        -abs(a) <= a / b <= abs(a),
{
    let q = a / b;
    let q2 = (-a) / b;
    let r2 = (-a) % b;
    vstd::arithmetic::div_mod::lemma_fundamental_div_mod(a, b);
    vstd::arithmetic::div_mod::lemma_fundamental_div_mod(-a, b);
    assert(q * b == a) by (nonlinear_arith)
        requires
            a == b * q + 0,
    ;
    assert(0 <= r2 < abs(b)) by (nonlinear_arith)
        requires
            b != 0,
            r2 == (-a) % b,
    ;
    let k = q + q2;
    assert(r2 == -(b * k)) by (nonlinear_arith)
        requires
            q * b == a,
            -a == b * q2 + r2,
            k == q + q2,
    ;
    if k >= 1 {
        assert(b > 0 ==> b * k >= b) by (nonlinear_arith)
            requires
                k >= 1,
        ;
        assert(b < 0 ==> b * k <= b) by (nonlinear_arith)
            requires
                k >= 1,
        ;
    }
    if k <= -1 {
        assert(b > 0 ==> b * k <= -b) by (nonlinear_arith)
            requires
                k <= -1,
        ;
        assert(b < 0 ==> b * k >= -b) by (nonlinear_arith)
            requires
                k <= -1,
        ;
    }
    assert(k == 0);
    assert(r2 == 0) by (nonlinear_arith)
        requires
            r2 == -(b * k),
            k == 0,
    ;
    assert(-abs(a) <= q <= abs(a)) by (nonlinear_arith)
        requires
            q * b == a,
            b != 0,
    ;
}

} // verus!
