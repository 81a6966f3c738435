//! The exact rational scalar: a fraction of two 64-bit integers in lowest
//! terms with a positive denominator. The arithmetic is that of
//! `num_rational::Ratio<i64>`.

use crate::scalar::EpsilonThreshold;
use crate::scalar::Scalar;
use num_rational::Ratio;
use num_traits::One;
use num_traits::Zero;
use vstd::math::abs;
use vstd::prelude::*;

verus! {

/// The greatest common divisor of two natural numbers.
pub open spec fn gcd(a: nat, b: nat) -> nat
    decreases b,
{
    if b == 0 {
        a
    } else {
        gcd(b, a % b)
    }
}

/// Whether an integer can be held in 64 bits.
pub open spec fn fits(x: int) -> bool {
    i64::MIN <= x <= i64::MAX
}

/// A rational number, kept in lowest terms with a positive denominator.
#[derive(Clone, Copy, Debug, PartialEq, Eq)]
pub struct Rational {
    num: i64,
    den: i64,
}

impl Rational {
    /// The numerator.
    pub closed spec fn numer_spec(self) -> i64 {
        self.num
    }

    /// The denominator.
    pub closed spec fn denom_spec(self) -> i64 {
        self.den
    }

    /// The value with the given numerator and denominator, as they stand.
    pub closed spec fn from_parts(n: i64, d: i64) -> Rational {
        Rational { num: n, den: d }
    }

    /// A value is its numerator and its denominator, nothing more.
    pub proof fn lemma_parts(n: i64, d: i64)
        ensures
            Rational::from_parts(n, d).numer_spec() == n,
            Rational::from_parts(n, d).denom_spec() == d,
    {
    }

    /// In lowest terms, with a positive denominator.
    pub open spec fn well_formed(self) -> bool {
        &&& self.denom_spec() > 0
        &&& gcd(abs(self.numer_spec() as int) as nat, self.denom_spec() as nat) == 1
    }

    #[verifier::type_invariant]
    spec fn inv(self) -> bool {
        self.well_formed()
    }

    /// The fraction `n / d` brought to lowest terms with a positive
    /// denominator.
    pub open spec fn new_spec(n: int, d: int) -> Rational {
        let g = gcd(abs(n) as nat, abs(d) as nat) as int;
        if d < 0 {
            Rational::from_parts((-(n / g)) as i64, (-(d / g)) as i64)
        } else {
            Rational::from_parts((n / g) as i64, (d / g) as i64)
        }
    }

    /// The fractions that can be brought to lowest terms in 64 bits: the
    /// denominator is not zero, and where it is negative both parts can
    /// change sign after the common divisor is taken out.
    pub open spec fn new_req(n: int, d: int) -> bool {
        &&& fits(n)
        &&& fits(d)
        &&& d != 0
        &&& (d < 0 && n != 0 && n != d) ==> {
            let g = gcd(abs(n) as nat, abs(d) as nat) as int;
            n / g != i64::MIN && d / g != i64::MIN
        }
    }

    /// The fraction `numer / denom` in lowest terms.
    pub fn new(numer: i64, denom: i64) -> (r: Rational)
        requires
            Rational::new_req(numer as int, denom as int),
        ensures
            r == Rational::new_spec(numer as int, denom as int),
            r.well_formed(),
    {
        ratio_new(numer, denom)
    }

    /// The fractions that `from_pair` takes: the denominator is not zero,
    /// and where it is negative neither part is the least 64-bit integer,
    /// whose sign cannot change.
    pub open spec fn pair_ok(n: int, d: int) -> bool {
        d != 0 && (d < 0 ==> n != i64::MIN && d != i64::MIN)
    }

    /// The fraction `numer / denom` in lowest terms, where there is one:
    /// `None` for a zero denominator, and for a negative one beside the
    /// least 64-bit integer.
    pub fn from_pair(numer: i64, denom: i64) -> (r: Option<Rational>)
        ensures
            r == if Rational::pair_ok(numer as int, denom as int) {
                Some(Rational::new_spec(numer as int, denom as int))
            } else {
                None
            },
    {
        if denom == 0 || (denom < 0 && (numer == i64::MIN || denom == i64::MIN)) {
            return None;
        }
        proof {
            let (n, d) = (numer as int, denom as int);
            let g = gcd(abs(n) as nat, abs(d) as nat) as int;
            lemma_gcd_divides(abs(n) as nat, abs(d) as nat);
            if n < 0 {
                crate::scalar::lemma_exact_quotient(abs(n) as int, g);
            }
            if d < 0 {
                crate::scalar::lemma_exact_quotient(abs(d) as int, g);
            }
            lemma_cancel(n, d, g);
        }
        Some(ratio_new(numer, denom))
    }

    /// The whole number `t`.
    pub fn from_integer(t: i64) -> (r: Rational)
        ensures
            r == Rational::from_parts(t, 1),
            r.well_formed(),
            r.val() == t as real,
    {
        let r = ratio_from_integer(t);
        proof {
            Rational::lemma_parts(t, 1);
            lemma_over_one(t as int);
        }
        r
    }

    /// The numerator of the fraction in lowest terms.
    pub fn numer(&self) -> (n: i64)
        ensures
            n == self.numer_spec(),
    {
        self.num
    }

    /// The denominator of the fraction in lowest terms, which is positive.
    pub fn denom(&self) -> (d: i64)
        ensures
            d == self.denom_spec(),
            d > 0,
    {
        proof {
            use_type_invariant(self);
        }
        self.den
    }
}

impl Rational {
    /// The numerator, as an integer.
    pub open spec fn n(self) -> int {
        self.numer_spec() as int
    }

    /// The denominator, as an integer.
    pub open spec fn d(self) -> int {
        self.denom_spec() as int
    }

    /// The least common multiple of the two denominators, over which a sum
    /// or a difference is formed.
    pub open spec fn common_denom(self, rhs: Rational) -> int {
        self.d() * (rhs.d() / (gcd(self.d() as nat, rhs.d() as nat) as int))
    }

    /// The numerator of this fraction once it is brought over the
    /// denominator `l`.
    pub open spec fn numer_over(self, l: int) -> int {
        self.n() * (l / self.d())
    }

    /// The numerator of the product before the last reduction: common
    /// divisors are taken out crosswise first.
    pub open spec fn mul_numer(self, rhs: Rational) -> int {
        let g1 = gcd(abs(self.n()) as nat, rhs.d() as nat) as int;
        let g2 = gcd(self.d() as nat, abs(rhs.n()) as nat) as int;
        (self.n() / g1) * (rhs.n() / g2)
    }

    /// The denominator of the product before the last reduction.
    pub open spec fn mul_denom(self, rhs: Rational) -> int {
        let g1 = gcd(abs(self.n()) as nat, rhs.d() as nat) as int;
        let g2 = gcd(self.d() as nat, abs(rhs.n()) as nat) as int;
        (self.d() / g2) * (rhs.d() / g1)
    }

    /// The numerator of the quotient before the last reduction: common
    /// divisors of the numerators and of the denominators are taken out
    /// first.
    pub open spec fn div_numer(self, rhs: Rational) -> int {
        let gn = gcd(abs(self.n()) as nat, abs(rhs.n()) as nat) as int;
        let gd = gcd(self.d() as nat, rhs.d() as nat) as int;
        (self.n() / gn) * (rhs.d() / gd)
    }

    /// The denominator of the quotient before the last reduction. It has the
    /// sign of the divisor.
    pub open spec fn div_denom(self, rhs: Rational) -> int {
        let gn = gcd(abs(self.n()) as nat, abs(rhs.n()) as nat) as int;
        let gd = gcd(self.d() as nat, rhs.d() as nat) as int;
        (self.d() / gd) * (rhs.n() / gn)
    }

    /// A sum or a difference can be formed in 64 bits: the common
    /// denominator and both numerators over it fit.
    pub open spec fn over_common_denom_req(self, rhs: Rational) -> bool {
        let l = self.common_denom(rhs);
        &&& self.well_formed()
        &&& rhs.well_formed()
        &&& fits(l)
        &&& fits(self.numer_over(l))
        &&& fits(rhs.numer_over(l))
    }
}

/// `num_rational::Ratio::new` on 64-bit integers: the fraction in lowest
/// terms with a positive denominator. It panics on a zero denominator, and
/// overflows where a part cannot change sign; `new_req` leaves both out.
#[verifier::external_body]
fn ratio_new(numer: i64, denom: i64) -> (r: Rational)
    requires
        Rational::new_req(numer as int, denom as int),
    ensures
        r == Rational::new_spec(numer as int, denom as int),
        r.well_formed(),
{
    let q = Ratio::new(numer, denom);
    Rational { num: *q.numer(), den: *q.denom() }
}

/// `num_rational::Ratio::from_integer` on a 64-bit integer: the integer over
/// the denominator 1.
#[verifier::external_body]
fn ratio_from_integer(t: i64) -> (r: Rational)
    ensures
        r == Rational::from_parts(t, 1),
        r.well_formed(),
{
    let q = Ratio::from_integer(t);
    Rational { num: *q.numer(), den: *q.denom() }
}

/// `num_traits::Zero::zero` of `num_rational::Ratio<i64>`: the fraction
/// 0/1.
#[verifier::external_body]
fn ratio_zero() -> (r: Rational)
    ensures
        r == Rational::from_parts(0, 1),
        r.well_formed(),
{
    let q = Ratio::<i64>::zero();
    Rational { num: *q.numer(), den: *q.denom() }
}

/// `num_traits::One::one` of `num_rational::Ratio<i64>`: the fraction 1/1.
#[verifier::external_body]
fn ratio_one() -> (r: Rational)
    ensures
        r == Rational::from_parts(1, 1),
        r.well_formed(),
{
    let q = Ratio::<i64>::one();
    Rational { num: *q.numer(), den: *q.denom() }
}

/// `Neg::neg` of `num_rational::Ratio<i64>`: the numerator changes sign, the
/// denominator stays. The least 64-bit integer cannot change sign.
#[verifier::external_body]
fn ratio_neg(a: Rational) -> (r: Rational)
    requires
        a.well_formed(),
        a.n() != i64::MIN,
    ensures
        r == Rational::from_parts((-a.n()) as i64, a.denom_spec()),
        r.well_formed(),
{
    let q = -Ratio::new_raw(a.num, a.den);
    Rational { num: *q.numer(), den: *q.denom() }
}

/// `Add::add` of `num_rational::Ratio<i64>`: both numerators are brought
/// over the least common multiple of the denominators and added, and the sum
/// over that multiple is brought to lowest terms; with equal denominators
/// that multiple is the denominator itself. The multiple, both numerators
/// over it and their sum must fit.
#[verifier::external_body]
fn ratio_add(a: Rational, b: Rational) -> (r: Rational)
    requires
        a.over_common_denom_req(b),
        fits(a.numer_over(a.common_denom(b)) + b.numer_over(a.common_denom(b))),
    ensures
        r == Rational::new_spec(
            a.numer_over(a.common_denom(b)) + b.numer_over(a.common_denom(b)),
            a.common_denom(b),
        ),
        r.well_formed(),
{
    let q = Ratio::new_raw(a.num, a.den) + Ratio::new_raw(b.num, b.den);
    Rational { num: *q.numer(), den: *q.denom() }
}

/// `Sub::sub` of `num_rational::Ratio<i64>`: as the addition, with the
/// numerators subtracted.
#[verifier::external_body]
fn ratio_sub(a: Rational, b: Rational) -> (r: Rational)
    requires
        a.over_common_denom_req(b),
        fits(a.numer_over(a.common_denom(b)) - b.numer_over(a.common_denom(b))),
    ensures
        r == Rational::new_spec(
            a.numer_over(a.common_denom(b)) - b.numer_over(a.common_denom(b)),
            a.common_denom(b),
        ),
        r.well_formed(),
{
    let q = Ratio::new_raw(a.num, a.den) - Ratio::new_raw(b.num, b.den);
    Rational { num: *q.numer(), den: *q.denom() }
}

/// `Mul::mul` of `num_rational::Ratio<i64>`: common divisors are taken out
/// crosswise, the remaining numerators and denominators are multiplied, and
/// the result is brought to lowest terms. Both products must fit.
#[verifier::external_body]
fn ratio_mul(a: Rational, b: Rational) -> (r: Rational)
    requires
        a.well_formed(),
        b.well_formed(),
        fits(a.mul_numer(b)),
        fits(a.mul_denom(b)),
    ensures
        r == Rational::new_spec(a.mul_numer(b), a.mul_denom(b)),
        r.well_formed(),
{
    let q = Ratio::new_raw(a.num, a.den) * Ratio::new_raw(b.num, b.den);
    Rational { num: *q.numer(), den: *q.denom() }
}

/// `Div::div` of `num_rational::Ratio<i64>`: common divisors of the
/// numerators and of the denominators are taken out, the remaining parts are
/// multiplied crosswise, and the result is brought to lowest terms, with the
/// sign in the numerator. It panics on a zero divisor. The common divisor of
/// the numerators cannot be formed where the divisor's is the least 64-bit
/// integer and the dividend's is that or zero. Both products must fit, and
/// be such that they can be brought to lowest terms.
#[verifier::external_body]
fn ratio_div(a: Rational, b: Rational) -> (r: Rational)
    requires
        a.well_formed(),
        b.well_formed(),
        b.n() != 0,
        !(b.n() == i64::MIN && (a.n() == 0 || a.n() == i64::MIN)),
        fits(a.div_numer(b)),
        fits(a.div_denom(b)),
        Rational::new_req(a.div_numer(b), a.div_denom(b)),
    ensures
        r == Rational::new_spec(a.div_numer(b), a.div_denom(b)),
        r.well_formed(),
{
    let q = Ratio::new_raw(a.num, a.den) / Ratio::new_raw(b.num, b.den);
    Rational { num: *q.numer(), den: *q.denom() }
}

/// `PartialOrd::lt` of `num_rational::Ratio<i64>`, for positive
/// denominators: the order of the numbers that the fractions stand for,
/// which the comparison finds by division with remainder, without overflow.
#[verifier::external_body]
fn ratio_lt(a: Rational, b: Rational) -> (r: bool)
    requires
        a.well_formed(),
        b.well_formed(),
    ensures
        r == (a.n() * b.d() < b.n() * a.d()),
{
    Ratio::new_raw(a.num, a.den) < Ratio::new_raw(b.num, b.den)
}

/// A common divisor taken out of both parts of a fraction leaves the same
/// number.
pub proof fn lemma_cancel(n: int, d: int, g: int)
    requires
        g > 0,
        d != 0,
        n % g == 0,
        d % g == 0,
    ensures
        d / g != 0,
        (d > 0) == (d / g > 0),
        n >= 0 ==> 0 <= n / g <= n,
        n <= 0 ==> n <= n / g <= 0,
        d >= 0 ==> 0 <= d / g <= d,
        d <= 0 ==> d <= d / g <= 0,
        ((n / g) as real) / ((d / g) as real) == (n as real) / (d as real),
        ((-(n / g)) as real) / ((-(d / g)) as real) == (n as real) / (d as real),
{
    let n1 = n / g;
    let d1 = d / g;
    crate::scalar::lemma_exact_quotient(n, g);
    crate::scalar::lemma_exact_quotient(d, g);
    crate::scalar::lemma_int_mul_as_real(n1, g);
    crate::scalar::lemma_int_mul_as_real(d1, g);
    assert(d1 != 0 && (d > 0) == (d1 > 0)) by (nonlinear_arith)
        requires
            d1 * g == d,
            g > 0,
            d != 0,
    ;
    assert((n >= 0 ==> 0 <= n1 <= n) && (n <= 0 ==> n <= n1 <= 0)) by (nonlinear_arith)
        requires
            n1 * g == n,
            g > 0,
    ;
    assert((d >= 0 ==> 0 <= d1 <= d) && (d <= 0 ==> d <= d1 <= 0)) by (nonlinear_arith)
        requires
            d1 * g == d,
            g > 0,
    ;
    let gr = g as real;
    let nr = n1 as real;
    let dr = d1 as real;
    assert(nr / dr == (nr * gr) / (dr * gr)) by (nonlinear_arith)
        requires
            gr > 0real,
            dr != 0real,
    ;
    assert((-nr) / (-dr) == (nr * gr) / (dr * gr)) by (nonlinear_arith)
        requires
            gr > 0real,
            dr != 0real,
    ;
}

/// An integer over 1 is the integer.
pub proof fn lemma_over_one(n: int)
    ensures
        (n as real) / (1int as real) == n as real,
{
    let nr = n as real;
    assert(nr / 1real == nr) by (nonlinear_arith);
}

/// The greatest common divisor of a positive number and itself is that
/// number.
pub proof fn lemma_gcd_self(a: nat)
    requires
        a > 0,
    ensures
        gcd(a, a) == a,
{
    vstd::arithmetic::div_mod::lemma_mod_self_0(a as int);
    assert(gcd(a, a) == gcd(a, 0)) by {
        reveal_with_fuel(gcd, 2);
    }
}

/// The greatest common divisor divides both numbers, and is positive unless
/// both are zero.
pub proof fn lemma_gcd_divides(a: nat, b: nat)
    ensures
        a > 0 || b > 0 ==> gcd(a, b) > 0,
        gcd(a, b) > 0 ==> a % gcd(a, b) == 0 && b % gcd(a, b) == 0,
    decreases b,
{
    if b != 0 {
        let r = a % b;
        lemma_gcd_divides(b, r);
        let g = gcd(b, r);
        assert(g > 0);
        vstd::arithmetic::div_mod::lemma_fundamental_div_mod(a as int, b as int);
        let q = (a / b) as int;
        let bq = (b / g) as int;
        let rq = (r / g) as int;
        crate::scalar::lemma_exact_quotient(b as int, g as int);
        crate::scalar::lemma_exact_quotient(r as int, g as int);
        assert(a as int == (q * bq + rq) * g) by (nonlinear_arith)
            requires
                a as int == (b as int) * q + (r as int),
                bq * (g as int) == b as int,
                rq * (g as int) == r as int,
        ;
        vstd::arithmetic::div_mod::lemma_mod_multiples_basic(q * bq + rq, g as int);
    } else {
        if a > 0 {
            vstd::arithmetic::div_mod::lemma_mod_self_0(a as int);
            assert(0nat % a == 0) by (nonlinear_arith)
                requires
                    a > 0,
            ;
        }
    }
}

impl Rational {
    /// The fraction in lowest terms stands for the quotient of the two
    /// numbers it was made from, and has a positive denominator.
    pub proof fn lemma_new_spec(n: int, d: int)
        requires
            Rational::new_req(n, d),
        ensures
            Rational::new_spec(n, d).denom_spec() > 0,
            Rational::new_spec(n, d).val() == (n as real) / (d as real),
    {
        let g = gcd(abs(n) as nat, abs(d) as nat) as int;
        let n1 = n / g;
        let d1 = d / g;
        assert(g > 0 && n % g == 0 && d % g == 0) by {
            lemma_gcd_divides(abs(n) as nat, abs(d) as nat);
            if n < 0 {
                crate::scalar::lemma_exact_quotient(abs(n) as int, g);
            }
            if d < 0 {
                crate::scalar::lemma_exact_quotient(abs(d) as int, g);
            }
        }
        assert(d < 0 ==> n1 != i64::MIN && d1 != i64::MIN) by {
            if d < 0 && n == 0 {
                assert(gcd(0, abs(d) as nat) == abs(d)) by {
                    reveal_with_fuel(gcd, 2);
                    assert(0nat % (abs(d) as nat) == 0) by (nonlinear_arith)
                        requires
                            abs(d) > 0,
                    ;
                }
                crate::scalar::lemma_exact_quotient(d, g);
                assert(d1 == -1) by (nonlinear_arith)
                    requires
                        d1 * g == d,
                        g == -d,
                        d < 0,
                ;
            } else if d < 0 && n == d {
                lemma_gcd_self(abs(n) as nat);
                crate::scalar::lemma_exact_quotient(d, g);
                assert(d1 == -1) by (nonlinear_arith)
                    requires
                        d1 * g == d,
                        g == -d,
                        d < 0,
                ;
            }
        }
        lemma_cancel(n, d, g);
        if d < 0 {
            Rational::lemma_parts((-n1) as i64, (-d1) as i64);
        } else {
            Rational::lemma_parts(n1 as i64, d1 as i64);
        }
    }
}

impl Rational {
    /// What the denominators' common divisor leaves of each denominator, and
    /// how the common denominator is made of them.
    proof fn lemma_common_denom(self, rhs: Rational)
        requires
            self.d() > 0,
            rhs.d() > 0,
        ensures
            self.common_denom(rhs) > 0,
            self.common_denom(rhs) / self.d() > 0,
            self.common_denom(rhs) / rhs.d() > 0,
            (self.common_denom(rhs) / self.d()) * self.d() == self.common_denom(rhs),
            (self.common_denom(rhs) / rhs.d()) * rhs.d() == self.common_denom(rhs),
    {
        let a = self.d();
        let b = rhs.d();
        let g = gcd(a as nat, b as nat) as int;
        lemma_gcd_divides(a as nat, b as nat);
        crate::scalar::lemma_exact_quotient(a, g);
        crate::scalar::lemma_exact_quotient(b, g);
        let a1 = a / g;
        let b1 = b / g;
        let l = a * b1;
        assert(a1 > 0 && b1 > 0 && l > 0 && l == a1 * b) by (nonlinear_arith)
            requires
                a1 * g == a,
                b1 * g == b,
                a > 0,
                b > 0,
                g > 0,
                l == a * b1,
        ;
        vstd::arithmetic::div_mod::lemma_fundamental_div_mod_converse(l, a, b1, 0);
        vstd::arithmetic::div_mod::lemma_fundamental_div_mod_converse(l, b, a1, 0);
        assert(b1 * a == l && a1 * b == l) by (nonlinear_arith)
            requires
                l == a * b1,
                l == a1 * b,
        ;
    }

    /// Over the common denominator the two fractions keep their values.
    proof fn lemma_over_common_denom(self, rhs: Rational)
        requires
            self.d() > 0,
            rhs.d() > 0,
        ensures
            self.common_denom(rhs) > 0,
            (self.numer_over(self.common_denom(rhs)) as real) / (self.common_denom(rhs) as real)
                == self.val(),
            (rhs.numer_over(self.common_denom(rhs)) as real) / (self.common_denom(rhs) as real)
                == rhs.val(),
    {
        self.lemma_common_denom(rhs);
        let l = self.common_denom(rhs);
        let ka = l / self.d();
        let kb = l / rhs.d();
        crate::scalar::lemma_int_mul_as_real(self.n(), ka);
        crate::scalar::lemma_int_mul_as_real(rhs.n(), kb);
        crate::scalar::lemma_int_mul_as_real(ka, self.d());
        crate::scalar::lemma_int_mul_as_real(kb, rhs.d());
        let lr = l as real;
        let (an, ad, kar) = (self.n() as real, self.d() as real, ka as real);
        let (bn, bd, kbr) = (rhs.n() as real, rhs.d() as real, kb as real);
        assert((an * kar) / lr == an / ad) by (nonlinear_arith)
            requires
                kar * ad == lr,
                ad > 0real,
                kar > 0real,
        ;
        assert((bn * kbr) / lr == bn / bd) by (nonlinear_arith)
            requires
                kbr * bd == lr,
                bd > 0real,
                kbr > 0real,
        ;
    }

    /// Taking common divisors out crosswise leaves the product's value, and
    /// a positive denominator.
    proof fn lemma_mul_parts(self, rhs: Rational)
        requires
            self.d() > 0,
            rhs.d() > 0,
        ensures
            self.mul_denom(rhs) > 0,
            (self.mul_numer(rhs) as real) / (self.mul_denom(rhs) as real) == self.val()
                * rhs.val(),
    {
        let g1 = gcd(abs(self.n()) as nat, rhs.d() as nat) as int;
        let g2 = gcd(self.d() as nat, abs(rhs.n()) as nat) as int;
        lemma_gcd_divides(abs(self.n()) as nat, rhs.d() as nat);
        lemma_gcd_divides(self.d() as nat, abs(rhs.n()) as nat);
        crate::scalar::lemma_exact_quotient(abs(self.n()) as int, g1);
        crate::scalar::lemma_exact_quotient(abs(rhs.n()) as int, g2);
        lemma_cancel(self.n(), rhs.d(), g1);
        lemma_cancel(rhs.n(), self.d(), g2);
        let (a1, b1) = (self.n() / g1, rhs.n() / g2);
        let (c1, d1) = (self.d() / g2, rhs.d() / g1);
        crate::scalar::lemma_int_mul_as_real(a1, b1);
        crate::scalar::lemma_int_mul_as_real(c1, d1);
        assert(c1 * d1 > 0) by (nonlinear_arith)
            requires
                c1 > 0,
                d1 > 0,
        ;
        let (an, ad) = (self.n() as real, self.d() as real);
        let (bn, bd) = (rhs.n() as real, rhs.d() as real);
        let (a1r, b1r, c1r, d1r) = (a1 as real, b1 as real, c1 as real, d1 as real);
        assert((a1r * b1r) / (c1r * d1r) == (an / ad) * (bn / bd)) by (nonlinear_arith)
            requires
                a1r / d1r == an / bd,
                b1r / c1r == bn / ad,
                c1r > 0real,
                d1r > 0real,
                ad > 0real,
                bd > 0real,
        ;
    }

    /// Taking common divisors out of the numerators and of the denominators
    /// leaves the quotient's value, and a denominator that is not zero.
    proof fn lemma_div_parts(self, rhs: Rational)
        requires
            self.d() > 0,
            rhs.d() > 0,
            rhs.n() != 0,
        ensures
            self.div_denom(rhs) != 0,
            (self.div_numer(rhs) as real) / (self.div_denom(rhs) as real) == self.val()
                / rhs.val(),
    {
        let gn = gcd(abs(self.n()) as nat, abs(rhs.n()) as nat) as int;
        let gd = gcd(self.d() as nat, rhs.d() as nat) as int;
        lemma_gcd_divides(abs(self.n()) as nat, abs(rhs.n()) as nat);
        lemma_gcd_divides(self.d() as nat, rhs.d() as nat);
        crate::scalar::lemma_exact_quotient(abs(self.n()) as int, gn);
        crate::scalar::lemma_exact_quotient(abs(rhs.n()) as int, gn);
        lemma_cancel(self.n(), rhs.n(), gn);
        lemma_cancel(rhs.d(), self.d(), gd);
        let (a1, b1) = (self.n() / gn, rhs.n() / gn);
        let (c1, d1) = (self.d() / gd, rhs.d() / gd);
        crate::scalar::lemma_int_mul_as_real(a1, d1);
        crate::scalar::lemma_int_mul_as_real(c1, b1);
        vstd::arithmetic::div_mod::lemma_fundamental_div_mod(rhs.d(), gd);
        assert(d1 > 0) by (nonlinear_arith)
            requires
                rhs.d() == gd * d1 + 0,
                rhs.d() > 0,
                gd > 0,
        ;
        assert(c1 * b1 != 0) by (nonlinear_arith)
            requires
                c1 > 0,
                b1 != 0,
        ;
        let (an, ad) = (self.n() as real, self.d() as real);
        let (bn, bd) = (rhs.n() as real, rhs.d() as real);
        let (a1r, b1r, c1r, d1r) = (a1 as real, b1 as real, c1 as real, d1 as real);
        assert((a1r * d1r) / (c1r * b1r) == (an / ad) / (bn / bd)) by (nonlinear_arith)
            requires
                a1r / b1r == an / bn,
                d1r / c1r == bd / ad,
                c1r > 0real,
                d1r > 0real,
                b1r != 0real,
                bn != 0real,
                ad > 0real,
                bd > 0real,
        ;
    }
}

impl Scalar for Rational {
    open spec fn val(self) -> real {
        (self.numer_spec() as real) / (self.denom_spec() as real)
    }

    open spec fn zero_spec() -> Self {
        Rational::from_parts(0, 1)
    }

    open spec fn one_spec() -> Self {
        Rational::from_parts(1, 1)
    }

    open spec fn neg_req(self) -> bool {
        self.well_formed() && self.n() != i64::MIN
    }

    open spec fn neg_spec(self) -> Self {
        Rational::from_parts((-self.n()) as i64, self.denom_spec())
    }

    open spec fn add_req(self, rhs: Self) -> bool {
        let l = self.common_denom(rhs);
        self.over_common_denom_req(rhs) && fits(self.numer_over(l) + rhs.numer_over(l))
    }

    open spec fn add_spec(self, rhs: Self) -> Self {
        let l = self.common_denom(rhs);
        Rational::new_spec(self.numer_over(l) + rhs.numer_over(l), l)
    }

    open spec fn sub_req(self, rhs: Self) -> bool {
        let l = self.common_denom(rhs);
        self.over_common_denom_req(rhs) && fits(self.numer_over(l) - rhs.numer_over(l))
    }

    open spec fn sub_spec(self, rhs: Self) -> Self {
        let l = self.common_denom(rhs);
        Rational::new_spec(self.numer_over(l) - rhs.numer_over(l), l)
    }

    open spec fn mul_req(self, rhs: Self) -> bool {
        &&& self.well_formed()
        &&& rhs.well_formed()
        &&& fits(self.mul_numer(rhs))
        &&& fits(self.mul_denom(rhs))
    }

    open spec fn mul_spec(self, rhs: Self) -> Self {
        Rational::new_spec(self.mul_numer(rhs), self.mul_denom(rhs))
    }

    open spec fn div_req(self, rhs: Self) -> bool {
        &&& self.well_formed()
        &&& rhs.well_formed()
        &&& rhs.n() != 0
        &&& !(rhs.n() == i64::MIN && (self.n() == 0 || self.n() == i64::MIN))
        &&& fits(self.div_numer(rhs))
        &&& fits(self.div_denom(rhs))
        &&& Rational::new_req(self.div_numer(rhs), self.div_denom(rhs))
    }

    open spec fn div_spec(self, rhs: Self) -> Self {
        Rational::new_spec(self.div_numer(rhs), self.div_denom(rhs))
    }

    proof fn lemma_constants() {
        Rational::lemma_parts(0, 1);
        Rational::lemma_parts(1, 1);
        lemma_over_one(0);
        lemma_over_one(1);
    }

    proof fn lemma_neg(self) {
        Rational::lemma_parts((-self.n()) as i64, self.denom_spec());
        let (n, d) = (self.n() as real, self.d() as real);
        assert((-n) / d == -(n / d)) by (nonlinear_arith)
            requires
                d > 0real,
        ;
    }

    proof fn lemma_add(self, rhs: Self) {
        let l = self.common_denom(rhs);
        self.lemma_over_common_denom(rhs);
        Rational::lemma_new_spec(self.numer_over(l) + rhs.numer_over(l), l);
        let (x, y, lr) = (self.numer_over(l) as real, rhs.numer_over(l) as real, l as real);
        assert((x + y) / lr == x / lr + y / lr) by (nonlinear_arith)
            requires
                lr > 0real,
        ;
    }

    proof fn lemma_sub(self, rhs: Self) {
        let l = self.common_denom(rhs);
        self.lemma_over_common_denom(rhs);
        Rational::lemma_new_spec(self.numer_over(l) - rhs.numer_over(l), l);
        let (x, y, lr) = (self.numer_over(l) as real, rhs.numer_over(l) as real, l as real);
        assert((x - y) / lr == x / lr - y / lr) by (nonlinear_arith)
            requires
                lr > 0real,
        ;
    }

    proof fn lemma_mul(self, rhs: Self) {
        self.lemma_mul_parts(rhs);
        Rational::lemma_new_spec(self.mul_numer(rhs), self.mul_denom(rhs));
    }

    proof fn lemma_div(self, rhs: Self) {
        self.lemma_div_parts(rhs);
        Rational::lemma_new_spec(self.div_numer(rhs), self.div_denom(rhs));
        let (n, d) = (rhs.n() as real, rhs.d() as real);
        assert(n / d != 0real) by (nonlinear_arith)
            requires
                n != 0real,
                d > 0real,
        ;
    }

    fn zero() -> (r: Self) {
        proof {
            Self::lemma_constants();
        }
        ratio_zero()
    }

    fn one() -> (r: Self) {
        proof {
            Self::lemma_constants();
        }
        ratio_one()
    }

    fn neg(self) -> (r: Self) {
        proof {
            self.lemma_neg();
        }
        ratio_neg(self)
    }

    fn add(self, rhs: Self) -> (r: Self) {
        proof {
            self.lemma_add(rhs);
        }
        ratio_add(self, rhs)
    }

    fn sub(self, rhs: Self) -> (r: Self) {
        proof {
            self.lemma_sub(rhs);
        }
        ratio_sub(self, rhs)
    }

    fn mul(self, rhs: Self) -> (r: Self) {
        proof {
            self.lemma_mul(rhs);
        }
        ratio_mul(self, rhs)
    }

    fn div(self, rhs: Self) -> (r: Self) {
        proof {
            self.lemma_div(rhs);
        }
        ratio_div(self, rhs)
    }

    fn lt(self, rhs: Self) -> (b: bool) {
        proof {
            use_type_invariant(&self);
            use_type_invariant(&rhs);
            lemma_fraction_order(self.n(), self.d(), rhs.n(), rhs.d());
        }
        ratio_lt(self, rhs)
    }
}

impl Default for Rational {
    /// Zero.
    fn default() -> (r: Self)
        ensures
            r == Rational::from_parts(0, 1),
            r.val() == 0real,
    {
        Rational::zero()
    }
}

impl EpsilonThreshold for Rational {
    open spec fn strictly_positive(self) -> bool {
        self.val() > 0real
    }

    proof fn lemma_strictly_positive(self) {
    }

    fn is_strictly_positive(self) -> (b: bool) {
        let zero = Rational::zero();
        zero.lt(self)
    }
}

/// Fractions with positive denominators are ordered as their cross products.
pub proof fn lemma_fraction_order(a: int, b: int, c: int, d: int)
    requires
        b > 0,
        d > 0,
    ensures
        (a * d < c * b) == ((a as real) / (b as real) < (c as real) / (d as real)),
{
    crate::scalar::lemma_int_mul_as_real(a, d);
    crate::scalar::lemma_int_mul_as_real(c, b);
    let (ar, br, cr, dr) = (a as real, b as real, c as real, d as real);
    assert((ar * dr < cr * br) == (ar / br < cr / dr)) by (nonlinear_arith)
        requires
            br > 0real,
            dr > 0real,
    ;
}

} // verus!
