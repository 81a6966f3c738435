use linprog_core::rational::Rational;
use linprog_core::scalar::EpsilonThreshold;
use linprog_core::scalar::Scalar;

#[test]
fn new_brings_a_fraction_to_lowest_terms() {
    let r = Rational::new(2, 4);
    assert_eq!(r.numer(), 1);
    assert_eq!(r.denom(), 2);
    assert_eq!(r, Rational::new(1, 2));
}

#[test]
fn new_keeps_the_denominator_positive() {
    let r = Rational::new(3, -6);
    assert_eq!(r.numer(), -1);
    assert_eq!(r.denom(), 2);
    let z = Rational::new(0, -5);
    assert_eq!(z.numer(), 0);
    assert_eq!(z.denom(), 1);
}

#[test]
fn from_integer_has_denominator_one() {
    let r = Rational::from_integer(-7);
    assert_eq!(r.numer(), -7);
    assert_eq!(r.denom(), 1);
}

#[test]
fn zero_and_one_are_the_constants() {
    assert_eq!(<Rational as Scalar>::zero(), Rational::new(0, 1));
    assert_eq!(<Rational as Scalar>::one(), Rational::new(1, 1));
    assert_eq!(Rational::default(), Rational::new(0, 1));
}

#[test]
fn negation_changes_the_sign() {
    assert_eq!(Scalar::neg(Rational::new(1, 2)), Rational::new(-1, 2));
    assert_eq!(Scalar::neg(Rational::new(-3, 4)), Rational::new(3, 4));
}

#[test]
fn addition_uses_the_common_denominator() {
    assert_eq!(Scalar::add(Rational::new(1, 2), Rational::new(1, 3)), Rational::new(5, 6));
    assert_eq!(Scalar::add(Rational::new(1, 6), Rational::new(1, 3)), Rational::new(1, 2));
    assert_eq!(Scalar::add(Rational::new(1, 2), Rational::new(-1, 2)), Rational::new(0, 1));
}

#[test]
fn subtraction_uses_the_common_denominator() {
    assert_eq!(Scalar::sub(Rational::new(1, 2), Rational::new(1, 3)), Rational::new(1, 6));
    assert_eq!(Scalar::sub(Rational::new(1, 3), Rational::new(1, 2)), Rational::new(-1, 6));
}

#[test]
fn multiplication_reduces_the_product() {
    assert_eq!(Scalar::mul(Rational::new(2, 3), Rational::new(3, 4)), Rational::new(1, 2));
    assert_eq!(Scalar::mul(Rational::new(-2, 3), Rational::new(3, 2)), Rational::new(-1, 1));
}

#[test]
fn division_reduces_the_quotient_and_keeps_the_sign_in_the_numerator() {
    assert_eq!(Scalar::div(Rational::new(1, 2), Rational::new(3, 4)), Rational::new(2, 3));
    let q = Scalar::div(Rational::new(1, 2), Rational::new(-3, 4));
    assert_eq!(q.numer(), -2);
    assert_eq!(q.denom(), 3);
}

#[test]
fn order_is_that_of_the_numbers() {
    assert!(Rational::new(1, 3).lt(Rational::new(1, 2)));
    assert!(!Rational::new(1, 2).lt(Rational::new(1, 3)));
    assert!(!Rational::new(1, 2).lt(Rational::new(2, 4)));
    assert!(Rational::new(-1, 2).lt(Rational::new(0, 1)));
}

#[test]
fn only_positive_numbers_are_strictly_positive() {
    assert!(Rational::new(1, 1_000_000).is_strictly_positive());
    assert!(!Rational::new(0, 1).is_strictly_positive());
    assert!(!Rational::new(-1, 2).is_strictly_positive());
    assert!(1i32.is_strictly_positive());
    assert!(!0i32.is_strictly_positive());
}

#[test]
fn integers_are_scalars_with_exact_division() {
    assert_eq!(Scalar::add(2i32, 3i32), 5);
    assert_eq!(Scalar::sub(2i32, 3i32), -1);
    assert_eq!(Scalar::mul(-2i32, 3i32), -6);
    assert_eq!(Scalar::div(-6i32, 3i32), -2);
    assert_eq!(Scalar::div(6i32, -3i32), -2);
    assert_eq!(Scalar::neg(5i32), -5);
    assert!(Scalar::lt(2i32, 3i32));
    assert_eq!(<i32 as Scalar>::zero(), 0);
    assert_eq!(<i32 as Scalar>::one(), 1);
}

#[test]
fn the_least_integer_is_a_part_where_no_sign_changes() {
    let r = Rational::new(i64::MIN, 1);
    assert_eq!((r.numer(), r.denom()), (i64::MIN, 1));
    let r = Rational::new(i64::MIN, 2);
    assert_eq!((r.numer(), r.denom()), (i64::MIN / 2, 1));
    let r = Rational::new(i64::MIN, i64::MIN);
    assert_eq!((r.numer(), r.denom()), (1, 1));
    let r = Rational::new(0, i64::MIN);
    assert_eq!((r.numer(), r.denom()), (0, 1));
    // The common divisor 2 goes out before the signs change.
    let r = Rational::new(i64::MIN, -2);
    assert_eq!((r.numer(), r.denom()), (1 << 62, 1));
    let r = Rational::new(6, i64::MIN);
    assert_eq!((r.numer(), r.denom()), (-3, 1 << 62));
    let r = Rational::new(i64::MAX, -i64::MAX);
    assert_eq!((r.numer(), r.denom()), (-1, 1));
}

#[test]
fn arithmetic_reaches_the_ends_of_the_range() {
    let least = Rational::new(i64::MIN, 1);
    let most = Rational::new(i64::MAX, 1);
    // Common divisors go out crosswise before the parts are multiplied.
    let half_least = Scalar::mul(least, Rational::new(1, 2));
    assert_eq!((half_least.numer(), half_least.denom()), (i64::MIN / 2, 1));
    let p = Scalar::mul(Rational::new(1 << 40, 3), Rational::new(3, 1 << 40));
    assert_eq!((p.numer(), p.denom()), (1, 1));
    assert_eq!(Scalar::add(most, Rational::new(0, 1)), most);
    assert_eq!(Scalar::add(least, most), Rational::new(-1, 1));
    assert_eq!(Scalar::sub(most, most), Rational::new(0, 1));
    assert_eq!(Scalar::neg(most), Rational::new(-i64::MAX, 1));
    // The same large denominator is the common denominator.
    let tiny = Rational::new(1, 1 << 62);
    let sum = Scalar::add(tiny, tiny);
    assert_eq!((sum.numer(), sum.denom()), (1, 1 << 61));
    let big = Rational::new(1, (1 << 40) * 3);
    let sum = Scalar::add(Rational::new(1, 1 << 40), big);
    assert_eq!((sum.numer(), sum.denom()), (1, 3 << 38));
    // Division by a negative number moves the sign to the numerator.
    let q = Scalar::div(most, Rational::new(-1, 1));
    assert_eq!((q.numer(), q.denom()), (-i64::MAX, 1));
    let q = Scalar::div(Rational::new(0, 1), Rational::new(-5, 3));
    assert_eq!((q.numer(), q.denom()), (0, 1));
    let q = Scalar::div(least, Rational::new(2, 1));
    assert_eq!((q.numer(), q.denom()), (i64::MIN / 2, 1));
    let q = Scalar::div(least, Rational::new(4, 3));
    assert_eq!((q.numer(), q.denom()), (i64::MIN / 4 * 3, 1));
}

#[test]
fn large_fractions_are_ordered_without_overflow() {
    let a = Rational::new(i64::MAX, i64::MAX - 1);
    let b = Rational::new(i64::MAX - 1, i64::MAX - 2);
    // 1 + 1/(MAX-1) < 1 + 1/(MAX-2)
    assert!(a.lt(b));
    assert!(!b.lt(a));
    assert!(!a.lt(a));
    assert!(Rational::new(i64::MIN, 1).lt(Rational::new(i64::MAX, 1)));
    assert!(Rational::new(-1, i64::MAX).lt(Rational::new(1, i64::MAX)));
    assert!(Rational::new(i64::MIN, 3).lt(Rational::new(i64::MIN, 5)));
    assert!(Rational::new(i64::MAX, 5).lt(Rational::new(i64::MAX, 3)));
    assert!(Rational::new(1, i64::MAX).is_strictly_positive());
}
