use algebra::rational::Rational;
use algebra::scalar::Scalar;

fn q(n: i64, d: i64) -> Rational {
    Rational::new(n, d).unwrap()
}

#[test]
fn rational_is_kept_in_lowest_terms() {
    assert_eq!(q(2, 4).to_i64_pair(), Some((1, 2)));
    assert_eq!(q(1, -2).to_i64_pair(), Some((-1, 2)));
    assert_eq!(q(0, 5).to_i64_pair(), Some((0, 1)));
    assert_eq!(Rational::from_integer(-7).to_i64_pair(), Some((-7, 1)));
    assert_eq!(q(2, 4), q(1, 2));
}

#[test]
fn rational_with_zero_denominator_is_refused() {
    assert!(Rational::new(1, 0).is_none());
    assert!(Rational::new(0, 0).is_none());
    assert!(Rational::new(0, 1).is_some());
}

#[test]
fn rational_that_does_not_fit_has_no_pair() {
    let big = Rational::from_integer(i64::MAX);
    assert_eq!(big.to_i64_pair(), Some((i64::MAX, 1)));
    assert_eq!(big.add(&big).to_i64_pair(), None);
    let small = q(1, i64::MAX);
    assert_eq!(small.mul(&small).to_i64_pair(), None);
    assert_eq!(Rational::from_integer(i64::MIN).to_i64_pair(), Some((i64::MIN, 1)));
}

#[test]
fn rational_arithmetic_is_exact() {
    assert_eq!(q(1, 2).add(&q(1, 3)), q(5, 6));
    assert_eq!(q(1, 2).sub(&q(1, 3)), q(1, 6));
    assert_eq!(q(2, 3).mul(&q(3, 4)), q(1, 2));
    assert_eq!(q(2, 3).div(&q(4, 9)), q(3, 2));
    assert_eq!(q(-2, 3).abs(), q(2, 3));
    assert_eq!(q(2, 3).abs(), q(2, 3));
    assert_eq!(q(1, 3).add(&q(1, 3)).add(&q(1, 3)), Rational::one());
}

#[test]
fn rational_identities() {
    assert_eq!(Rational::zero(), Rational::from_integer(0));
    assert_eq!(Rational::one(), Rational::from_integer(1));
    assert!(Rational::zero().is_zero());
    assert!(!Rational::one().is_zero());
    assert!(q(0, 9).is_zero());
}

#[test]
fn rational_order_follows_the_numbers() {
    assert!(q(1, 2).gt(&q(1, 3)));
    assert!(!q(1, 3).gt(&q(1, 2)));
    assert!(!q(1, 2).gt(&q(2, 4)));
    assert!(q(-1, 3).gt(&q(-1, 2)));
}

#[test]
fn rational_copies_keep_the_value() {
    let x = q(-5, 7);
    assert_eq!(x.duplicate(), q(-5, 7));
    assert_eq!(x.clone(), q(-5, 7));
    assert_eq!(x, q(-5, 7));
}
