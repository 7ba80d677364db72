//! Exact rational numbers of unbounded size, carried by `num::BigRational`.

use crate::scalar::{abs_real, Scalar};
use vstd::prelude::*;

verus! {

/// `num::BigInt`, an integer of unbounded size. It is carried through;
/// nothing is known of what it holds.
#[verifier::external_type_specification]
#[verifier::external_body]
pub struct ExBigInt(num::BigInt);

/// `num::rational::Ratio`, a numerator and a denominator. It is carried
/// through; what a ratio of big integers stands for is `ratio_value`.
#[verifier::external_type_specification]
#[verifier::external_body]
#[verifier::reject_recursive_types(T)]
pub struct ExRatio<T>(num::rational::Ratio<T>);

/// The real number that a ratio of big integers stands for: its numerator
/// divided by its denominator. Nothing is proved of it; the operations below
/// state what `num` computes in terms of it.
pub uninterp spec fn ratio_value(q: num::rational::Ratio<num::BigInt>) -> real;

/// A rational number of unbounded size.
///
/// The ratio inside is only ever produced by the constructors and operations
/// of this module, so it is in lowest terms with a positive denominator.
#[derive(Debug, PartialEq)]
pub struct Rational {
    ratio: num::rational::Ratio<num::BigInt>,
}

/// `Ratio::from_integer` on a big integer made from `n`: the ratio `n/1`.
#[verifier::external_body]
fn ratio_from_integer(n: i64) -> (r: Rational)
    ensures
        ratio_value(r.ratio) == n as real,
{
    Rational { ratio: num::rational::Ratio::from_integer(num::BigInt::from(n)) }
}

/// `Ratio::new` on big integers made from `n` and `d`: the ratio `n/d` in
/// lowest terms. The outside function panics on a zero denominator.
#[verifier::external_body]
fn ratio_new(n: i64, d: i64) -> (r: Rational)
    requires
        d != 0,
    ensures
        ratio_value(r.ratio) == n as real / d as real,
{
    Rational { ratio: num::rational::Ratio::new(num::BigInt::from(n), num::BigInt::from(d)) }
}

/// `Zero::zero` of `Ratio`: the ratio `0/1`.
#[verifier::external_body]
fn ratio_zero() -> (r: Rational)
    ensures
        ratio_value(r.ratio) == 0real,
{
    Rational { ratio: num::Zero::zero() }
}

/// `One::one` of `Ratio`: the ratio `1/1`.
#[verifier::external_body]
fn ratio_one() -> (r: Rational)
    ensures
        ratio_value(r.ratio) == 1real,
{
    Rational { ratio: num::One::one() }
}

/// `Clone::clone` of `Ratio`, which copies numerator and denominator.
#[verifier::external_body]
fn ratio_clone(a: &Rational) -> (r: Rational)
    ensures
        ratio_value(r.ratio) == ratio_value(a.ratio),
{
    Rational { ratio: a.ratio.clone() }
}

/// `Signed::abs` of `Ratio`: the ratio itself, negated where it is negative.
#[verifier::external_body]
fn ratio_abs(a: &Rational) -> (r: Rational)
    ensures
        ratio_value(r.ratio) == abs_real(ratio_value(a.ratio)),
{
    Rational { ratio: num::Signed::abs(&a.ratio) }
}

/// `Add::add` of `&Ratio`: the exact sum, reduced.
#[verifier::external_body]
fn ratio_add(a: &Rational, b: &Rational) -> (r: Rational)
    ensures
        ratio_value(r.ratio) == ratio_value(a.ratio) + ratio_value(b.ratio),
{
    Rational { ratio: &a.ratio + &b.ratio }
}

/// `Sub::sub` of `&Ratio`: the exact difference, reduced.
#[verifier::external_body]
fn ratio_sub(a: &Rational, b: &Rational) -> (r: Rational)
    ensures
        ratio_value(r.ratio) == ratio_value(a.ratio) - ratio_value(b.ratio),
{
    Rational { ratio: &a.ratio - &b.ratio }
}

/// `Mul::mul` of `&Ratio`: the exact product, reduced.
#[verifier::external_body]
fn ratio_mul(a: &Rational, b: &Rational) -> (r: Rational)
    ensures
        ratio_value(r.ratio) == ratio_value(a.ratio) * ratio_value(b.ratio),
{
    Rational { ratio: &a.ratio * &b.ratio }
}

/// `Div::div` of `&Ratio`: the exact quotient, reduced. The outside function
/// panics on a zero divisor.
#[verifier::external_body]
fn ratio_div(a: &Rational, b: &Rational) -> (r: Rational)
    requires
        ratio_value(b.ratio) != 0real,
    ensures
        ratio_value(r.ratio) == ratio_value(a.ratio) / ratio_value(b.ratio),
{
    Rational { ratio: &a.ratio / &b.ratio }
}

/// `PartialOrd::gt` of `Ratio`, which orders ratios as the numbers they stand
/// for.
#[verifier::external_body]
fn ratio_gt(a: &Rational, b: &Rational) -> (r: bool)
    ensures
        r == (ratio_value(a.ratio) > ratio_value(b.ratio)),
{
    a.ratio > b.ratio
}

/// `PartialEq::eq` of `Ratio`, which holds exactly of ratios that stand for
/// the same number.
#[verifier::external_body]
fn ratio_eq(a: &Rational, b: &Rational) -> (r: bool)
    ensures
        r == (ratio_value(a.ratio) == ratio_value(b.ratio)),
{
    a.ratio == b.ratio
}

/// `n / d` is a way to write `v`, with a positive denominator.
pub open spec fn writes(n: int, d: int, v: real) -> bool {
    d > 0 && v * (d as real) == n as real
}

/// `n / d` writes `v` in lowest terms: no way to write `v` has a smaller
/// denominator.
pub open spec fn lowest_terms(n: int, d: int, v: real) -> bool {
    &&& writes(n, d, v)
    &&& forall|n2: int, d2: int| #[trigger] writes(n2, d2, v) ==> d <= d2
}

/// `n` as a 64-bit integer, where it is one.
pub open spec fn fit_i64(n: int) -> Option<i64> {
    if i64::MIN <= n <= i64::MAX {
        Some(n as i64)
    } else {
        None
    }
}

/// `parts` holds the numerator and the denominator of `v` in lowest terms,
/// each where it fits in 64 bits.
pub open spec fn parts_of(v: real, parts: (Option<i64>, Option<i64>)) -> bool {
    exists|n: int, d: int| #[trigger]
        lowest_terms(n, d, v) && parts.0 == fit_i64(n) && parts.1 == fit_i64(d)
}

/// `ToPrimitive::to_i64` of `Ratio::numer` and of `Ratio::denom`: the
/// numerator and the denominator of the number in lowest terms, each where it
/// fits in 64 bits.
#[verifier::external_body]
fn ratio_parts(a: &Rational) -> (r: (Option<i64>, Option<i64>))
    ensures
        parts_of(ratio_value(a.ratio), r),
{
    (num::ToPrimitive::to_i64(a.ratio.numer()), num::ToPrimitive::to_i64(a.ratio.denom()))
}

/// Of two ways to write one number, the one with the smaller denominator has
/// the numerator of smaller magnitude.
proof fn lemma_smaller_numerator(n: int, d: int, n2: int, d2: int, v: real)
    requires
        writes(n, d, v),
        writes(n2, d2, v),
        d <= d2,
    ensures
        n2 >= 0 ==> 0 <= n <= n2,
        n2 <= 0 ==> n2 <= n <= 0,
{
    let dr = d as real;
    let d2r = d2 as real;
    assert(v * dr <= v * d2r || v < 0real) by (nonlinear_arith)
        requires
            dr <= d2r,
            dr > 0real,
    ;
    assert(v * dr >= v * d2r || v > 0real) by (nonlinear_arith)
        requires
            dr <= d2r,
            dr > 0real,
    ;
    assert(v >= 0real ==> v * dr >= 0real) by (nonlinear_arith)
        requires
            dr > 0real,
    ;
    assert(v <= 0real ==> v * dr <= 0real) by (nonlinear_arith)
        requires
            dr > 0real,
    ;
    assert(v > 0real ==> v * d2r > 0real) by (nonlinear_arith)
        requires
            d2r > 0real,
    ;
    assert(v < 0real ==> v * d2r < 0real) by (nonlinear_arith)
        requires
            d2r > 0real,
    ;
}

impl Clone for Rational {
    /// Another rational number with the same value.
    fn clone(&self) -> (r: Self)
        ensures
            r.value() == self.value(),
    {
        ratio_clone(self)
    }
}

impl Rational {
    /// Numerator and denominator in lowest terms, the denominator positive,
    /// where both fit in 64 bits; `None` where the number cannot be written
    /// with 64-bit integers.
    pub fn to_i64_pair(&self) -> (r: Option<(i64, i64)>)
        ensures
            r matches Some((n, d)) ==> lowest_terms(n as int, d as int, self.value()),
            r is None ==> forall|n2: i64, d2: i64|
                !#[trigger] writes(n2 as int, d2 as int, self.value()),
    {
        let parts = ratio_parts(self);
        let ghost v = self.value();
        let ghost (n, d) = choose|n: int, d: int| #[trigger]
            lowest_terms(n, d, v) && parts.0 == fit_i64(n) && parts.1 == fit_i64(d);
        match parts {
            (Some(numer), Some(denom)) => Some((numer, denom)),
            _ => {
                proof {
                    assert forall|n2: i64, d2: i64| !#[trigger] writes(
                        n2 as int,
                        d2 as int,
                        v,
                    ) by {
                        if writes(n2 as int, d2 as int, v) {
                            assert(d <= d2);
                            lemma_smaller_numerator(n, d, n2 as int, d2 as int, v);
                        }
                    }
                }
                None
            },
        }
    }

    /// The rational number `n`.
    pub fn from_integer(n: i64) -> (r: Self)
        ensures
            r.value() == n as real,
    {
        ratio_from_integer(n)
    }

    /// The rational number `n/d`, or `None` where `d` is zero.
    pub fn new(n: i64, d: i64) -> (r: Option<Self>)
        ensures
            (d == 0) == r.is_none(),
            d != 0 ==> r.unwrap().value() == n as real / d as real,
    {
        if d == 0 {
            None
        } else {
            Some(ratio_new(n, d))
        }
    }
}

impl Scalar for Rational {
    closed spec fn value(&self) -> real {
        ratio_value(self.ratio)
    }

    fn zero() -> (r: Self) {
        ratio_zero()
    }

    fn one() -> (r: Self) {
        ratio_one()
    }

    fn duplicate(&self) -> (r: Self) {
        ratio_clone(self)
    }

    fn abs(&self) -> (r: Self) {
        ratio_abs(self)
    }

    fn add(&self, rhs: &Self) -> (r: Self) {
        ratio_add(self, rhs)
    }

    fn sub(&self, rhs: &Self) -> (r: Self) {
        ratio_sub(self, rhs)
    }

    fn mul(&self, rhs: &Self) -> (r: Self) {
        ratio_mul(self, rhs)
    }

    fn div(&self, rhs: &Self) -> (r: Self) {
        ratio_div(self, rhs)
    }

    fn gt(&self, rhs: &Self) -> (b: bool) {
        ratio_gt(self, rhs)
    }

    fn is_zero(&self) -> (b: bool) {
        let z = ratio_zero();
        ratio_eq(self, &z)
    }
}

} // verus!
