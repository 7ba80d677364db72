//! The capability set that the numeric kernels ask of an element type.

use vstd::prelude::*;

verus! {

/// Absolute value of a real number.
pub open spec fn abs_real(x: real) -> real {
    if x < 0real {
        -x
    } else {
        x
    }
}

/// An exact number: every value stands for one real, and the operations
/// compute on those reals without rounding.
///
/// The kernels never look inside an element. They create the two identities,
/// combine elements with the four operations, take magnitudes and compare, so
/// whatever is proved of a kernel holds for every element type that keeps
/// these promises.
pub trait Scalar: Sized {
    /// The real number that this element stands for.
    spec fn value(&self) -> real;

    /// The additive identity.
    fn zero() -> (r: Self)
        ensures
            r.value() == 0real,
    ;

    /// The multiplicative identity.
    fn one() -> (r: Self)
        ensures
            r.value() == 1real,
    ;

    /// Another element with the same value.
    fn duplicate(&self) -> (r: Self)
        ensures
            r.value() == self.value(),
    ;

    /// The magnitude of the element.
    fn abs(&self) -> (r: Self)
        ensures
            r.value() == abs_real(self.value()),
    ;

    fn add(&self, rhs: &Self) -> (r: Self)
        ensures
            r.value() == self.value() + rhs.value(),
    ;

    fn sub(&self, rhs: &Self) -> (r: Self)
        ensures
            r.value() == self.value() - rhs.value(),
    ;

    fn mul(&self, rhs: &Self) -> (r: Self)
        ensures
            r.value() == self.value() * rhs.value(),
    ;

    /// Division, defined for a divisor other than zero.
    fn div(&self, rhs: &Self) -> (r: Self)
        requires
            rhs.value() != 0real,
        ensures
            r.value() == self.value() / rhs.value(),
    ;

    /// Whether the element is strictly greater than `rhs`.
    fn gt(&self, rhs: &Self) -> (b: bool)
        ensures
            b == (self.value() > rhs.value()),
    ;

    /// Whether the element is the additive identity.
    fn is_zero(&self) -> (b: bool)
        ensures
            b == (self.value() == 0real),
    ;
}

} // verus!
