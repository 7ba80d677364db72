//! The operations of a vector space, one trait for each, for spaces whose
//! vectors and scalars are values of their own.
//!
//! A space is a value: it may carry a dimension or a basis, and every
//! operation goes through it. Each operation comes in two forms, one that
//! builds a new vector and one, marked `Mut`, that works on a vector where it
//! stands.

use vstd::prelude::*;

verus! {

/// A vector space names the type of its scalars and the type of its vectors.
pub trait VectorSpace {
    type Scalar;

    type Vector;
}

/// Addition of two vectors.
pub trait VAdd {
    type Vector;

    fn vadd(&self, lhs: &Self::Vector, rhs: &Self::Vector) -> Self::Vector;
}

/// Addition of a vector to the one that `lhs` holds.
pub trait VAddMut {
    type Vector;

    fn vadd_mut(&self, lhs: &mut Self::Vector, rhs: &Self::Vector);
}

/// Multiplication of a vector by a scalar.
pub trait VScale {
    type Scalar;

    type Vector;

    fn vscale(&self, vector: &Self::Vector, scalar: &Self::Scalar) -> Self::Vector;
}

/// Multiplication of the vector that `vector` holds by a scalar.
pub trait VScaleMut {
    type Scalar;

    type Vector;

    fn vscale_mut(&self, vector: &mut Self::Vector, scalar: &Self::Scalar);
}

/// A space that has both identities.
pub trait VIdentity: VMultiplicativeIdentity + VAdditiveIdentity {
}

/// The vector that changes nothing when it is added.
pub trait VAdditiveIdentity {
    type Output;

    fn additive_identity(&self) -> Self::Output;
}

/// The scalar that changes nothing when a vector is multiplied by it.
pub trait VMultiplicativeIdentity {
    type Output;

    fn multiplicative_identity(&self) -> Self::Output;
}

/// The vector that, added to the given one, gives the additive identity.
pub trait VAdditiveInverse {
    type Vector;

    fn additive_inv(&self, vector: &Self::Vector) -> Self::Vector;
}

/// The additive inverse, in place of the vector that `vector` holds.
pub trait VAdditiveInverseMut {
    type Vector;

    fn additive_inv_mut(&self, vector: &mut Self::Vector);
}

/// Equality of two vectors of the space.
pub trait VPartialEq {
    type Vector;

    fn eq(&self, lhs: &Self::Vector, rhs: &Self::Vector) -> bool;
}

} // verus!
