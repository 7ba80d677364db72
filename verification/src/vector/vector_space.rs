//! The operations of a vector space of a fixed dimension, one trait for
//! each. Scaling and negation work on a vector where it stands.

use vstd::prelude::*;

verus! {

/// A vector space names the type of its scalars and the type of its vectors,
/// and knows its dimension.
pub trait VectorSpace {
    type Scalar;

    type Vector;

    fn dimensions(&self) -> usize;
}

/// Addition of two vectors, into the first or into a new one.
pub trait VAdd {
    type Vector;

    fn vadd_mut(&self, lhs: &mut Self::Vector, rhs: &Self::Vector);

    fn vadd(&self, lhs: &Self::Vector, rhs: &Self::Vector) -> Self::Vector;
}

/// Multiplication of the vector that `vector` holds by a scalar.
pub trait VScale {
    type Scalar;

    type Vector;

    fn vscale(&self, vector: &mut Self::Vector, scalar: &Self::Scalar);
}

/// A space that has both identities.
pub trait VIdentity: VMultiplicativeIdent + VAdditiveIdent {
}

/// The vector that changes nothing when it is added.
pub trait VAdditiveIdent {
    type Output;

    fn additive_ident(&self) -> Self::Output;
}

/// The scalar that changes nothing when a vector is multiplied by it.
pub trait VMultiplicativeIdent {
    type Output;

    fn mul_ident(&self) -> Self::Output;
}

/// The additive inverse, in place of the vector that `vector` holds.
pub trait VAdditiveInverse {
    type Vector;

    fn additive_inv(&self, vector: &mut Self::Vector);
}

/// Equality of two vectors of the space.
pub trait VPartialEq {
    type Vector;

    fn eq(&self, lhs: &Self::Vector, rhs: &Self::Vector) -> bool;
}

} // verus!
