//! Dense linear-algebra kernels over exact scalars: a flat row-major matrix,
//! its transposition, and its LU factorisation with partial pivoting.
//!
//! The matrix is [`matrix::Matrix`]; its mathematical model is
//! [`grid::Grid`]. The element type of the numeric kernels is any
//! [`scalar::Scalar`], and [`rational::Rational`] is one. What the
//! factorisation computes is defined in [`elimination`] and
//! [`factorisation`], and what holds of it is proved in [`soundness`].

pub mod arithmetic;
pub mod elimination;
pub mod error;
pub mod factorisation;
pub mod grid;
pub mod lu;
pub mod matrix;
pub mod numeric;
pub mod rational;
pub mod scalar;
pub mod soundness;
pub mod transpose;
pub mod vector;
pub mod vector_space;
