//! Vectors and the spaces they live in.

pub mod vector_space;
