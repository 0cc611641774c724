//! Matrices whose row and column counts are part of the type.
pub mod matrix;

pub use matrix::Matrix;
pub mod laws;
