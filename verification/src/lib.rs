//! A small collection of verified mathematical utilities.
//!
//! - [`algebra`]: factorial, Fibonacci numbers and integer powers in wrapping
//!   64-bit arithmetic.
//! - [`gcd`]: the greatest common divisor of two numbers and of a list.
//! - [`matrix`]: a dense matrix with addition, multiplication and
//!   transposition, over any type of entries that implements
//!   [`scalar::Scalar`].
//! - [`matrix_model`]: what a matrix and its operations are mathematically,
//!   and the laws they obey.
//! - [`scalar`]: the arithmetic a matrix needs from its entries, and its
//!   instance for `i64`.
//!
//! Every function is pure: its result depends on its arguments alone, and its
//! contract says which value that is.

pub mod algebra;
pub mod gcd;
pub mod matrix;
pub mod matrix_model;
pub mod scalar;
