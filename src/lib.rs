//! A small numeric tower: undefined, integer, rational, real and complex
//! values, kept in their simplest form, with an addition over every pair.

pub mod gcd;
pub mod ratio;
pub mod number;
pub mod float;
pub mod sum;
pub mod laws;

pub use number::{Number, Rational};
pub use sum::{FloatOp, Scalar, Sum};
