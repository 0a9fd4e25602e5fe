//! Exact rational arithmetic on machine integers.
//!
//! A [`Rational`] is a fraction of two `isize` values with a non-zero
//! denominator. All intermediate cross products are computed in 128 bits, so
//! an operation fails with [`RationalError::Overflow`] only when its result,
//! in lowest terms, does not fit the two fields.

pub mod decimal;
pub mod decimal_laws;
pub mod divisors;
pub mod error;
pub mod fraction;
pub mod grammar;
pub mod hashing;
pub mod laws;
pub mod ops;
pub mod order;
pub mod order_laws;
pub mod parser;
pub mod rational;
pub mod tokens;
pub mod wide;

pub use crate::error::RationalError;
pub use crate::fraction::Fraction;
pub use crate::rational::Rational;
