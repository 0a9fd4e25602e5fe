//! The ways in which an operation on rationals can fail.

use vstd::prelude::*;

verus! {

/// Why an operation returned no value.
#[derive(Clone, Copy, Debug, PartialEq, Eq, Structural)]
pub enum RationalError {
    /// A fraction was built with a denominator of zero.
    InvalidDenominator,
    /// The divisor of a division was the zero fraction.
    DivisionByZero,
    /// The text is not a decimal literal.
    Parse,
    /// The result, or a component of a literal, does not fit in `isize`.
    Overflow,
}

impl RationalError {
    /// The text that describes this error.
    pub fn message(&self) -> (text: &'static str)
        ensures
            text@ == self.message_text(),
    {
        match self {
            RationalError::InvalidDenominator => "Denominator can't be zero!",
            RationalError::DivisionByZero => "Can't divide by zero",
            RationalError::Parse => "Error parsing string",
            RationalError::Overflow => "Value does not fit in the integer type",
        }
    }

    /// What [`RationalError::message`] returns, as a sequence of characters.
    pub open spec fn message_text(&self) -> Seq<char> {
        match self {
            RationalError::InvalidDenominator => "Denominator can't be zero!"@,
            RationalError::DivisionByZero => "Can't divide by zero"@,
            RationalError::Parse => "Error parsing string"@,
            RationalError::Overflow => "Value does not fit in the integer type"@,
        }
    }
}

} // verus!
