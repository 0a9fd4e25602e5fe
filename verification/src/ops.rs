//! The arithmetic operators on rationals.
//!
//! Every operator computes the cross products of its operands exactly, in
//! 128 bits, brings the result to lowest terms and returns it if its fields
//! fit in `isize`. The result is stated by the `*_spec` function of each
//! operator, over the fractions that the operands stand for.

use crate::error::RationalError;
use crate::rational::Rational;
use crate::wide::Wide;
use std::ops::{Add, Div, Mul, Neg, Sub};
use vstd::prelude::*;
use vstd::std_specs::ops::{AddSpecImpl, DivSpecImpl, MulSpecImpl, NegSpecImpl, SubSpecImpl};

verus! {

/// The product of two non-zero integers is not zero.
pub proof fn lemma_product_is_not_zero(x: int, y: int)
    requires
        x != 0,
        y != 0,
    ensures
        x * y != 0,
{
    assert(x * y != 0) by (nonlinear_arith)
        requires
            x != 0,
            y != 0,
    ;
}

impl Neg for Rational {
    type Output = Result<Rational, RationalError>;

    /// The rational of the opposite sign: the numerator is negated and the
    /// denominator kept, with no reduction.
    fn neg(self) -> (r: Result<Rational, RationalError>)
        ensures
            match r {
                Ok(v) => v@ == self@.negated(),
                Err(e) => e == RationalError::Overflow && !self@.negated().fits(),
            },
    {
        proof {
            Rational::lemma_checked(self@.negated());
        }
        let n = Wide::from_isize(self.numerator()).negated();
        let d = Wide::from_isize(self.denominator());
        Rational::from_wide_unchecked(n, d)
    }
}

impl NegSpecImpl for Rational {
    open spec fn obeys_neg_spec() -> bool {
        true
    }

    open spec fn neg_req(self) -> bool {
        true
    }

    open spec fn neg_spec(self) -> Result<Rational, RationalError> {
        Rational::checked(self@.negated())
    }
}

impl Add for Rational {
    type Output = Result<Rational, RationalError>;

    /// The sum, in lowest terms.
    fn add(self, rhs: Rational) -> (r: Result<Rational, RationalError>)
        ensures
            match r {
                Ok(v) => v@ == self@.plus(rhs@).lowest_terms(),
                Err(e) => e == RationalError::Overflow && !self@.plus(rhs@).lowest_terms().fits(),
            },
    {
        proof {
            Rational::lemma_checked(self@.plus(rhs@).lowest_terms());
        }
        let left = Wide::product(self.numerator(), rhs.denominator());
        let right = Wide::product(rhs.numerator(), self.denominator());
        let d = Wide::product(self.denominator(), rhs.denominator());
        proof {
            lemma_product_is_not_zero(self@.den, rhs@.den);
        }
        Rational::from_wide(left.sum(right), d)
    }
}

impl AddSpecImpl for Rational {
    open spec fn obeys_add_spec() -> bool {
        true
    }

    open spec fn add_req(self, rhs: Rational) -> bool {
        true
    }

    open spec fn add_spec(self, rhs: Rational) -> Result<Rational, RationalError> {
        Rational::checked(self@.plus(rhs@).lowest_terms())
    }
}

impl Sub for Rational {
    type Output = Result<Rational, RationalError>;

    /// The difference, in lowest terms: the sum of `self` and the opposite
    /// of `rhs`.
    fn sub(self, rhs: Rational) -> (r: Result<Rational, RationalError>)
        ensures
            match r {
                Ok(v) => v@ == self@.minus(rhs@).lowest_terms(),
                Err(e) => e == RationalError::Overflow && !self@.minus(rhs@).lowest_terms().fits(),
            },
    {
        proof {
            Rational::lemma_checked(self@.minus(rhs@).lowest_terms());
        }
        let left = Wide::product(self.numerator(), rhs.denominator());
        let right = Wide::product(rhs.numerator(), self.denominator()).negated();
        let d = Wide::product(self.denominator(), rhs.denominator());
        proof {
            lemma_product_is_not_zero(self@.den, rhs@.den);
            assert((-rhs@.num) * self@.den == -(rhs@.num * self@.den)) by (nonlinear_arith);
        }
        Rational::from_wide(left.sum(right), d)
    }
}

impl SubSpecImpl for Rational {
    open spec fn obeys_sub_spec() -> bool {
        true
    }

    open spec fn sub_req(self, rhs: Rational) -> bool {
        true
    }

    open spec fn sub_spec(self, rhs: Rational) -> Result<Rational, RationalError> {
        Rational::checked(self@.minus(rhs@).lowest_terms())
    }
}

impl Mul for Rational {
    type Output = Result<Rational, RationalError>;

    /// The product, in lowest terms.
    fn mul(self, rhs: Rational) -> (r: Result<Rational, RationalError>)
        ensures
            match r {
                Ok(v) => v@ == self@.times(rhs@).lowest_terms(),
                Err(e) => e == RationalError::Overflow && !self@.times(rhs@).lowest_terms().fits(),
            },
    {
        proof {
            Rational::lemma_checked(self@.times(rhs@).lowest_terms());
        }
        let n = Wide::product(self.numerator(), rhs.numerator());
        let d = Wide::product(self.denominator(), rhs.denominator());
        proof {
            lemma_product_is_not_zero(self@.den, rhs@.den);
        }
        Rational::from_wide(n, d)
    }
}

impl MulSpecImpl for Rational {
    open spec fn obeys_mul_spec() -> bool {
        true
    }

    open spec fn mul_req(self, rhs: Rational) -> bool {
        true
    }

    open spec fn mul_spec(self, rhs: Rational) -> Result<Rational, RationalError> {
        Rational::checked(self@.times(rhs@).lowest_terms())
    }
}

impl Div for Rational {
    type Output = Result<Rational, RationalError>;

    /// The quotient, in lowest terms, unless `rhs` is zero.
    fn div(self, rhs: Rational) -> (r: Result<Rational, RationalError>)
        ensures
            match r {
                Ok(v) => !rhs@.is_zero() && v@ == self@.over(rhs@).lowest_terms(),
                Err(e) => if rhs@.is_zero() {
                    e == RationalError::DivisionByZero
                } else {
                    e == RationalError::Overflow && !self@.over(rhs@).lowest_terms().fits()
                },
            },
    {
        proof {
            Rational::lemma_checked(self@.over(rhs@).lowest_terms());
        }
        if rhs.numerator() == 0 {
            return Err(RationalError::DivisionByZero);
        }
        let n = Wide::product(self.numerator(), rhs.denominator());
        let d = Wide::product(self.denominator(), rhs.numerator());
        proof {
            lemma_product_is_not_zero(self@.den, rhs@.num);
        }
        Rational::from_wide(n, d)
    }
}

impl DivSpecImpl for Rational {
    open spec fn obeys_div_spec() -> bool {
        true
    }

    open spec fn div_req(self, rhs: Rational) -> bool {
        true
    }

    open spec fn div_spec(self, rhs: Rational) -> Result<Rational, RationalError> {
        if rhs@.is_zero() {
            Err(RationalError::DivisionByZero)
        } else {
            Rational::checked(self@.over(rhs@).lowest_terms())
        }
    }
}

} // verus!
