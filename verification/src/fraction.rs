//! The mathematical model of a rational number: a fraction of two integers.
//!
//! Every contract of the library is stated over [`Fraction`], whose fields
//! are unbounded integers. Two fractions can stand for one value: `1/2`,
//! `2/4` and `-1/-2` do. Equality and order are therefore defined by cross
//! multiplication, never by comparing fields.

use crate::divisors::{coprime, gcd_of};
use crate::wide::abs;
use std::cmp::Ordering;
use vstd::prelude::*;

verus! {

/// The sign of an integer: -1, 0 or 1.
pub open spec fn sign_of(x: int) -> int {
    if x < 0 {
        -1
    } else if x == 0 {
        0
    } else {
        1
    }
}

/// A numerator over a denominator.
pub struct Fraction {
    pub num: int,
    pub den: int,
}

impl Fraction {
    /// The fraction `n / 1`.
    pub open spec fn integer(n: int) -> Fraction {
        Fraction { num: n, den: 1 }
    }

    /// A fraction stands for a value when its denominator is not zero.
    pub open spec fn valid(self) -> bool {
        self.den != 0
    }

    /// Both fields are values of `isize`.
    pub open spec fn fits(self) -> bool {
        &&& isize::MIN <= self.num <= isize::MAX
        &&& isize::MIN <= self.den <= isize::MAX
    }

    /// The two fractions stand for the same value: `a/b == c/d` when
    /// `a * d == b * c`.
    pub open spec fn same_value(self, other: Fraction) -> bool {
        self.num * other.den == self.den * other.num
    }

    /// The fraction stands for zero.
    pub open spec fn is_zero(self) -> bool {
        self.same_value(Fraction::integer(0))
    }

    /// The sign of the value: the product of the signs of the two fields.
    pub open spec fn signum(self) -> int {
        sign_of(self.num) * sign_of(self.den)
    }

    /// The same value with the sign moved to the numerator, so that the
    /// denominator is positive.
    pub open spec fn positive_form(self) -> Fraction {
        Fraction { num: self.num * sign_of(self.den), den: abs(self.den) as int }
    }

    /// The value of `self` is smaller than that of `other`: with positive
    /// denominators, `a/b < c/d` when `a * d < c * b`.
    pub open spec fn less_than(self, other: Fraction) -> bool {
        let a = self.positive_form();
        let b = other.positive_form();
        a.num * b.den < b.num * a.den
    }

    /// How the value of `self` stands to that of `other`.
    pub open spec fn compare(self, other: Fraction) -> Ordering {
        if self.less_than(other) {
            Ordering::Less
        } else if self.same_value(other) {
            Ordering::Equal
        } else {
            Ordering::Greater
        }
    }

    /// The numerator and the denominator have no common divisor but 1.
    pub open spec fn reduced(self) -> bool {
        coprime(abs(self.num), abs(self.den))
    }

    /// The fraction divided through by the greatest common divisor of its
    /// fields. A fraction with numerator zero is left as it is.
    pub open spec fn lowest_terms(self) -> Fraction {
        if self.num == 0 {
            self
        } else {
            let g = gcd_of(abs(self.num), abs(self.den)) as int;
            Fraction { num: self.num / g, den: self.den / g }
        }
    }

    /// The one representative of the value that is in lowest terms with a
    /// positive denominator; zero is `0/1`.
    pub open spec fn canonical(self) -> Fraction {
        let g = gcd_of(abs(self.num), abs(self.den)) as int;
        let positive = self.positive_form();
        Fraction { num: positive.num / g, den: positive.den / g }
    }

    /// `-(a/b)` is `(-a)/b`.
    pub open spec fn negated(self) -> Fraction {
        Fraction { num: -self.num, den: self.den }
    }

    /// `a/b + c/d` is `(a * d + c * b) / (b * d)`.
    pub open spec fn plus(self, other: Fraction) -> Fraction {
        Fraction {
            num: self.num * other.den + other.num * self.den,
            den: self.den * other.den,
        }
    }

    /// `a/b - c/d` is `a/b + (-c)/d`.
    pub open spec fn minus(self, other: Fraction) -> Fraction {
        self.plus(other.negated())
    }

    /// `a/b * c/d` is `(a * c) / (b * d)`.
    pub open spec fn times(self, other: Fraction) -> Fraction {
        Fraction { num: self.num * other.num, den: self.den * other.den }
    }

    /// `(a/b) / (c/d)` is `(a * d) / (b * c)`.
    pub open spec fn over(self, other: Fraction) -> Fraction {
        Fraction { num: self.num * other.den, den: self.den * other.num }
    }
}

} // verus!
