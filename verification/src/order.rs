//! Equality and order of rationals.
//!
//! Both go by the values, not by the fields: `1/2`, `2/4` and `-1/-2` are
//! equal. Cross products are computed in 128 bits, so no comparison can
//! overflow.

use crate::order_laws::{lemma_order_from_signs, lemma_trichotomy};
use crate::rational::Rational;
use crate::wide::Wide;
use std::cmp::Ordering;
use vstd::prelude::*;
use vstd::std_specs::cmp::{PartialEqSpecImpl, PartialOrdSpecImpl};

verus! {

impl PartialEq for Rational {
    /// Equality of the values: `a/b == c/d` when `a * d == b * c`.
    fn eq(&self, other: &Rational) -> (b: bool)
        ensures
            b == self@.same_value(other@),
    {
        let left = Wide::product(self.numerator(), other.denominator());
        let right = Wide::product(self.denominator(), other.numerator());
        left.equals(right)
    }
}

impl PartialEqSpecImpl for Rational {
    open spec fn obeys_eq_spec() -> bool {
        true
    }

    open spec fn eq_spec(&self, other: &Rational) -> bool {
        self@.same_value(other@)
    }
}

impl Eq for Rational {

}

impl Rational {
    /// How the value of `self` stands to that of `other`.
    ///
    /// The signs decide where they differ. Of two values of one sign, the
    /// magnitudes of the cross products decide, in reverse for negative
    /// values. Two zeros are equal whatever their denominators.
    pub fn cmp(&self, other: &Rational) -> (o: Ordering)
        ensures
            o == self@.compare(other@),
    {
        let s: isize = self.signum();
        let t: isize = other.signum();
        let left = Wide::product(self.numerator(), other.denominator());
        let right = Wide::product(other.numerator(), self.denominator());
        proof {
            lemma_order_from_signs(self@, other@);
            lemma_trichotomy(self@, other@);
        }
        if s < t {
            Ordering::Less
        } else if s > t {
            Ordering::Greater
        } else if s == 0 {
            Ordering::Equal
        } else {
            let by_size = if left.magnitude < right.magnitude {
                Ordering::Less
            } else if left.magnitude == right.magnitude {
                Ordering::Equal
            } else {
                Ordering::Greater
            };
            if s < 0 {
                reverse(by_size)
            } else {
                by_size
            }
        }
    }
}

/// The opposite order.
pub fn reverse(o: Ordering) -> (r: Ordering)
    ensures
        r == match o {
            Ordering::Less => Ordering::Greater,
            Ordering::Equal => Ordering::Equal,
            Ordering::Greater => Ordering::Less,
        },
{
    match o {
        Ordering::Less => Ordering::Greater,
        Ordering::Equal => Ordering::Equal,
        Ordering::Greater => Ordering::Less,
    }
}

impl PartialOrd for Rational {
    /// The order of the values; two rationals always compare.
    fn partial_cmp(&self, other: &Rational) -> (o: Option<Ordering>)
        ensures
            o == Some(self@.compare(other@)),
    {
        Some(self.cmp(other))
    }
}

impl PartialOrdSpecImpl for Rational {
    open spec fn obeys_partial_cmp_spec() -> bool {
        true
    }

    open spec fn partial_cmp_spec(&self, other: &Rational) -> Option<Ordering> {
        Some(self@.compare(other@))
    }
}

} // verus!
