//! Hashing of rationals.
//!
//! Equal rationals can have different fields, so the fields themselves are
//! not hashed. What is hashed is the canonical form of the value: lowest
//! terms with a positive denominator, which equal rationals share.

use crate::divisors::{gcd, lemma_gcd_divides};
use crate::fraction::sign_of;
use crate::rational::Rational;
use crate::wide::Wide;
use std::hash::{Hash, Hasher};
use vstd::prelude::*;

verus! {

impl Rational {
    /// The numerator and the denominator of the canonical form of the
    /// value: in lowest terms, the denominator positive, zero as `0/1`.
    pub fn canonical(&self) -> (c: (i128, i128))
        ensures
            c.0 == self@.canonical().num,
            c.1 == self@.canonical().den,
    {
        let p: isize = self.numerator();
        let q: isize = self.denominator();
        let n = Wide::from_isize(p);
        let d = Wide::from_isize(q);
        let g: u128 = gcd(n.magnitude, d.magnitude);
        proof {
            lemma_gcd_divides(n.magnitude as nat, d.magnitude as nat);
            assert(p * sign_of(q as int) == if q < 0 {
                -p
            } else {
                p as int
            });
        }
        let upper = Wide { negative: (p < 0) != (q < 0), magnitude: n.magnitude };
        let lower = Wide { negative: false, magnitude: d.magnitude };
        let num = upper.quotient(g);
        let den = lower.quotient(g);
        (num.to_i128(), den.to_i128())
    }
}

/// Feeds one integer to a hasher.
///
/// A wrapper of `std::hash::Hasher::write_i128`. Nothing is claimed of what
/// the hasher makes of it.
#[verifier::external_body]
fn feed<H: Hasher>(state: &mut H, x: i128) {
    state.write_i128(x)
}

impl Hash for Rational {
    /// Feeds the canonical form of the value to the hasher, so that equal
    /// rationals feed it the same.
    fn hash<H: Hasher>(&self, state: &mut H) {
        let (num, den) = self.canonical();
        feed(state, num);
        feed(state, den);
    }
}

} // verus!
