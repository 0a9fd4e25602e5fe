//! The rational number type and its constructors.

use crate::divisors::{gcd, gcd_of, lemma_gcd_divides};
use crate::error::RationalError;
use crate::fraction::{sign_of, Fraction};
use crate::laws::{lemma_lowest_terms_is_reduced, lemma_lowest_terms_keeps_value};
use crate::wide::{abs, Wide};
use vstd::prelude::*;
use vstd::std_specs::convert::FromSpecImpl;

verus! {

/// An exact rational number: a fraction of two machine integers whose
/// denominator is never zero.
///
/// The sign may sit on either field, and a value built by
/// [`Rational::new_unchecked`] need not be in lowest terms, so two rationals
/// with different fields can be equal. The view of a rational is the
/// [`Fraction`] of its two fields.
#[derive(Clone, Copy, Debug)]
pub struct Rational {
    p: isize,
    q: isize,
}

impl View for Rational {
    type V = Fraction;

    closed spec fn view(&self) -> Fraction {
        Fraction { num: self.p as int, den: self.q as int }
    }
}

impl Rational {
    #[verifier::type_invariant]
    spec fn denominator_is_not_zero(self) -> bool {
        self.q != 0
    }

    /// The rational whose fields are those of `f`.
    pub closed spec fn with_fields(f: Fraction) -> Rational {
        Rational { p: f.num as isize, q: f.den as isize }
    }

    /// What an operation returns whose exact result is `f`: the rational with
    /// the fields of `f`, or an overflow where a field does not fit.
    pub open spec fn checked(f: Fraction) -> Result<Rational, RationalError> {
        if f.fits() {
            Ok(Rational::with_fields(f))
        } else {
            Err(RationalError::Overflow)
        }
    }

    /// What `checked(f)` is: a rational with view `f` where `f` fits, and an
    /// overflow where it does not.
    pub proof fn lemma_checked(f: Fraction)
        ensures
            match Rational::checked(f) {
                Ok(v) => f.fits() && v@ == f,
                Err(e) => !f.fits() && e == RationalError::Overflow,
            },
    {
    }

    /// A rational is determined by its view.
    pub proof fn lemma_view_determines(self, other: Rational)
        ensures
            self@.fits(),
            self == Rational::with_fields(self@),
            self@ == other@ ==> self == other,
    {
    }

    /// The fraction `n / d` with its fields as given, or an overflow if a
    /// field does not fit.
    pub fn from_wide_unchecked(n: Wide, d: Wide) -> (r: Result<Rational, RationalError>)
        requires
            d@ != 0,
        ensures
            r == Rational::checked(Fraction { num: n@, den: d@ }),
    {
        match (n.narrow(), d.narrow()) {
            (Some(p), Some(q)) => Ok(Rational { p, q }),
            _ => Err(RationalError::Overflow),
        }
    }

    /// The fraction `n / d` in lowest terms, or an overflow if a field of it
    /// does not fit.
    pub fn from_wide(n: Wide, d: Wide) -> (r: Result<Rational, RationalError>)
        requires
            d@ != 0,
        ensures
            r == Rational::checked((Fraction { num: n@, den: d@ }).lowest_terms()),
    {
        if n.magnitude == 0 {
            return Rational::from_wide_unchecked(n, d);
        }
        let g: u128 = gcd(n.magnitude, d.magnitude);
        proof {
            lemma_gcd_divides(n.magnitude as nat, d.magnitude as nat);
        }
        let rn = n.quotient(g);
        let rd = d.quotient(g);
        assert(rd@ != 0) by (nonlinear_arith)
            requires
                rd@ * g == d@,
                d@ != 0,
        ;
        Rational::from_wide_unchecked(rn, rd)
    }

    /// The fraction `p / q` in lowest terms.
    ///
    /// Both fields are divided by their greatest common divisor, each keeping
    /// its sign, so that they have no common divisor but 1. A numerator of
    /// zero is kept with the denominator as given. A denominator of zero is
    /// an error.
    pub fn new(p: isize, q: isize) -> (r: Result<Rational, RationalError>)
        ensures
            match r {
                Ok(v) => {
                    &&& q != 0
                    &&& v@ == (Fraction { num: p as int, den: q as int }).lowest_terms()
                    &&& v@.same_value(Fraction { num: p as int, den: q as int })
                    &&& p != 0 ==> v@.reduced()
                },
                Err(e) => q == 0 && e == RationalError::InvalidDenominator,
            },
    {
        if q == 0 {
            return Err(RationalError::InvalidDenominator);
        }
        proof {
            let f = Fraction { num: p as int, den: q as int };
            lemma_lowest_terms_fits(f);
            lemma_lowest_terms_keeps_value(f);
            if p != 0 {
                lemma_lowest_terms_is_reduced(f);
            }
        }
        Rational::from_wide(Wide::from_isize(p), Wide::from_isize(q))
    }

    /// The fraction `p / q` as given, without reduction.
    ///
    /// For callers that know `p` and `q` to be in lowest terms already. A
    /// denominator of zero is an error.
    pub fn new_unchecked(p: isize, q: isize) -> (r: Result<Rational, RationalError>)
        ensures
            match r {
                Ok(v) => q != 0 && v@ == (Fraction { num: p as int, den: q as int }),
                Err(e) => q == 0 && e == RationalError::InvalidDenominator,
            },
    {
        if q == 0 {
            Err(RationalError::InvalidDenominator)
        } else {
            Ok(Rational { p, q })
        }
    }

    /// Brings the fraction to lowest terms in place. The value stays.
    pub fn reduce(&mut self)
        ensures
            final(self)@ == old(self)@.lowest_terms(),
            final(self)@.same_value(old(self)@),
    {
        proof {
            use_type_invariant(&*self);
            lemma_lowest_terms_fits(self@);
            lemma_lowest_terms_keeps_value(self@);
        }
        match Rational::from_wide(Wide::from_isize(self.p), Wide::from_isize(self.q)) {
            Ok(reduced) => {
                *self = reduced;
            },
            Err(_) => {},
        }
    }

    /// The rational equal to the integer `n`: `n / 1`.
    pub fn from_integer(n: isize) -> (r: Rational)
        ensures
            r@ == Fraction::integer(n as int),
    {
        Rational { p: n, q: 1 }
    }

    /// The sign of the value: -1, 0 or 1.
    pub fn signum(&self) -> (s: isize)
        ensures
            s == self@.signum(),
    {
        sign(self.p) * sign(self.q)
    }

    /// The numerator. Its sign is that of the value only together with the
    /// sign of the denominator.
    pub fn numerator(&self) -> (p: isize)
        ensures
            p == self@.num,
    {
        self.p
    }

    /// The denominator, which is never zero.
    pub fn denominator(&self) -> (q: isize)
        ensures
            q == self@.den,
            q != 0,
    {
        proof {
            use_type_invariant(self);
        }
        self.q
    }
}

impl From<isize> for Rational {
    /// The rational equal to the integer `n`.
    fn from(n: isize) -> (r: Rational)
        ensures
            r@ == Fraction::integer(n as int),
    {
        Rational::from_integer(n)
    }
}

impl FromSpecImpl<isize> for Rational {
    open spec fn obeys_from_spec() -> bool {
        true
    }

    open spec fn from_spec(n: isize) -> Rational {
        Rational::with_fields(Fraction::integer(n as int))
    }
}

/// The sign of a machine integer: -1, 0 or 1.
pub fn sign(x: isize) -> (s: isize)
    ensures
        s == sign_of(x as int),
{
    if x < 0 {
        -1
    } else if x == 0 {
        0
    } else {
        1
    }
}

/// The lowest terms of a fraction that fits fit as well.
pub proof fn lemma_lowest_terms_fits(f: Fraction)
    requires
        f.valid(),
        f.fits(),
    ensures
        f.lowest_terms().fits(),
{
    if f.num != 0 {
        let g: int = gcd_of(abs(f.num), abs(f.den)) as int;
        lemma_gcd_divides(abs(f.num), abs(f.den));
        lemma_quotient_is_bounded(f.num, g);
        lemma_quotient_is_bounded(f.den, g);
    }
}

/// Dividing by a positive number moves an integer no further from zero.
pub proof fn lemma_quotient_is_bounded(x: int, g: int)
    requires
        g > 0,
    ensures
        x >= 0 ==> 0 <= x / g <= x,
        x < 0 ==> x <= x / g < 0,
{
    vstd::arithmetic::div_mod::lemma_fundamental_div_mod(x, g);
    let q: int = x / g;
    let r: int = x % g;
    assert(0 <= r < g) by {
        vstd::arithmetic::div_mod::lemma_mod_bound(x, g);
    }
    assert(x >= 0 ==> 0 <= q <= x) by (nonlinear_arith)
        requires
            x == g * q + r,
            0 <= r < g,
            g > 0,
    ;
    assert(x < 0 ==> x <= q < 0) by (nonlinear_arith)
        requires
            x == g * q + r,
            0 <= r < g,
            g > 0,
    ;
}

} // verus!
