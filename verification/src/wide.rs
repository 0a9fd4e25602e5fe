//! Integers wide enough for the cross products of two fractions.
//!
//! The product of two `isize` values needs up to 126 bits and the sum of two
//! such products up to 128, so a [`Wide`] keeps a sign beside a `u128`
//! magnitude. Its view is the integer it stands for.

use vstd::prelude::*;

verus! {

/// The largest magnitude of an `isize`, that of `isize::MIN`.
pub open spec fn isize_magnitude_limit() -> int {
    isize::MAX + 1
}

/// The absolute value of an integer.
pub open spec fn abs(x: int) -> nat {
    if x < 0 {
        (-x) as nat
    } else {
        x as nat
    }
}

/// A signed integer of up to 128 bits of magnitude.
#[derive(Clone, Copy, Debug)]
pub struct Wide {
    pub negative: bool,
    pub magnitude: u128,
}

impl View for Wide {
    type V = int;

    open spec fn view(&self) -> int {
        if self.negative {
            -(self.magnitude as int)
        } else {
            self.magnitude as int
        }
    }
}

/// The magnitude of `x` as an unsigned number.
pub fn magnitude_of(x: isize) -> (m: u128)
    ensures
        m == abs(x as int),
        m <= isize_magnitude_limit(),
{
    if x < 0 {
        let wide: i128 = x as i128;
        (-wide) as u128
    } else {
        x as u128
    }
}

impl Wide {
    /// The wide integer equal to `x`.
    pub fn from_isize(x: isize) -> (w: Wide)
        ensures
            w@ == x,
            w.magnitude == abs(x as int),
    {
        Wide { negative: x < 0, magnitude: magnitude_of(x) }
    }

    /// The product of two machine integers, which always fits.
    pub fn product(x: isize, y: isize) -> (w: Wide)
        ensures
            w@ == x * y,
            w.magnitude == abs(x * y),
            w.magnitude <= 0x4000_0000_0000_0000_0000_0000_0000_0000,
    {
        let mx: u128 = magnitude_of(x);
        let my: u128 = magnitude_of(y);
        proof {
            let limit: int = isize_magnitude_limit();
            assert(mx * my <= limit * limit) by (nonlinear_arith)
                requires
                    0 <= mx <= limit,
                    0 <= my <= limit,
            ;
            assert(limit * limit <= 0x4000_0000_0000_0000_0000_0000_0000_0000) by (nonlinear_arith)
                requires
                    0 <= limit <= 0x8000_0000_0000_0000,
            ;
            assert(mx as int * my as int == abs(x * y)) by (nonlinear_arith)
                requires
                    mx == abs(x as int),
                    my == abs(y as int),
            ;
            assert((x < 0) != (y < 0) ==> x * y <= 0) by (nonlinear_arith);
            assert((x < 0) == (y < 0) ==> x * y >= 0) by (nonlinear_arith);
        }
        Wide { negative: (x < 0) != (y < 0), magnitude: mx * my }
    }

    /// The sum of two wide integers whose magnitudes together fit in 128 bits.
    pub fn sum(self, other: Wide) -> (w: Wide)
        requires
            self.magnitude + other.magnitude <= u128::MAX,
        ensures
            w@ == self@ + other@,
            w.magnitude == abs(self@ + other@),
    {
        if self.negative == other.negative {
            Wide { negative: self.negative, magnitude: self.magnitude + other.magnitude }
        } else if self.magnitude >= other.magnitude {
            Wide { negative: self.negative, magnitude: self.magnitude - other.magnitude }
        } else {
            Wide { negative: other.negative, magnitude: other.magnitude - self.magnitude }
        }
    }

    /// Whether two wide integers are the same number. Zero has one value,
    /// whatever its sign flag.
    pub fn equals(self, other: Wide) -> (b: bool)
        ensures
            b == (self@ == other@),
    {
        self.magnitude == other.magnitude && (self.magnitude == 0 || self.negative
            == other.negative)
    }

    /// The wide integer of the opposite sign.
    pub fn negated(self) -> (w: Wide)
        ensures
            w@ == -self@,
            w.magnitude == self.magnitude,
    {
        Wide { negative: !self.negative, magnitude: self.magnitude }
    }

    /// The quotient by a divisor of the magnitude, with the sign kept.
    pub fn quotient(self, divisor: u128) -> (w: Wide)
        requires
            divisor > 0,
            self.magnitude % divisor == 0,
        ensures
            w@ * divisor == self@,
            w@ == self@ / (divisor as int),
            w.magnitude == self.magnitude / divisor,
    {
        let w = Wide { negative: self.negative, magnitude: self.magnitude / divisor };
        proof {
            let m: int = self.magnitude as int;
            let d: int = divisor as int;
            vstd::arithmetic::div_mod::lemma_fundamental_div_mod(m, d);
            assert((m / d) * d == m) by (nonlinear_arith)
                requires
                    m == d * (m / d) + m % d,
                    m % d == 0,
            ;
            assert((-(m / d)) * d == -m) by (nonlinear_arith)
                requires
                    (m / d) * d == m,
            ;
            vstd::arithmetic::div_mod::lemma_fundamental_div_mod_converse(w@ * d, d, w@, 0);
        }
        w
    }

    /// This integer as an `i128`, which holds every magnitude below 2^127.
    pub fn to_i128(self) -> (x: i128)
        requires
            self.magnitude <= i128::MAX,
        ensures
            x == self@,
    {
        let magnitude: i128 = self.magnitude as i128;
        if self.negative {
            -magnitude
        } else {
            magnitude
        }
    }

    /// The machine integer equal to this one, if there is one.
    pub fn narrow(self) -> (r: Option<isize>)
        ensures
            r.is_some() <==> isize::MIN <= self@ <= isize::MAX,
            r matches Some(x) ==> x == self@,
    {
        if self.negative {
            if self.magnitude <= magnitude_of(isize::MIN) {
                let signed: i128 = self.magnitude as i128;
                Some((-signed) as isize)
            } else {
                None
            }
        } else {
            if self.magnitude <= magnitude_of(isize::MAX) {
                Some(self.magnitude as isize)
            } else {
                None
            }
        }
    }
}

} // verus!
