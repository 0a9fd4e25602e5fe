//! Greatest common divisors of natural numbers.
//!
//! [`gcd_of`] is the mathematical function; the lemmas characterise it as the
//! greatest of the common divisors, and [`gcd`] computes it.

use vstd::arithmetic::div_mod::{
    lemma_fundamental_div_mod, lemma_mod_multiples_basic, lemma_mod_self_0, lemma_small_mod,
    lemma_truncate_middle,
};
use vstd::prelude::*;

verus! {

/// The greatest common divisor of `a` and `b`; `gcd_of(0, 0)` is `0`.
pub open spec fn gcd_of(a: nat, b: nat) -> nat
    decreases a,
{
    if a == 0 {
        b
    } else {
        gcd_of(b % a, a)
    }
}

/// `a` and `b` have no common divisor but 1.
pub open spec fn coprime(a: nat, b: nat) -> bool {
    gcd_of(a, b) == 1
}

/// A number that `d` divides is `d` times its quotient by `d`.
pub proof fn lemma_divisible_is_multiple(n: int, d: int)
    requires
        d > 0,
        n % d == 0,
    ensures
        n == d * (n / d),
{
    lemma_fundamental_div_mod(n, d);
}

/// `d` divides each of its multiples.
pub proof fn lemma_multiple_is_divisible(k: int, d: int)
    requires
        d > 0,
    ensures
        (d * k) % d == 0,
        (k * d) % d == 0,
{
    lemma_mod_multiples_basic(k, d);
    assert(d * k == k * d) by (nonlinear_arith);
}

/// A divisor of `x` and of `y` divides `x * k + y`.
pub proof fn lemma_divides_combination(d: int, x: int, y: int, k: int)
    requires
        d > 0,
        x % d == 0,
        y % d == 0,
    ensures
        (x * k + y) % d == 0,
{
    lemma_divisible_is_multiple(x, d);
    lemma_divisible_is_multiple(y, d);
    let xq: int = x / d;
    let yq: int = y / d;
    assert(x * k + y == d * (xq * k + yq)) by (nonlinear_arith)
        requires
            x == d * xq,
            y == d * yq,
    ;
    lemma_multiple_is_divisible(xq * k + yq, d);
}

/// A positive divisor of a positive number is no larger than it.
pub proof fn lemma_divisor_is_bounded(d: int, n: int)
    requires
        d > 0,
        n > 0,
        n % d == 0,
    ensures
        d <= n,
{
    lemma_divisible_is_multiple(n, d);
    let q: int = n / d;
    assert(d <= n) by (nonlinear_arith)
        requires
            n == d * q,
            d > 0,
            n > 0,
    ;
}

/// The greatest common divisor divides both numbers.
pub proof fn lemma_gcd_divides(a: nat, b: nat)
    requires
        a > 0 || b > 0,
    ensures
        gcd_of(a, b) > 0,
        a % gcd_of(a, b) == 0,
        b % gcd_of(a, b) == 0,
    decreases a,
{
    if a == 0 {
        lemma_mod_self_0(b as int);
        lemma_small_mod(0, b);
    } else {
        let r: nat = b % a;
        lemma_gcd_divides(r, a);
        let g: int = gcd_of(r, a) as int;
        lemma_fundamental_div_mod(b as int, a as int);
        lemma_divides_combination(g, a as int, r as int, b as int / a as int);
    }
}

/// Every common divisor divides the greatest common divisor.
pub proof fn lemma_gcd_greatest(a: nat, b: nat, d: nat)
    requires
        d > 0,
        a % d == 0,
        b % d == 0,
    ensures
        gcd_of(a, b) % d == 0,
    decreases a,
{
    if a != 0 {
        let r: nat = b % a;
        lemma_fundamental_div_mod(b as int, a as int);
        lemma_divides_combination(d as int, a as int, b as int, -(b as int / a as int));
        assert(a as int * (-(b as int / a as int)) + b as int == r as int) by (nonlinear_arith)
            requires
                b as int == a as int * (b as int / a as int) + r as int,
        ;
        lemma_gcd_greatest(r, a, d);
    }
}

/// No common divisor is larger than the greatest common divisor.
pub proof fn lemma_gcd_is_largest(a: nat, b: nat, d: nat)
    requires
        a > 0 || b > 0,
        d > 0,
        a % d == 0,
        b % d == 0,
    ensures
        d <= gcd_of(a, b),
{
    lemma_gcd_divides(a, b);
    lemma_gcd_greatest(a, b, d);
    lemma_divisor_is_bounded(d as int, gcd_of(a, b) as int);
}

/// A common divisor that every common divisor divides is the greatest one.
pub proof fn lemma_gcd_unique(a: nat, b: nat, g: nat)
    requires
        a > 0 || b > 0,
        g > 0,
        a % g == 0,
        b % g == 0,
        g % gcd_of(a, b) == 0,
    ensures
        g == gcd_of(a, b),
{
    lemma_gcd_divides(a, b);
    lemma_gcd_greatest(a, b, g);
    lemma_divisor_is_bounded(g as int, gcd_of(a, b) as int);
    lemma_divisor_is_bounded(gcd_of(a, b) as int, g as int);
}

/// The greatest common divisor does not depend on the order of the numbers.
pub proof fn lemma_gcd_symmetric(a: nat, b: nat)
    ensures
        gcd_of(a, b) == gcd_of(b, a),
{
    if a == 0 && b == 0 {
    } else {
        lemma_gcd_divides(a, b);
        lemma_gcd_divides(b, a);
        lemma_gcd_greatest(b, a, gcd_of(a, b));
        lemma_gcd_unique(a, b, gcd_of(b, a));
    }
}

/// A common factor of both numbers is a factor of their greatest common divisor.
pub proof fn lemma_gcd_scales(k: nat, a: nat, b: nat)
    requires
        k > 0,
    ensures
        gcd_of(k * a, k * b) == k * gcd_of(a, b),
    decreases a,
{
    if a == 0 {
        assert(k * a == 0) by (nonlinear_arith)
            requires
                a == 0,
        ;
    } else {
        assert(k * a > 0) by (nonlinear_arith)
            requires
                k > 0,
                a > 0,
        ;
        lemma_truncate_middle(b as int, k as int, a as int);
        assert((k * b) % (k * a) == k * (b % a));
        lemma_gcd_scales(k, b % a, a);
    }
}

/// Halving one number does not change the greatest common divisor when the
/// other number is odd.
pub proof fn lemma_gcd_drops_two(a: nat, b: nat)
    requires
        b % 2 == 1,
    ensures
        gcd_of(2 * a, b) == gcd_of(a, b),
{
    let g: nat = gcd_of(2 * a, b);
    let h: nat = gcd_of(a, b);
    lemma_gcd_divides(2 * a, b);
    lemma_gcd_divides(a, b);
    // g is odd, because it divides the odd number b
    lemma_divisible_is_multiple(b as int, g as int);
    let t: int = b as int / g as int;
    let gh: int = g as int / 2;
    if g % 2 == 0 {
        assert(b as int == 2 * (gh * t)) by (nonlinear_arith)
            requires
                b as int == g as int * t,
                g as int == 2 * gh,
        ;
    }
    // an odd divisor of 2 * a divides a
    lemma_divisible_is_multiple(2 * a as int, g as int);
    let u: int = (2 * a) as int / g as int;
    let uh: int = u / 2;
    if u % 2 == 1 {
        assert(2 * a as int == 2 * (2 * gh * uh + gh + uh) + 1) by (nonlinear_arith)
            requires
                2 * a as int == g as int * u,
                g as int == 2 * gh + 1,
                u == 2 * uh + 1,
        ;
    }
    assert(a as int == uh * g as int) by (nonlinear_arith)
        requires
            2 * a as int == g as int * u,
            u == 2 * uh,
    ;
    lemma_multiple_is_divisible(u / 2, g as int);
    lemma_gcd_greatest(a, b, g);
    // h divides 2 * a
    lemma_small_mod(0, h);
    lemma_divides_combination(h as int, a as int, 0, 2);
    assert(a as int * 2 + 0 == (2 * a) as int);
    lemma_gcd_greatest(2 * a, b, h);
    lemma_gcd_unique(a, b, g);
}

/// The greatest common divisor of a number and 1 is 1.
pub proof fn lemma_gcd_with_one(a: nat)
    ensures
        gcd_of(1, a) == 1,
        gcd_of(a, 1) == 1,
{
    assert(gcd_of(1, a) == gcd_of(a % 1, 1));
    assert(gcd_of(0, 1) == 1);
    lemma_gcd_symmetric(a, 1);
}

/// A number that is coprime to one factor of a product it divides, divides
/// the other factor.
pub proof fn lemma_coprime_divides_other_factor(m: nat, x: nat, y: nat)
    requires
        m > 0,
        coprime(m, x),
        (x * y) % m == 0,
    ensures
        y % m == 0,
{
    if y == 0 {
        lemma_small_mod(0, m);
    } else {
        lemma_gcd_scales(y, m, x);
        lemma_multiple_is_divisible(y as int, m as int);
        assert(y * x == x * y) by (nonlinear_arith);
        assert(y * 1 == y);
        lemma_gcd_greatest(y * m, y * x, m);
    }
}

/// Dividing an integer by a positive divisor of its magnitude is exact, and
/// divides the magnitude.
pub proof fn lemma_exact_quotient(x: int, g: int)
    requires
        g > 0,
        (if x < 0 {
            -x
        } else {
            x
        }) % g == 0,
    ensures
        x == g * (x / g),
        x % g == 0,
        x >= 0 ==> x / g >= 0,
        x <= 0 ==> x / g <= 0,
        x != 0 ==> x / g != 0,
        (if x / g < 0 {
            -(x / g)
        } else {
            x / g
        }) == (if x < 0 {
            -x
        } else {
            x
        }) / g,
{
    let a: int = if x < 0 {
        -x
    } else {
        x
    };
    lemma_divisible_is_multiple(a, g);
    let q: int = a / g;
    assert(q >= 0) by (nonlinear_arith)
        requires
            a == g * q,
            a >= 0,
            g > 0,
    ;
    if x < 0 {
        assert(x == (-q) * g + 0) by (nonlinear_arith)
            requires
                -x == g * q,
        ;
        vstd::arithmetic::div_mod::lemma_fundamental_div_mod_converse(x, g, -q, 0);
        assert(q != 0) by (nonlinear_arith)
            requires
                -x == g * q,
                x < 0,
        ;
    } else {
        assert(x != 0 ==> q != 0) by (nonlinear_arith)
            requires
                x == g * q,
        ;
    }
}

/// The greatest common divisor of `a` and `b`.
///
/// Common factors of two are taken out first and kept in a multiplier,
/// each number is then made odd, and Euclid's algorithm by remainders
/// finishes the work. Zero is the neutral element: `gcd(0, b)` is `b`.
pub fn gcd(a: u128, b: u128) -> (g: u128)
    ensures
        g == gcd_of(a as nat, b as nat),
{
    if a == 0 {
        return b;
    }
    if b == 0 {
        proof {
            lemma_gcd_symmetric(a as nat, b as nat);
        }
        return a;
    }
    let smaller: u128 = if a < b { a } else { b };
    if smaller == 1 {
        proof {
            lemma_gcd_with_one(a as nat);
            lemma_gcd_with_one(b as nat);
        }
        return 1;
    }
    let ghost a0: nat = a as nat;
    let ghost b0: nat = b as nat;
    let mut a: u128 = a;
    let mut b: u128 = b;
    let mut d: u128 = 1;
    while a % 2 == 0 && b % 2 == 0
        invariant
            a > 0,
            b > 0,
            d > 0,
            d * a == a0,
            d * b == b0,
            a0 <= u128::MAX,
            gcd_of(a0, b0) == d * gcd_of(a as nat, b as nat),
        decreases a,
    {
        proof {
            let ha: nat = (a / 2) as nat;
            let hb: nat = (b / 2) as nat;
            lemma_gcd_scales(2, ha, hb);
            assert((2 * d) * ha == a0 && (2 * d) * hb == b0 && d * (2 * gcd_of(ha, hb)) == (2 * d)
                * gcd_of(ha, hb)) by (nonlinear_arith)
                requires
                    d * a == a0,
                    d * b == b0,
                    a == 2 * ha,
                    b == 2 * hb,
            ;
            assert(2 * d <= a0) by (nonlinear_arith)
                requires
                    (2 * d) * ha == a0,
                    ha > 0,
            ;
        }
        a = a / 2;
        b = b / 2;
        d = d * 2;
    }
    while a % 2 == 0
        invariant
            a > 0,
            b > 0,
            a % 2 == 1 || b % 2 == 1,
            gcd_of(a0, b0) == d * gcd_of(a as nat, b as nat),
        decreases a,
    {
        proof {
            lemma_gcd_drops_two((a / 2) as nat, b as nat);
        }
        a = a / 2;
    }
    while b % 2 == 0
        invariant
            a > 0,
            b > 0,
            a % 2 == 1,
            gcd_of(a0, b0) == d * gcd_of(a as nat, b as nat),
        decreases b,
    {
        proof {
            lemma_gcd_drops_two((b / 2) as nat, a as nat);
            lemma_gcd_symmetric((b / 2) as nat, a as nat);
            lemma_gcd_symmetric(b as nat, a as nat);
        }
        b = b / 2;
    }
    while a != 0 && b != 0
        invariant
            gcd_of(a0, b0) == d * gcd_of(a as nat, b as nat),
        decreases a + b,
    {
        if a > b {
            proof {
                lemma_gcd_symmetric(a as nat, b as nat);
                assert(gcd_of(b as nat, a as nat) == gcd_of((a % b) as nat, b as nat));
            }
            a = a % b;
        } else {
            proof {
                assert(gcd_of(a as nat, b as nat) == gcd_of((b % a) as nat, a as nat));
                lemma_gcd_symmetric((b % a) as nat, a as nat);
            }
            b = b % a;
        }
    }
    proof {
        lemma_gcd_symmetric(a as nat, b as nat);
        assert(gcd_of(a as nat, b as nat) == a + b);
        lemma_gcd_divides(a0, b0);
        lemma_divisor_is_bounded(gcd_of(a0, b0) as int, a0 as int);
        assert((a + b) * d == d * (a + b)) by (nonlinear_arith);
    }
    (a + b) * d
}

} // verus!
