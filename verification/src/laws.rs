//! Laws of fractions: what reduction, arithmetic and the canonical form do
//! to the value.
//!
//! All laws are stated over [`Fraction`], the model in which the results of
//! the operations on rationals are stated, so they hold of every result
//! that fits.

use crate::divisors::{
    gcd_of, lemma_coprime_divides_other_factor, lemma_divisor_is_bounded, lemma_exact_quotient,
    lemma_gcd_divides, lemma_gcd_scales, lemma_gcd_symmetric,
};
use crate::fraction::Fraction;
use crate::order_laws::{
    lemma_positive_form, lemma_same_value_symmetric, lemma_same_value_transitive,
};
use crate::wide::abs;
use vstd::prelude::*;

verus! {

/// The lowest terms of a valid fraction are valid and have its value.
pub proof fn lemma_lowest_terms_keeps_value(f: Fraction)
    requires
        f.valid(),
    ensures
        f.lowest_terms().valid(),
        f.lowest_terms().same_value(f),
        f.same_value(f.lowest_terms()),
{
    if f.num == 0 {
        assert(f.num * f.den == f.den * f.num) by (nonlinear_arith);
    } else {
        let g: int = gcd_of(abs(f.num), abs(f.den)) as int;
        lemma_gcd_divides(abs(f.num), abs(f.den));
        lemma_exact_quotient(f.num, g);
        lemma_exact_quotient(f.den, g);
        let n: int = f.num / g;
        let d: int = f.den / g;
        assert(n * f.den == d * f.num && f.num * d == f.den * n) by (nonlinear_arith)
            requires
                f.num == g * n,
                f.den == g * d,
        ;
    }
}

/// The lowest terms of a valid fraction with a numerator other than zero
/// are reduced: numerator and denominator have no common divisor but 1.
pub proof fn lemma_lowest_terms_is_reduced(f: Fraction)
    requires
        f.valid(),
        f.num != 0,
    ensures
        f.lowest_terms().reduced(),
{
    let a: nat = abs(f.num);
    let b: nat = abs(f.den);
    let g: nat = gcd_of(a, b);
    lemma_gcd_divides(a, b);
    lemma_exact_quotient(f.num, g as int);
    lemma_exact_quotient(f.den, g as int);
    let x: nat = a / g;
    let y: nat = b / g;
    assert(abs(f.lowest_terms().num) == x);
    assert(abs(f.lowest_terms().den) == y);
    vstd::arithmetic::div_mod::lemma_fundamental_div_mod(a as int, g as int);
    vstd::arithmetic::div_mod::lemma_fundamental_div_mod(b as int, g as int);
    lemma_gcd_scales(g, x, y);
    assert(gcd_of(x, y) == 1) by (nonlinear_arith)
        requires
            g == g * gcd_of(x, y),
            g > 0,
    ;
}

/// The lowest terms of the opposite are the opposite of the lowest terms.
pub proof fn lemma_lowest_terms_of_negated(f: Fraction)
    requires
        f.valid(),
    ensures
        f.negated().lowest_terms() == f.lowest_terms().negated(),
{
    if f.num != 0 {
        let g: int = gcd_of(abs(f.num), abs(f.den)) as int;
        lemma_gcd_divides(abs(f.num), abs(f.den));
        lemma_exact_quotient(f.num, g);
        lemma_exact_quotient(-f.num, g);
        assert((-f.num) / g == -(f.num / g)) by (nonlinear_arith)
            requires
                f.num == g * (f.num / g),
                -f.num == g * ((-f.num) / g),
                g > 0,
        ;
    }
}

/// A common factor of numerator and denominator does not change the value.
pub proof fn lemma_common_factor_keeps_value(p: int, q: int, k: int)
    requires
        q != 0,
        k != 0,
    ensures
        (Fraction { num: p, den: q }).same_value(Fraction { num: p * k, den: q * k }),
        (Fraction { num: p * k, den: q * k }).valid(),
{
    assert(p * (q * k) == q * (p * k)) by (nonlinear_arith);
    assert(q * k != 0) by (nonlinear_arith)
        requires
            q != 0,
            k != 0,
    ;
}

/// Reduced to lowest terms, `p / q` and `(p * k) / (q * k)` have the same
/// value, for every `k` other than zero.
pub proof fn lemma_lowest_terms_cancels_factor(p: int, q: int, k: int)
    requires
        q != 0,
        k != 0,
    ensures
        (Fraction { num: p, den: q }).lowest_terms().same_value(
            (Fraction { num: p * k, den: q * k }).lowest_terms(),
        ),
{
    let f = Fraction { num: p, den: q };
    let h = Fraction { num: p * k, den: q * k };
    lemma_common_factor_keeps_value(p, q, k);
    lemma_lowest_terms_keeps_value(f);
    lemma_lowest_terms_keeps_value(h);
    lemma_same_value_transitive(f.lowest_terms(), f, h);
    lemma_same_value_transitive(f.lowest_terms(), h, h.lowest_terms());
}

/// Reduced to lowest terms, `p / q` and `(-p) / (-q)` have the same value.
pub proof fn lemma_lowest_terms_ignores_sign_flip(p: int, q: int)
    requires
        q != 0,
    ensures
        (Fraction { num: p, den: q }).lowest_terms().same_value(
            (Fraction { num: -p, den: -q }).lowest_terms(),
        ),
{
    lemma_lowest_terms_cancels_factor(p, q, -1);
    assert(p * (-1) == -p && q * (-1) == -q);
}

/// The sum does not depend on the order of its terms.
pub proof fn lemma_plus_commutes(a: Fraction, b: Fraction)
    ensures
        a.plus(b) == b.plus(a),
{
    assert(a.den * b.den == b.den * a.den) by (nonlinear_arith);
}

/// The product does not depend on the order of its factors.
pub proof fn lemma_times_commutes(a: Fraction, b: Fraction)
    ensures
        a.times(b) == b.times(a),
{
    assert(a.num * b.num == b.num * a.num) by (nonlinear_arith);
    assert(a.den * b.den == b.den * a.den) by (nonlinear_arith);
}

/// Sums of fractions of the same values have the same value.
pub proof fn lemma_plus_respects_value(a: Fraction, b: Fraction, c: Fraction, d: Fraction)
    requires
        a.same_value(c),
        b.same_value(d),
    ensures
        a.plus(b).same_value(c.plus(d)),
{
    let (an, ad, bn, bd) = (a.num, a.den, b.num, b.den);
    let (cn, cd, dn, dd) = (c.num, c.den, d.num, d.den);
    assert((an * bd) * (cd * dd) == (an * cd) * (bd * dd)) by (nonlinear_arith);
    assert((bn * ad) * (cd * dd) == (bn * dd) * (ad * cd)) by (nonlinear_arith);
    assert((ad * bd) * (cn * dd) == (ad * cn) * (bd * dd)) by (nonlinear_arith);
    assert((ad * bd) * (dn * cd) == (bd * dn) * (ad * cd)) by (nonlinear_arith);
    vstd::arithmetic::mul::lemma_mul_is_distributive_add_other_way(cd * dd, an * bd, bn * ad);
    vstd::arithmetic::mul::lemma_mul_is_distributive_add(ad * bd, cn * dd, dn * cd);
}

/// Products of fractions of the same values have the same value.
pub proof fn lemma_times_respects_value(a: Fraction, b: Fraction, c: Fraction, d: Fraction)
    requires
        a.same_value(c),
        b.same_value(d),
    ensures
        a.times(b).same_value(c.times(d)),
{
    let (an, ad, bn, bd) = (a.num, a.den, b.num, b.den);
    let (cn, cd, dn, dd) = (c.num, c.den, d.num, d.den);
    assert((an * bn) * (cd * dd) == (an * cd) * (bn * dd)) by (nonlinear_arith);
    assert((ad * bd) * (cn * dn) == (ad * cn) * (bd * dn)) by (nonlinear_arith);
}

/// The sum and the product of valid fractions are valid.
pub proof fn lemma_results_are_valid(a: Fraction, b: Fraction)
    requires
        a.valid(),
        b.valid(),
    ensures
        a.plus(b).valid(),
        a.minus(b).valid(),
        a.times(b).valid(),
        a.negated().valid(),
{
    assert(a.den * b.den != 0) by (nonlinear_arith)
        requires
            a.den != 0,
            b.den != 0,
    ;
}

/// `a - b` is the opposite of `b - a`, also in lowest terms.
pub proof fn lemma_minus_is_antisymmetric(a: Fraction, b: Fraction)
    requires
        a.valid(),
        b.valid(),
    ensures
        a.minus(b) == b.minus(a).negated(),
        a.minus(b).lowest_terms() == b.minus(a).lowest_terms().negated(),
{
    assert(a.num * b.den + (-b.num) * a.den == -(b.num * a.den + (-a.num) * b.den))
        by (nonlinear_arith);
    assert(a.den * b.den == b.den * a.den) by (nonlinear_arith);
    assert(b.den * a.den != 0) by (nonlinear_arith)
        requires
            a.den != 0,
            b.den != 0,
    ;
    lemma_lowest_terms_of_negated(b.minus(a));
}

/// The sum of a fraction and its opposite is zero, also in lowest terms.
pub proof fn lemma_plus_negated_is_zero(a: Fraction)
    requires
        a.valid(),
    ensures
        a.plus(a.negated()).is_zero(),
        a.plus(a.negated()).lowest_terms().is_zero(),
        a.plus(a.negated()).valid(),
{
    assert(a.num * a.den + (-a.num) * a.den == 0) by (nonlinear_arith);
    assert(a.den * a.den != 0) by (nonlinear_arith)
        requires
            a.den != 0,
    ;
}

/// Multiplying by one changes nothing.
pub proof fn lemma_times_one(a: Fraction)
    ensures
        a.times(Fraction::integer(1)) == a,
{
}

/// The quotient by a fraction other than zero is valid, and fractions of
/// the same value have quotients of the same value.
pub proof fn lemma_over_respects_value(a: Fraction, c: Fraction, b: Fraction)
    requires
        a.valid(),
        c.valid(),
        b.valid(),
        !b.is_zero(),
        a.same_value(c),
    ensures
        a.over(b).valid(),
        c.over(b).valid(),
        a.over(b).same_value(c.over(b)),
{
    assert(b.num != 0);
    assert(a.den * b.num != 0 && c.den * b.num != 0) by (nonlinear_arith)
        requires
            a.den != 0,
            c.den != 0,
            b.num != 0,
    ;
    assert((a.num * b.den) * (c.den * b.num) == (a.den * b.num) * (c.num * b.den))
        by (nonlinear_arith)
        requires
            a.num * c.den == a.den * c.num,
    ;
}

/// Dividing `a` by `b` and dividing `a` times one by `b` give the same
/// value, where each step is brought to lowest terms.
pub proof fn lemma_over_after_times_one(a: Fraction, b: Fraction)
    requires
        a.valid(),
        b.valid(),
        !b.is_zero(),
    ensures
        a.times(Fraction::integer(1)).lowest_terms().over(b).lowest_terms().same_value(
            a.over(b).lowest_terms(),
        ),
{
    let one = Fraction::integer(1);
    lemma_times_one(a);
    let reduced = a.times(one).lowest_terms();
    lemma_lowest_terms_keeps_value(a);
    lemma_over_respects_value(reduced, a, b);
    lemma_lowest_terms_keeps_value(reduced.over(b));
    lemma_lowest_terms_keeps_value(a.over(b));
    lemma_same_value_transitive(reduced.over(b).lowest_terms(), reduced.over(b), a.over(b));
    lemma_same_value_transitive(
        reduced.over(b).lowest_terms(),
        a.over(b),
        a.over(b).lowest_terms(),
    );
}

/// The canonical form of a valid fraction has its value, a positive
/// denominator, and no common divisor of numerator and denominator but 1.
pub proof fn lemma_canonical_form(f: Fraction)
    requires
        f.valid(),
    ensures
        f.canonical().den > 0,
        f.canonical().same_value(f),
        f.canonical().reduced(),
{
    lemma_positive_form(f);
    let u = f.positive_form();
    let a: nat = abs(u.num);
    let b: nat = abs(u.den);
    let g: nat = gcd_of(a, b);
    lemma_gcd_divides(a, b);
    lemma_exact_quotient(u.num, g as int);
    lemma_exact_quotient(u.den, g as int);
    let n: int = u.num / (g as int);
    let d: int = u.den / (g as int);
    assert(d > 0);
    assert(n * u.den == d * u.num) by (nonlinear_arith)
        requires
            u.num == g * n,
            u.den == g * d,
    ;
    lemma_same_value_transitive(f.canonical(), u, f);
    let x: nat = a / g;
    let y: nat = b / g;
    vstd::arithmetic::div_mod::lemma_fundamental_div_mod(a as int, g as int);
    vstd::arithmetic::div_mod::lemma_fundamental_div_mod(b as int, g as int);
    lemma_gcd_scales(g, x, y);
    assert(gcd_of(x, y) == 1) by (nonlinear_arith)
        requires
            g == g * gcd_of(x, y),
            g > 0,
    ;
}

/// Two reduced fractions with positive denominators that have the same
/// value are the same fraction.
pub proof fn lemma_reduced_form_is_unique(a: Fraction, b: Fraction)
    requires
        a.den > 0,
        b.den > 0,
        a.reduced(),
        b.reduced(),
        a.same_value(b),
    ensures
        a == b,
{
    let x: nat = abs(a.num);
    let y: nat = abs(b.num);
    let pa: nat = a.den as nat;
    let pb: nat = b.den as nat;
    assert(x * pb == y * pa) by (nonlinear_arith)
        requires
            a.num * b.den == a.den * b.num,
            x == abs(a.num),
            y == abs(b.num),
            pa == a.den,
            pb == b.den,
            pa > 0,
            pb > 0,
    ;
    // the denominator of a divides that of b
    lemma_gcd_symmetric(x, pa);
    vstd::arithmetic::div_mod::lemma_mod_multiples_basic(y as int, pa as int);
    lemma_coprime_divides_other_factor(pa, x, pb);
    lemma_divisor_is_bounded(pa as int, pb as int);
    // and the denominator of b divides that of a
    lemma_gcd_symmetric(y, pb);
    vstd::arithmetic::div_mod::lemma_mod_multiples_basic(x as int, pb as int);
    assert(y * pa == x * pb);
    lemma_coprime_divides_other_factor(pb, y, pa);
    lemma_divisor_is_bounded(pb as int, pa as int);
    assert(a.num == b.num) by (nonlinear_arith)
        requires
            a.num * b.den == a.den * b.num,
            a.den == b.den,
            a.den > 0,
    ;
}

/// Valid fractions of the same value have the same canonical form.
pub proof fn lemma_canonical_is_unique(a: Fraction, b: Fraction)
    requires
        a.valid(),
        b.valid(),
        a.same_value(b),
    ensures
        a.canonical() == b.canonical(),
{
    lemma_canonical_form(a);
    lemma_canonical_form(b);
    lemma_same_value_transitive(a.canonical(), a, b);
    lemma_same_value_symmetric(b.canonical(), b);
    lemma_same_value_transitive(a.canonical(), b, b.canonical());
    lemma_reduced_form_is_unique(a.canonical(), b.canonical());
}

/// Valid fractions with the same canonical form have the same value.
pub proof fn lemma_canonical_decides_value(a: Fraction, b: Fraction)
    requires
        a.valid(),
        b.valid(),
        a.canonical() == b.canonical(),
    ensures
        a.same_value(b),
{
    lemma_canonical_form(a);
    lemma_canonical_form(b);
    lemma_same_value_symmetric(a.canonical(), a);
    lemma_same_value_transitive(a, a.canonical(), b);
}

} // verus!
