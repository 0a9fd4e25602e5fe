//! Equality and order of fractions: an equivalence and a strict total order.

use crate::fraction::{sign_of, Fraction};
use crate::wide::abs;
use vstd::prelude::*;

verus! {

/// The positive form of a valid fraction has a positive denominator, the
/// sign of the value on its numerator, and the same value.
pub proof fn lemma_positive_form(f: Fraction)
    requires
        f.valid(),
    ensures
        f.positive_form().den > 0,
        sign_of(f.positive_form().num) == f.signum(),
        abs(f.positive_form().num) == abs(f.num),
        f.positive_form().same_value(f),
{
    let s: int = sign_of(f.den);
    assert(f.num * s == f.num || f.num * s == -f.num);
    assert(sign_of(f.num) * s == sign_of(f.num * s));
    assert((f.num * s) * f.den == (f.den * s) * f.num) by (nonlinear_arith);
}

/// Two valid fractions have the same value exactly when their positive forms
/// have equal cross products, and the magnitude of a cross product of the
/// fractions is that of their positive forms.
pub proof fn lemma_cross_products(a: Fraction, b: Fraction)
    requires
        a.valid(),
        b.valid(),
    ensures
        a.same_value(b) <==> a.positive_form().num * b.positive_form().den
            == b.positive_form().num * a.positive_form().den,
        abs(a.num * b.den) == abs(a.positive_form().num) * b.positive_form().den,
{
    let sa: int = sign_of(a.den);
    let sb: int = sign_of(b.den);
    let x: int = a.positive_form().num;
    let y: int = b.positive_form().num;
    let pa: int = a.positive_form().den;
    let pb: int = b.positive_form().den;
    assert(x * pb == (a.num * b.den) * (sa * sb) && y * pa == (a.den * b.num) * (sa * sb))
        by (nonlinear_arith)
        requires
            x == a.num * sa,
            y == b.num * sb,
            pa == a.den * sa,
            pb == b.den * sb,
    ;
    assert(sa * sb == 1 || sa * sb == -1) by (nonlinear_arith)
        requires
            sa == 1 || sa == -1,
            sb == 1 || sb == -1,
    ;
    let ax: int = abs(x) as int;
    assert(ax * pb == x * pb || ax * pb == -(x * pb)) by (nonlinear_arith)
        requires
            ax == x || ax == -x,
    ;
    assert(ax * pb >= 0) by (nonlinear_arith)
        requires
            ax >= 0,
            pb > 0,
    ;
}

/// Every fraction has the same value as itself.
pub proof fn lemma_same_value_reflexive(a: Fraction)
    ensures
        a.same_value(a),
{
    assert(a.num * a.den == a.den * a.num) by (nonlinear_arith);
}

/// If `a` has the value of `b`, then `b` has the value of `a`.
pub proof fn lemma_same_value_symmetric(a: Fraction, b: Fraction)
    requires
        a.same_value(b),
    ensures
        b.same_value(a),
{
    assert(b.num * a.den == a.den * b.num && a.num * b.den == b.den * a.num) by (nonlinear_arith);
}

/// If `a` has the value of `b` and `b` that of `c`, then `a` has the value
/// of `c`.
pub proof fn lemma_same_value_transitive(a: Fraction, b: Fraction, c: Fraction)
    requires
        b.valid(),
        a.same_value(b),
        b.same_value(c),
    ensures
        a.same_value(c),
{
    assert(a.num * c.den == a.den * c.num) by (nonlinear_arith)
        requires
            a.num * b.den == a.den * b.num,
            b.num * c.den == b.den * c.num,
            b.den != 0,
    {
        assert(b.den * (a.num * c.den) == (a.num * b.den) * c.den);
        assert((a.den * b.num) * c.den == a.den * (b.num * c.den));
        assert(a.den * (b.den * c.num) == b.den * (a.den * c.num));
        assert(b.den * (a.num * c.den - a.den * c.num) == 0);
    }
}

/// Of two valid fractions exactly one of three holds: the first is smaller,
/// they have the same value, or the second is smaller.
pub proof fn lemma_trichotomy(a: Fraction, b: Fraction)
    requires
        a.valid(),
        b.valid(),
    ensures
        a.less_than(b) || a.same_value(b) || b.less_than(a),
        !(a.less_than(b) && a.same_value(b)),
        !(a.less_than(b) && b.less_than(a)),
        !(a.same_value(b) && b.less_than(a)),
{
    lemma_cross_products(a, b);
}

/// No fraction is smaller than itself.
pub proof fn lemma_less_than_irreflexive(a: Fraction)
    ensures
        !a.less_than(a),
{
}

/// If `a` is smaller than `b` and `b` smaller than `c`, then `a` is smaller
/// than `c`.
pub proof fn lemma_less_than_transitive(a: Fraction, b: Fraction, c: Fraction)
    requires
        a.valid(),
        b.valid(),
        c.valid(),
        a.less_than(b),
        b.less_than(c),
    ensures
        a.less_than(c),
{
    lemma_positive_form(a);
    lemma_positive_form(b);
    lemma_positive_form(c);
    let x: int = a.positive_form().num;
    let y: int = b.positive_form().num;
    let z: int = c.positive_form().num;
    let pa: int = a.positive_form().den;
    let pb: int = b.positive_form().den;
    let pc: int = c.positive_form().den;
    assert(x * pc < z * pa) by (nonlinear_arith)
        requires
            x * pb < y * pa,
            y * pc < z * pb,
            pa > 0,
            pb > 0,
            pc > 0,
    {
        assert((x * pb) * pc < (y * pa) * pc);
        assert((y * pc) * pa < (z * pb) * pa);
        assert((x * pc) * pb < (z * pa) * pb);
    }
}

/// Fractions of the same value stand in the same order to every other
/// fraction.
pub proof fn lemma_order_respects_value(a: Fraction, b: Fraction, c: Fraction)
    requires
        a.valid(),
        b.valid(),
        c.valid(),
        a.same_value(b),
    ensures
        a.less_than(c) <==> b.less_than(c),
        c.less_than(a) <==> c.less_than(b),
{
    lemma_positive_form(a);
    lemma_positive_form(b);
    lemma_positive_form(c);
    lemma_cross_products(a, b);
    let x: int = a.positive_form().num;
    let y: int = b.positive_form().num;
    let z: int = c.positive_form().num;
    let pa: int = a.positive_form().den;
    let pb: int = b.positive_form().den;
    let pc: int = c.positive_form().den;
    assert((x * pc < z * pa) <==> (y * pc < z * pb)) by (nonlinear_arith)
        requires
            x * pb == y * pa,
            pa > 0,
            pb > 0,
            pc > 0,
    {
        assert((x * pc) * pb == (y * pc) * pa);
        assert((z * pa) * pb == (z * pb) * pa);
        assert(x * pc < z * pa ==> (x * pc) * pb < (z * pa) * pb);
        assert(y * pc < z * pb ==> (y * pc) * pa < (z * pb) * pa);
        assert(x * pc >= z * pa ==> (x * pc) * pb >= (z * pa) * pb);
        assert(y * pc >= z * pb ==> (y * pc) * pa >= (z * pb) * pa);
    }
    assert((z * pa < x * pc) <==> (z * pb < y * pc)) by (nonlinear_arith)
        requires
            x * pb == y * pa,
            pa > 0,
            pb > 0,
            pc > 0,
    {
        assert((x * pc) * pb == (y * pc) * pa);
        assert((z * pa) * pb == (z * pb) * pa);
        assert(x * pc > z * pa ==> (x * pc) * pb > (z * pa) * pb);
        assert(y * pc > z * pb ==> (y * pc) * pa > (z * pb) * pa);
        assert(x * pc <= z * pa ==> (x * pc) * pb <= (z * pa) * pb);
        assert(y * pc <= z * pb ==> (y * pc) * pa <= (z * pb) * pa);
    }
}

/// How the signs of two valid fractions, and the magnitudes of their cross
/// products, decide their order.
pub proof fn lemma_order_from_signs(a: Fraction, b: Fraction)
    requires
        a.valid(),
        b.valid(),
    ensures
        a.signum() < b.signum() ==> a.less_than(b),
        a.signum() > b.signum() ==> b.less_than(a),
        a.signum() == 0 && b.signum() == 0 ==> a.same_value(b),
        a.signum() == 1 && b.signum() == 1 ==> (a.less_than(b) <==> abs(a.num * b.den) < abs(
            b.num * a.den,
        )),
        a.signum() == -1 && b.signum() == -1 ==> (a.less_than(b) <==> abs(a.num * b.den) > abs(
            b.num * a.den,
        )),
        a.signum() == b.signum() ==> (a.same_value(b) <==> abs(a.num * b.den) == abs(
            b.num * a.den,
        )),
{
    lemma_positive_form(a);
    lemma_positive_form(b);
    lemma_cross_products(a, b);
    lemma_cross_products(b, a);
    let x: int = a.positive_form().num;
    let y: int = b.positive_form().num;
    let pa: int = a.positive_form().den;
    let pb: int = b.positive_form().den;
    assert(sign_of(x * pb) == sign_of(x) && sign_of(y * pa) == sign_of(y)) by (nonlinear_arith)
        requires
            pa > 0,
            pb > 0,
    ;
    let ax: int = abs(x) as int;
    let ay: int = abs(y) as int;
    assert(ax * pb == abs(x * pb) && ay * pa == abs(y * pa)) by (nonlinear_arith)
        requires
            ax == abs(x),
            ay == abs(y),
            pa > 0,
            pb > 0,
    ;
}

} // verus!
