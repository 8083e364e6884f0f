//! Facts about fixed-point products and quotients that the ledger's
//! invariant and laws rest on.

use vstd::prelude::*;
use crate::decimal::one_attos;
use crate::decimal::trunc_div;

verus! {

/// Rounding toward zero agrees with the floor on non-negative dividends and
/// positive divisors, and brackets the exact quotient.
pub proof fn lemma_trunc_div_floor(a: int, b: int)
    requires
        a >= 0,
        b > 0,
    ensures
        trunc_div(a, b) == a / b,
        0 <= trunc_div(a, b),
        trunc_div(a, b) * b <= a < trunc_div(a, b) * b + b,
{
    assert(0 <= a / b && (a / b) * b <= a < (a / b) * b + b) by (nonlinear_arith)
        requires
            a >= 0,
            b > 0,
    ;
}

/// Rounding toward zero is monotone in a non-negative dividend.
pub proof fn lemma_trunc_div_monotone(a: int, c: int, b: int)
    requires
        0 <= a <= c,
        b > 0,
    ensures
        trunc_div(a, b) <= trunc_div(c, b),
{
    assert(a / b <= c / b) by (nonlinear_arith)
        requires
            0 <= a <= c,
            b > 0,
    ;
}

/// The product of two non-negative values is non-negative.
pub proof fn lemma_product_nonnegative(a: int, b: int)
    requires
        a >= 0,
        b >= 0,
    ensures
        a * b >= 0,
        trunc_div(a * b, one_attos()) >= 0,
{
    assert(a * b >= 0) by (nonlinear_arith)
        requires
            a >= 0,
            b >= 0,
    ;
    lemma_trunc_div_floor(a * b, one_attos());
}

/// The quotient of a non-negative value by a positive one is non-negative.
pub proof fn lemma_quotient_nonnegative(a: int, b: int)
    requires
        a >= 0,
        b > 0,
    ensures
        trunc_div(a * one_attos(), b) >= 0,
{
    assert(a * one_attos() >= 0) by (nonlinear_arith)
        requires
            a >= 0,
    ;
    lemma_trunc_div_floor(a * one_attos(), b);
}

/// A fraction between zero and one of a non-negative value lies between
/// zero and the value.
pub proof fn lemma_fraction_bounded(a: int, c: int)
    requires
        a >= 0,
        0 <= c <= one_attos(),
    ensures
        0 <= trunc_div(a * c, one_attos()) <= a,
{
    lemma_product_nonnegative(a, c);
    assert(a * c <= a * one_attos()) by (nonlinear_arith)
        requires
            a >= 0,
            0 <= c <= one_attos(),
    ;
    lemma_trunc_div_floor(a * c, one_attos());
    let q = trunc_div(a * c, one_attos());
    assert(q <= a) by (nonlinear_arith)
        requires
            q * one_attos() <= a * c,
            a * c <= a * one_attos(),
            one_attos() > 0,
    ;
}

/// What is worth no more than a holding at a rate converts back, at that
/// rate, into no more than the holding.
pub proof fn lemma_conversion_bounded(value: int, rate: int, holding: int)
    requires
        rate > 0,
        holding >= 0,
        0 <= value <= trunc_div(rate * holding, one_attos()),
    ensures
        0 <= trunc_div(value * one_attos(), rate) <= holding,
{
    lemma_product_nonnegative(rate, holding);
    lemma_trunc_div_floor(rate * holding, one_attos());
    lemma_quotient_nonnegative(value, rate);
    assert(value * one_attos() >= 0) by (nonlinear_arith)
        requires
            value >= 0,
    ;
    lemma_trunc_div_floor(value * one_attos(), rate);
    let worth = trunc_div(rate * holding, one_attos());
    let back = trunc_div(value * one_attos(), rate);
    assert(back <= holding) by (nonlinear_arith)
        requires
            rate > 0,
            back * rate <= value * one_attos(),
            value <= worth,
            worth * one_attos() <= rate * holding,
            one_attos() > 0,
    ;
}

} // verus!
