//! How far cutting off after 18 decimal places moves a product or a quotient.

use vstd::prelude::*;
use crate::fixed::{fx_div, fx_mul, UNIT};

verus! {

/// A quotient of a number that is not negative by a positive one, cut off,
/// is the largest whole number whose multiple stays at or below the dividend.
pub proof fn lemma_floor(n: int, d: int)
    requires
        n >= 0,
        d > 0,
    ensures
        0 <= n / d,
        (n / d) * d <= n < (n / d) * d + d,
        (n / d) * d + n % d == n,
        0 <= n % d < d,
{
    vstd::arithmetic::div_mod::lemma_fundamental_div_mod(n, d);
    vstd::arithmetic::div_mod::lemma_mod_bound(n, d);
    vstd::arithmetic::div_mod::lemma_div_pos_is_pos(n, d);
    assert(d * (n / d) == (n / d) * d) by (nonlinear_arith);
}

/// A whole number whose next multiple lies above the dividend is at least
/// the quotient.
pub proof fn lemma_floor_at_most(n: int, d: int, k: int)
    requires
        d > 0,
        n < (k + 1) * d,
    ensures
        n / d <= k,
{
    vstd::arithmetic::div_mod::lemma_fundamental_div_mod(n, d);
    vstd::arithmetic::div_mod::lemma_mod_bound(n, d);
    assert(n / d <= k) by (nonlinear_arith)
        requires
            d > 0,
            n < (k + 1) * d,
            n == d * (n / d) + n % d,
            0 <= n % d < d,
    ;
}

/// A fixed-point product lies at most one step below the exact product.
pub proof fn lemma_fx_mul_bounds(x: int, y: int)
    requires
        x >= 0,
        y >= 0,
    ensures
        0 <= fx_mul(x, y),
        fx_mul(x, y) * UNIT <= x * y < fx_mul(x, y) * UNIT + UNIT,
        fx_mul(x, y) * UNIT + (x * y) % (UNIT as int) == x * y,
        fx_mul(x, y) == fx_mul(y, x),
{
    assert(x * y >= 0) by (nonlinear_arith)
        requires
            x >= 0,
            y >= 0,
    ;
    assert(x * y == y * x) by (nonlinear_arith);
    lemma_floor(x * y, UNIT as int);
}

/// A fixed-point quotient lies at most one step below the exact quotient.
pub proof fn lemma_fx_div_bounds(x: int, y: int)
    requires
        x >= 0,
        y > 0,
    ensures
        0 <= fx_div(x, y),
        fx_div(x, y) * y <= x * UNIT < fx_div(x, y) * y + y,
{
    assert(x * (UNIT as int) >= 0) by (nonlinear_arith)
        requires
            x >= 0,
    ;
    lemma_floor(x * (UNIT as int), y);
}

/// Multiplying by a factor between zero and one does not enlarge a number.
pub proof fn lemma_fx_mul_fraction(x: int, f: int)
    requires
        x >= 0,
        0 <= f <= UNIT,
    ensures
        0 <= fx_mul(x, f) <= x,
        0 <= fx_mul(f, x) <= x,
{
    lemma_fx_mul_bounds(x, f);
    assert(x * f < (x + 1) * UNIT) by (nonlinear_arith)
        requires
            x >= 0,
            0 <= f <= UNIT,
    ;
    lemma_floor_at_most(x * f, UNIT as int, x);
}

/// A dividend that is at most the divisor gives a quotient of at most one.
pub proof fn lemma_fx_div_fraction(x: int, y: int)
    requires
        0 <= x <= y,
        y > 0,
    ensures
        0 <= fx_div(x, y) <= UNIT,
{
    lemma_fx_div_bounds(x, y);
    assert(x * UNIT < (UNIT + 1) * y) by (nonlinear_arith)
        requires
            0 <= x <= y,
            y > 0,
    ;
    lemma_floor_at_most(x * (UNIT as int), y, UNIT as int);
}

/// Dividing by a reserve and multiplying by it again gives back at most what
/// one started from, and so does any ratio that is no larger.
pub proof fn lemma_ratio_back(d: int, a: int, r: int)
    requires
        d >= 0,
        a > 0,
        0 <= r <= fx_div(d, a),
    ensures
        0 <= fx_mul(a, r) <= d,
{
    lemma_fx_div_bounds(d, a);
    lemma_fx_mul_bounds(a, r);
    assert(a * r < (d + 1) * UNIT) by (nonlinear_arith)
        requires
            a > 0,
            0 <= r <= fx_div(d, a),
            fx_div(d, a) * a <= d * UNIT,
    ;
    lemma_floor_at_most(a * r, UNIT as int, d);
}

} // verus!
