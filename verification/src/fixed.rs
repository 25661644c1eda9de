//! Saturating fixed-point scalars.
//!
//! A stored value `v` stands for the real number `v / SCALE`. Sums, products
//! and quotients are computed exactly, rounded toward zero and then clamped
//! to the symmetric range `-LIMIT ..= LIMIT`, which makes negation exact.

use vstd::prelude::*;

verus! {

/// Stored steps per unit: `SCALE` stands for the real number one.
pub const SCALE: i64 = 1_000_000;

/// The square of `SCALE`: squared lengths count this many squared steps per
/// squared unit.
pub const SCALE_SQUARED: u128 = 1_000_000_000_000;

/// Largest magnitude of a stored quantity.
pub const LIMIT: i64 = 0x7fff_ffff_ffff_ffff;

/// The quotient `n / d` rounded toward zero, for a positive divisor.
pub open spec fn trunc_div(n: int, d: int) -> int
    recommends
        d > 0,
{
    if n >= 0 {
        n / d
    } else {
        -((-n) / d)
    }
}

/// The value of the symmetric range `-LIMIT ..= LIMIT` nearest to `v`.
pub open spec fn saturate(v: int) -> i64 {
    if v > LIMIT {
        LIMIT
    } else if v < -LIMIT {
        (-LIMIT) as i64
    } else {
        v as i64
    }
}

/// The stored value nearest to `a * b / d`, for a positive divisor.
pub open spec fn fixed_ratio(a: int, b: int, d: int) -> i64
    recommends
        d > 0,
{
    saturate(trunc_div(a * b, d))
}

/// The fixed-point product of two stored values.
pub open spec fn fixed_product(a: int, b: int) -> i64 {
    fixed_ratio(a, b, SCALE as int)
}

/// The fixed-point quotient of two stored values, for a positive divisor.
pub open spec fn fixed_quotient(a: int, b: int) -> i64
    recommends
        b > 0,
{
    fixed_ratio(a, SCALE as int, b)
}

/// Rounding toward zero commutes with negation.
pub proof fn lemma_trunc_div_odd(n: int, d: int)
    requires
        d > 0,
    ensures
        trunc_div(-n, d) == -trunc_div(n, d),
{
    if n == 0 {
        assert(0int / d == 0) by (nonlinear_arith)
            requires
                d > 0,
        ;
    }
}

/// Clamping commutes with negation.
pub proof fn lemma_saturate_odd(v: int)
    ensures
        saturate(-v) == -saturate(v),
{
}

/// A quotient rounded toward zero stays within one step of the exact
/// quotient.
pub proof fn lemma_trunc_div_bounds(n: int, d: int)
    requires
        d > 0,
    ensures
        -d < n - d * trunc_div(n, d) < d,
{
    vstd::arithmetic::div_mod::lemma_fundamental_div_mod(n, d);
    vstd::arithmetic::div_mod::lemma_fundamental_div_mod(-n, d);
    vstd::arithmetic::div_mod::lemma_mod_bound(n, d);
    vstd::arithmetic::div_mod::lemma_mod_bound(-n, d);
    assert(d * -((-n) / d) == -(d * ((-n) / d))) by (nonlinear_arith);
}

/// Rounding toward zero keeps a quotient within the quotient of any bound
/// on the dividend.
pub proof fn lemma_trunc_div_magnitude(n: int, bound: int, d: int)
    requires
        d > 0,
        -bound <= n <= bound,
    ensures
        -(bound / d) <= trunc_div(n, d) <= bound / d,
{
    if n >= 0 {
        vstd::arithmetic::div_mod::lemma_div_is_ordered(n, bound, d);
        vstd::arithmetic::div_mod::lemma_div_pos_is_pos(n, d);
        vstd::arithmetic::div_mod::lemma_div_pos_is_pos(bound, d);
    } else {
        vstd::arithmetic::div_mod::lemma_div_is_ordered(-n, bound, d);
        vstd::arithmetic::div_mod::lemma_div_pos_is_pos(-n, d);
        vstd::arithmetic::div_mod::lemma_div_pos_is_pos(bound, d);
    }
}

/// Clamps a wide intermediate result into the stored range.
pub fn saturate_i128(v: i128) -> (r: i64)
    ensures
        r == saturate(v as int),
{
    if v > LIMIT as i128 {
        LIMIT
    } else if v < -(LIMIT as i128) {
        -LIMIT
    } else {
        v as i64
    }
}

/// Saturating sum of two stored values.
pub fn sum(a: i64, b: i64) -> (r: i64)
    ensures
        r == saturate(a + b),
{
    saturate_i128(a as i128 + b as i128)
}

/// Saturating difference of two stored values.
pub fn difference(a: i64, b: i64) -> (r: i64)
    ensures
        r == saturate(a - b),
{
    saturate_i128(a as i128 - b as i128)
}

/// Saturating negation of a stored value.
pub fn negation(a: i64) -> (r: i64)
    ensures
        r == saturate(-a),
{
    saturate_i128(-(a as i128))
}

/// The product of two 64-bit values lies within these bounds, so that the
/// sum or difference of two such products fits in 128 bits unless both
/// products are `2^126`.
pub proof fn lemma_product_bound(a: int, b: int)
    by (nonlinear_arith)
    requires
        -0x8000_0000_0000_0000 <= a <= 0x7fff_ffff_ffff_ffff,
        -0x8000_0000_0000_0000 <= b <= 0x7fff_ffff_ffff_ffff,
    ensures
        -0x3fff_ffff_ffff_ffff_8000_0000_0000_0000 <= a * b
            <= 0x4000_0000_0000_0000_0000_0000_0000_0000,
{
}

/// `a * b / d`, rounded toward zero and clamped.
pub fn ratio(a: i64, b: i64, d: i64) -> (r: i64)
    requires
        d > 0,
    ensures
        r == fixed_ratio(a as int, b as int, d as int),
{
    proof {
        lemma_product_bound(a as int, b as int);
    }
    let wide: i128 = (a as i128) * (b as i128);
    saturate_i128(wide / (d as i128))
}

/// Fixed-point product: `a * b / SCALE`, rounded toward zero and clamped.
pub fn product(a: i64, b: i64) -> (r: i64)
    ensures
        r == fixed_product(a as int, b as int),
{
    ratio(a, b, SCALE)
}

/// Fixed-point quotient: `a * SCALE / b`, rounded toward zero and clamped.
pub fn quotient(a: i64, b: i64) -> (r: i64)
    requires
        b > 0,
    ensures
        r == fixed_quotient(a as int, b as int),
{
    ratio(a, SCALE, b)
}

} // verus!
