//! Planar vectors with saturating fixed-point components.

use crate::fixed::{
    difference, fixed_product, fixed_ratio, lemma_product_bound, negation, product, ratio,
    saturate, saturate_i128, sum, trunc_div, LIMIT,
};
use vstd::prelude::*;

verus! {

/// A point or displacement in the plane.
#[derive(Clone, Copy, Debug, PartialEq, Eq, Structural)]
pub struct Vec2 {
    pub x: i64,
    pub y: i64,
}

impl Vec2 {
    /// The origin.
    pub open spec fn spec_zero() -> Vec2 {
        Vec2 { x: 0, y: 0 }
    }

    /// Component-wise saturating sum.
    pub open spec fn spec_plus(self, other: Vec2) -> Vec2 {
        Vec2 { x: saturate(self.x + other.x), y: saturate(self.y + other.y) }
    }

    /// Component-wise saturating difference.
    pub open spec fn spec_minus(self, other: Vec2) -> Vec2 {
        Vec2 { x: saturate(self.x - other.x), y: saturate(self.y - other.y) }
    }

    /// Component-wise saturating negation.
    pub open spec fn spec_negated(self) -> Vec2 {
        Vec2 { x: saturate(-self.x), y: saturate(-self.y) }
    }

    /// Each component multiplied by the fixed-point factor `k`.
    pub open spec fn spec_scaled(self, k: i64) -> Vec2 {
        Vec2 { x: fixed_product(self.x as int, k as int), y: fixed_product(self.y as int, k as int) }
    }

    /// Each component multiplied by `numerator / denominator`, for a
    /// positive denominator.
    pub open spec fn spec_times_ratio(self, numerator: i64, denominator: i64) -> Vec2
        recommends
            denominator > 0,
    {
        Vec2 {
            x: fixed_ratio(self.x as int, numerator as int, denominator as int),
            y: fixed_ratio(self.y as int, numerator as int, denominator as int),
        }
    }

    /// The vector turned by the angle whose cosine and sine are
    /// `cos / unit` and `sin / unit`, for a positive `unit`. Each component
    /// is rounded once.
    pub open spec fn spec_rotated(self, cos: i64, sin: i64, unit: i64) -> Vec2
        recommends
            unit > 0,
    {
        Vec2 {
            x: saturate(trunc_div(self.x * cos - self.y * sin, unit as int)),
            y: saturate(trunc_div(self.x * sin + self.y * cos, unit as int)),
        }
    }

    /// The exact squared length, in squared steps.
    pub open spec fn spec_norm2(self) -> int {
        self.x * self.x + self.y * self.y
    }

    /// The exact squared Euclidean distance, in squared steps.
    pub open spec fn spec_distance2(self, other: Vec2) -> int {
        (self.x - other.x) * (self.x - other.x) + (self.y - other.y) * (self.y - other.y)
    }

    /// The vector with the given components.
    pub fn new(x: i64, y: i64) -> (v: Vec2)
        ensures
            v == (Vec2 { x, y }),
    {
        Vec2 { x, y }
    }

    /// The origin.
    #[verifier::when_used_as_spec(spec_zero)]
    pub fn zero() -> (v: Vec2)
        ensures
            v == Vec2::spec_zero(),
    {
        Vec2 { x: 0, y: 0 }
    }

    /// Component-wise saturating sum.
    #[verifier::when_used_as_spec(spec_plus)]
    pub fn plus(self, other: Vec2) -> (v: Vec2)
        ensures
            v == self.spec_plus(other),
    {
        Vec2 { x: sum(self.x, other.x), y: sum(self.y, other.y) }
    }

    /// Component-wise saturating difference.
    #[verifier::when_used_as_spec(spec_minus)]
    pub fn minus(self, other: Vec2) -> (v: Vec2)
        ensures
            v == self.spec_minus(other),
    {
        Vec2 { x: difference(self.x, other.x), y: difference(self.y, other.y) }
    }

    /// Component-wise saturating negation.
    #[verifier::when_used_as_spec(spec_negated)]
    pub fn negated(self) -> (v: Vec2)
        ensures
            v == self.spec_negated(),
    {
        Vec2 { x: negation(self.x), y: negation(self.y) }
    }

    /// Each component multiplied by the fixed-point factor `k`.
    #[verifier::when_used_as_spec(spec_scaled)]
    pub fn scaled(self, k: i64) -> (v: Vec2)
        ensures
            v == self.spec_scaled(k),
    {
        Vec2 { x: product(self.x, k), y: product(self.y, k) }
    }

    /// Each component multiplied by `numerator / denominator`.
    #[verifier::when_used_as_spec(spec_times_ratio)]
    pub fn times_ratio(self, numerator: i64, denominator: i64) -> (v: Vec2)
        requires
            denominator > 0,
        ensures
            v == self.spec_times_ratio(numerator, denominator),
    {
        Vec2 {
            x: ratio(self.x, numerator, denominator),
            y: ratio(self.y, numerator, denominator),
        }
    }

    /// The vector turned by the angle whose cosine and sine are
    /// `cos / unit` and `sin / unit`.
    #[verifier::when_used_as_spec(spec_rotated)]
    pub fn rotated(self, cos: i64, sin: i64, unit: i64) -> (v: Vec2)
        requires
            unit > 0,
        ensures
            v == self.spec_rotated(cos, sin, unit),
    {
        proof {
            lemma_product_bound(self.x as int, cos as int);
            lemma_product_bound(self.y as int, sin as int);
            lemma_product_bound(self.x as int, sin as int);
            lemma_product_bound(self.y as int, cos as int);
        }
        let (x, y) = (self.x as i128, self.y as i128);
        let (c, s) = (cos as i128, sin as i128);
        let across: i64 = match (x * s).checked_add(y * c) {
            Some(wide) => saturate_i128(wide / (unit as i128)),
            None => {
                proof {
                    lemma_huge_quotient(self.x * sin + self.y * cos, unit as int);
                }
                LIMIT
            },
        };
        Vec2 { x: saturate_i128((x * c - y * s) / (unit as i128)), y: across }
    }

    /// The squared Euclidean distance to `other` in squared steps, exact
    /// wherever it fits and `u128::MAX` where it does not.
    pub fn distance2(self, other: Vec2) -> (d2: u128)
        ensures
            d2 == (if self.spec_distance2(other) <= u128::MAX {
                self.spec_distance2(other)
            } else {
                u128::MAX as int
            }),
    {
        let dx: u128 = gap(self.x, other.x);
        let dy: u128 = gap(self.y, other.y);
        proof {
            lemma_square_of_gap(self.x as int, other.x as int, dx as int);
            lemma_square_of_gap(self.y as int, other.y as int, dy as int);
        }
        let sx: u128 = dx * dx;
        let sy: u128 = dy * dy;
        match sx.checked_add(sy) {
            Some(d2) => d2,
            None => u128::MAX,
        }
    }
}

/// A number of 128 bits or more divided by one of less than 64 bits
/// exceeds every stored value.
proof fn lemma_huge_quotient(n: int, d: int)
    requires
        n >= 0x8000_0000_0000_0000_0000_0000_0000_0000,
        0 < d <= 0x7fff_ffff_ffff_ffff,
    ensures
        trunc_div(n, d) > LIMIT,
{
    vstd::arithmetic::div_mod::lemma_fundamental_div_mod(n, d);
    vstd::arithmetic::div_mod::lemma_mod_bound(n, d);
    let q = n / d;
    assert(q > 0x7fff_ffff_ffff_ffff) by (nonlinear_arith)
        requires
            n == d * q + n % d,
            0 <= n % d < d,
            n >= 0x8000_0000_0000_0000_0000_0000_0000_0000,
            0 < d <= 0x7fff_ffff_ffff_ffff,
    ;
}

/// The absolute difference of two coordinates.
fn gap(a: i64, b: i64) -> (g: u128)
    ensures
        g == (if a >= b {
            a - b
        } else {
            b - a
        }),
{
    if a >= b {
        (a as i128 - b as i128) as u128
    } else {
        (b as i128 - a as i128) as u128
    }
}

/// The square of a difference equals the square of its absolute value,
/// which for 64-bit operands fits in 128 bits.
proof fn lemma_square_of_gap(a: int, b: int, gap: int)
    by (nonlinear_arith)
    requires
        gap == (if a >= b {
            a - b
        } else {
            b - a
        }),
        0 <= gap <= 0xffff_ffff_ffff_ffff,
    ensures
        gap * gap == (a - b) * (a - b),
        0 <= gap * gap <= 0xffff_ffff_ffff_fffe_0000_0000_0000_0001,
{
}

} // verus!
