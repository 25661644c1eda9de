//! Point masses: their gravitational interaction and their integration.

use crate::drawing::{pack_rgba_into_u32, Circle, BODY_COLOR};
use crate::fixed::{
    fixed_product, fixed_quotient, lemma_saturate_odd, lemma_trunc_div_magnitude,
    lemma_trunc_div_odd, quotient, saturate, trunc_div, LIMIT, SCALE, SCALE_SQUARED,
};
use crate::vector::Vec2;
use vstd::prelude::*;

verus! {

/// The gravitational constant, 50 in fixed point.
pub const GRAVITY: i64 = 50_000_000;

/// Largest mass a body may have, a thousand million units. It keeps the
/// product of the constant and two masses within 128 bits.
pub const MASS_LIMIT: i64 = 1_000_000_000_000_000;

/// A point mass. `acceleration` accumulates the pulls of one step and is
/// cleared when the body is integrated.
#[derive(Clone, Copy, Debug, PartialEq, Eq, Structural)]
pub struct Body {
    pub position: Vec2,
    pub mass: i64,
    pub speed: Vec2,
    pub acceleration: Vec2,
    pub density: i64,
}

/// Whether a squared distance, in squared steps, has integer part one when
/// measured in squared units.
pub open spec fn floors_to_one(d2: int) -> bool {
    SCALE_SQUARED <= d2 < 2 * SCALE_SQUARED
}

/// The largest magnitude that either component of the pull between bodies
/// of masses `m1` and `m2` can have, however close the two are.
pub open spec fn pull_limit(m1: int, m2: int) -> int {
    GRAVITY * m1 * m2 / (SCALE as int)
}

impl Body {
    /// Mass and density are strictly positive and the mass is within its
    /// limit.
    pub open spec fn well_formed(self) -> bool {
        &&& 0 < self.mass <= MASS_LIMIT
        &&& 0 < self.density
    }

    /// The magnitude of the acceleration between `self` and `other`:
    /// nothing where the squared distance floors to one, saturated where
    /// the two coincide, and `G * m1 * m2 / d^2` everywhere else.
    pub open spec fn spec_acceleration_to(self, other: Body) -> i64 {
        let d2 = self.position.spec_distance2(other.position);
        if floors_to_one(d2) {
            0
        } else if d2 == 0 {
            LIMIT
        } else {
            saturate(GRAVITY * self.mass * other.mass / d2)
        }
    }

    /// The acceleration that `source` contributes to `self`: the offset
    /// from `self` to `source`, not normalised, times the magnitude.
    pub open spec fn pull_toward(self, source: Body) -> Vec2 {
        source.position.spec_minus(self.position).spec_scaled(self.spec_acceleration_to(source))
    }

    /// The body with its accumulator replaced by `acceleration`.
    pub open spec fn with_acceleration(self, acceleration: Vec2) -> Body {
        Body {
            position: self.position,
            mass: self.mass,
            speed: self.speed,
            acceleration,
            density: self.density,
        }
    }

    /// The body after one integration step of length `dt`: the speed
    /// advances by the accumulated acceleration, the position by the new
    /// speed, and the accumulator is cleared.
    pub open spec fn integrated(self, dt: i64) -> Body {
        let speed = self.speed.spec_plus(self.acceleration.spec_scaled(dt));
        Body {
            position: self.position.spec_plus(speed.spec_scaled(dt)),
            mass: self.mass,
            speed,
            acceleration: Vec2::spec_zero(),
            density: self.density,
        }
    }

    /// The disc that stands for the body on screen.
    pub open spec fn spec_to_circle(self) -> Circle {
        Circle {
            world_pos: [self.position.x, self.position.y, 0i64],
            radius: fixed_quotient(self.mass as int, self.density as int),
            color: BODY_COLOR,
        }
    }

    /// A body at rest.
    pub fn new(position: Vec2, mass: i64, density: i64) -> (body: Body)
        requires
            0 < mass <= MASS_LIMIT,
            0 < density,
        ensures
            body == (Body {
                position,
                mass,
                speed: Vec2::spec_zero(),
                acceleration: Vec2::spec_zero(),
                density,
            }),
            body.well_formed(),
    {
        Body { position, mass, speed: Vec2::zero(), acceleration: Vec2::zero(), density }
    }

    /// A body with an initial speed.
    pub fn new_sp(position: Vec2, mass: i64, speed: Vec2, density: i64) -> (body: Body)
        requires
            0 < mass <= MASS_LIMIT,
            0 < density,
        ensures
            body == (Body { position, mass, speed, acceleration: Vec2::spec_zero(), density }),
            body.well_formed(),
    {
        Body { position, mass, speed, acceleration: Vec2::zero(), density }
    }

    /// Tells whether the body satisfies `well_formed`.
    pub fn is_well_formed(&self) -> (ok: bool)
        ensures
            ok == self.well_formed(),
    {
        0 < self.mass && self.mass <= MASS_LIMIT && 0 < self.density
    }

    /// Advances the body by one step of length `dt`.
    pub fn update(&mut self, dt: i64)
        requires
            dt > 0,
        ensures
            *final(self) == old(self).integrated(dt),
    {
        self.speed = self.speed.plus(self.acceleration.scaled(dt));
        self.position = self.position.plus(self.speed.scaled(dt));
        self.acceleration = Vec2::zero();
    }

    /// Projects the body onto a drawable disc.
    pub fn to_circle(&self) -> (circle: Circle)
        requires
            self.well_formed(),
        ensures
            circle == self.spec_to_circle(),
            circle.radius >= 0,
            self.density <= self.mass * SCALE ==> circle.radius > 0,
    {
        proof {
            lemma_radius_sign(*self);
        }
        let circle = Circle {
            world_pos: [self.position.x, self.position.y, 0],
            radius: quotient(self.mass, self.density),
            color: pack_rgba_into_u32(0xFF, 0xFF, 0xFF, 0xFF),
        };
        assert(circle.world_pos@ =~= self.spec_to_circle().world_pos@);
        circle
    }

    /// The magnitude of the gravitational acceleration between the two
    /// bodies.
    pub fn compute_acceleration_to_other_body(&self, other: &Body) -> (a: i64)
        requires
            self.well_formed(),
            other.well_formed(),
        ensures
            a == self.spec_acceleration_to(*other),
    {
        let d2: u128 = self.position.distance2(other.position);
        if SCALE_SQUARED <= d2 && d2 < 2 * SCALE_SQUARED {
            return 0;
        }
        if d2 == 0 {
            return LIMIT;
        }
        proof {
            lemma_numerator_bound(self.mass as int, other.mass as int);
        }
        let numerator: u128 = (GRAVITY as u128) * (self.mass as u128) * (other.mass as u128);
        proof {
            let exact = self.position.spec_distance2(other.position);
            if exact > u128::MAX {
                vstd::arithmetic::div_mod::lemma_basic_div(numerator as int, exact);
                vstd::arithmetic::div_mod::lemma_basic_div(numerator as int, d2 as int);
            }
            vstd::arithmetic::div_mod::lemma_div_pos_is_pos(numerator as int, exact);
        }
        let q: u128 = numerator / d2;
        if q > LIMIT as u128 {
            LIMIT
        } else {
            q as i64
        }
    }
}

/// The magnitude of the acceleration is the same seen from either body.
pub proof fn lemma_acceleration_symmetric(a: Body, b: Body)
    ensures
        a.spec_acceleration_to(b) == b.spec_acceleration_to(a),
{
    let (ax, ay) = (a.position.x as int, a.position.y as int);
    let (bx, by) = (b.position.x as int, b.position.y as int);
    assert((ax - bx) * (ax - bx) == (bx - ax) * (bx - ax)) by (nonlinear_arith);
    assert((ay - by) * (ay - by) == (by - ay) * (by - ay)) by (nonlinear_arith);
    assert(GRAVITY * a.mass * b.mass == GRAVITY * b.mass * a.mass) by (nonlinear_arith);
}

/// Newton's third law: the acceleration that `b` contributes to `a` is the
/// exact negation of the one that `a` contributes to `b`, for every pair of
/// bodies, and negating it does not saturate.
pub proof fn lemma_pull_antisymmetric(a: Body, b: Body)
    ensures
        a.pull_toward(b) == b.pull_toward(a).spec_negated(),
        a.pull_toward(b).x == -b.pull_toward(a).x,
        a.pull_toward(b).y == -b.pull_toward(a).y,
{
    lemma_acceleration_symmetric(a, b);
    let k = a.spec_acceleration_to(b);
    lemma_scaled_odd(a.position.x as int, b.position.x as int, k);
    lemma_scaled_odd(a.position.y as int, b.position.y as int, k);
}

/// The unit-distance guard: two bodies whose squared distance floors to
/// one contribute nothing to each other's acceleration, whatever their
/// masses.
pub proof fn lemma_unit_distance_guard(a: Body, b: Body)
    requires
        floors_to_one(a.position.spec_distance2(b.position)),
    ensures
        a.spec_acceleration_to(b) == 0,
        b.spec_acceleration_to(a) == 0,
        a.pull_toward(b) == Vec2::spec_zero(),
        b.pull_toward(a) == Vec2::spec_zero(),
{
    lemma_acceleration_symmetric(a, b);
}

/// Two bodies in the same place contribute nothing to each other's
/// acceleration: the magnitude between them saturates, but the offset it
/// multiplies is the zero vector.
pub proof fn lemma_coincident_bodies_do_not_pull(a: Body, b: Body)
    requires
        a.position == b.position,
    ensures
        a.spec_acceleration_to(b) == LIMIT,
        a.pull_toward(b) == Vec2::spec_zero(),
        b.pull_toward(a) == Vec2::spec_zero(),
{
    lemma_acceleration_symmetric(a, b);
    assert(0 * LIMIT == 0);
}

/// No pull exceeds `pull_limit`: the magnitude of the acceleration grows
/// as the bodies approach, but the offset it multiplies shrinks with them.
pub proof fn lemma_pull_bounded(a: Body, b: Body)
    requires
        a.well_formed(),
        b.well_formed(),
    ensures
        -pull_limit(a.mass as int, b.mass as int) <= a.pull_toward(b).x <= pull_limit(
            a.mass as int,
            b.mass as int,
        ),
        -pull_limit(a.mass as int, b.mass as int) <= a.pull_toward(b).y <= pull_limit(
            a.mass as int,
            b.mass as int,
        ),
{
    let dx = b.position.x - a.position.x;
    let dy = b.position.y - a.position.y;
    let d2 = a.position.spec_distance2(b.position);
    let numerator = GRAVITY * a.mass * b.mass;
    let magnitude = a.spec_acceleration_to(b);
    lemma_numerator_bound(a.mass as int, b.mass as int);
    assert(d2 == dx * dx + dy * dy && dx * dx >= 0 && dy * dy >= 0) by (nonlinear_arith)
        requires
            d2 == (a.position.x - b.position.x) * (a.position.x - b.position.x) + (a.position.y
                - b.position.y) * (a.position.y - b.position.y),
            dx == b.position.x - a.position.x,
            dy == b.position.y - a.position.y,
    ;
    if d2 != 0 {
        vstd::arithmetic::div_mod::lemma_div_pos_is_pos(numerator, d2);
    }
    lemma_scaled_offset_bounded(dx, d2, magnitude, numerator);
    lemma_scaled_offset_bounded(dy, d2, magnitude, numerator);
}

/// An offset along one axis, scaled by a magnitude of at most
/// `numerator / d2`, stays within `numerator / SCALE` when `d2` is at
/// least the square of the offset.
proof fn lemma_scaled_offset_bounded(offset: int, d2: int, magnitude: i64, numerator: int)
    requires
        numerator >= 0,
        d2 >= offset * offset,
        magnitude == 0 || d2 == 0 || 0 <= magnitude <= numerator / d2,
    ensures
        -(numerator / (SCALE as int)) <= fixed_product(saturate(offset) as int, magnitude as int)
            <= numerator / (SCALE as int),
{
    let d = saturate(offset) as int;
    let scale = SCALE as int;
    assert(offset * offset >= 0 && (offset != 0 ==> offset * offset >= offset && offset * offset
        >= -offset)) by (nonlinear_arith);
    if magnitude == 0 || d2 == 0 {
        assert(d * magnitude == 0) by (nonlinear_arith)
            requires
                d == 0 || magnitude == 0,
        ;
        lemma_trunc_div_magnitude(0, numerator, scale);
    } else {
        let q = numerator / d2;
        vstd::arithmetic::div_mod::lemma_fundamental_div_mod(numerator, d2);
        vstd::arithmetic::div_mod::lemma_mod_bound(numerator, d2);
        assert(-numerator <= d * magnitude <= numerator) by (nonlinear_arith)
            requires
                -d2 <= d <= d2,
                0 <= magnitude <= q,
                numerator == d2 * q + numerator % d2,
                0 <= numerator % d2,
                d2 > 0,
        ;
        lemma_trunc_div_magnitude(d * magnitude, numerator, scale);
    }
}

/// The radius of a well-formed body is never negative, and it is positive
/// unless the density exceeds the mass a millionfold.
pub proof fn lemma_radius_sign(body: Body)
    requires
        body.well_formed(),
    ensures
        body.spec_to_circle().radius >= 0,
        body.density <= body.mass * SCALE ==> body.spec_to_circle().radius > 0,
{
    let n = body.mass * SCALE;
    let d = body.density as int;
    vstd::arithmetic::div_mod::lemma_div_pos_is_pos(n, d);
    if d <= n {
        vstd::arithmetic::div_mod::lemma_div_non_zero(n, d);
    }
}

/// Scaling the saturated difference `q - p` gives the negation of scaling
/// `p - q`.
proof fn lemma_scaled_odd(p: int, q: int, k: i64)
    ensures
        fixed_product(saturate(q - p) as int, k as int) == -fixed_product(
            saturate(p - q) as int,
            k as int,
        ),
{
    let d = saturate(p - q) as int;
    lemma_saturate_odd(p - q);
    assert(saturate(q - p) == -d);
    assert((-d) * k == -(d * k)) by (nonlinear_arith);
    lemma_trunc_div_odd(d * k, SCALE as int);
    lemma_saturate_odd(trunc_div(d * k, SCALE as int));
}

/// The constant times two admissible masses fits in 127 bits.
proof fn lemma_numerator_bound(m1: int, m2: int)
    by (nonlinear_arith)
    requires
        0 < m1 <= 1_000_000_000_000_000,
        0 < m2 <= 1_000_000_000_000_000,
    ensures
        0 < 50_000_000 * m1 <= 50_000_000_000_000_000_000_000,
        0 < 50_000_000 * m1 * m2 <= 50_000_000_000_000_000_000_000_000_000_000_000_000,
{
}

} // verus!
