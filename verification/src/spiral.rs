//! The initial condition: bodies at rest on an expanding spiral.
//!
//! Body `k` lies `k` spacings from the centre, `k` angular steps of 20
//! radians round it. Its direction is the positive x axis turned `k` times
//! by that angle; each turn is an exact integer rotation rounded toward
//! zero, so the generator needs no trigonometry and gives the same bodies
//! on every machine. Directions are kept a million million times finer
//! than positions, which holds their drift below one step of a position for
//! any number of bodies one could simulate: see
//! [`lemma_spiral_body_within_radius`] and [`lemma_spiral_body_near_radius`].

use crate::body::Body;
use crate::fixed::{
    lemma_trunc_div_bounds, lemma_trunc_div_magnitude, saturate, sum, trunc_div,
};
use crate::simulation::ready;
use crate::vector::Vec2;
use vstd::prelude::*;

verus! {

/// Stored steps per unit of a direction of the spiral. Directions are kept
/// this fine so that thousands of successive turns stay below the
/// resolution of a position.
pub const DIRECTION_UNIT: i64 = 1_000_000_000_000_000_000;

/// Cosine of the angle between successive bodies of the spiral, 20
/// radians, in steps of a direction.
pub const SPIRAL_STEP_COS: i64 = 408_082_061_813_391_986;

/// Sine of the angle between successive bodies of the spiral, in steps of a
/// direction.
pub const SPIRAL_STEP_SIN: i64 = 912_945_250_727_627_654;

/// Mass of every body of the spiral, 5 units.
pub const SPIRAL_MASS: i64 = 5_000_000;

/// Density of every body of the spiral, 100 units.
pub const SPIRAL_DENSITY: i64 = 100_000_000;

/// The unit vector from the centre of the spiral toward body `k`: the
/// positive x axis turned `k` times by the spiral's angle.
pub open spec fn spiral_direction(k: nat) -> Vec2
    decreases k,
{
    if k == 0 {
        Vec2 { x: DIRECTION_UNIT, y: 0 }
    } else {
        spiral_direction((k - 1) as nat).spec_rotated(
            SPIRAL_STEP_COS,
            SPIRAL_STEP_SIN,
            DIRECTION_UNIT,
        )
    }
}

/// The distance of body `k` of the spiral from the centre.
pub open spec fn spiral_radius(k: nat, spacing: i64) -> i64 {
    saturate(k * spacing)
}

/// Body `k` of the spiral: at rest, `k` spacings from the centre, `k`
/// angular steps from the positive x axis.
pub open spec fn spiral_body(k: nat, spacing: i64) -> Body {
    Body {
        position: spiral_direction(k).spec_times_ratio(spiral_radius(k, spacing), DIRECTION_UNIT),
        mass: SPIRAL_MASS,
        speed: Vec2::spec_zero(),
        acceleration: Vec2::spec_zero(),
        density: SPIRAL_DENSITY,
    }
}

/// The first `count` bodies of the spiral.
pub open spec fn spiral_cluster(count: nat, spacing: i64) -> Seq<Body> {
    Seq::new(count, |k: int| spiral_body(k as nat, spacing))
}

/// Places `num_bodies` bodies at rest on an expanding spiral: each one a
/// further `average_spacing` from the centre and a further angular step
/// round it than the one before.
pub fn create_spiral_cluster(num_bodies: usize, average_spacing: i64) -> (bodies: Vec<Body>)
    ensures
        bodies@ == spiral_cluster(num_bodies as nat, average_spacing),
        bodies@.len() == num_bodies,
        ready(bodies@),
{
    let mut bodies: Vec<Body> = Vec::new();
    let mut direction = Vec2::new(DIRECTION_UNIT, 0);
    let mut radius: i64 = 0;
    let mut k: usize = 0;
    while k < num_bodies
        invariant
            k <= num_bodies,
            bodies@.len() == k,
            direction == spiral_direction(k as nat),
            radius == spiral_radius(k as nat, average_spacing),
            forall|b: int|
                0 <= b < k ==> #[trigger] bodies@[b] == spiral_body(b as nat, average_spacing),
        decreases num_bodies - k,
    {
        let position = direction.times_ratio(radius, DIRECTION_UNIT);
        bodies.push(Body::new_sp(position, SPIRAL_MASS, Vec2::zero(), SPIRAL_DENSITY));
        proof {
            lemma_radius_step(k as nat, average_spacing);
        }
        direction = direction.rotated(SPIRAL_STEP_COS, SPIRAL_STEP_SIN, DIRECTION_UNIT);
        radius = sum(radius, average_spacing);
        k += 1;
    }
    assert(bodies@ =~= spiral_cluster(num_bodies as nat, average_spacing));
    bodies
}

/// Adding one spacing to a saturated radius gives the next saturated
/// radius.
proof fn lemma_radius_step(k: nat, spacing: i64)
    ensures
        saturate(spiral_radius(k, spacing) + spacing) == spiral_radius(k + 1, spacing),
{
    assert((k + 1) * spacing == k * spacing + spacing) by (nonlinear_arith);
    assert(spacing >= 0 ==> k * spacing >= 0) by (nonlinear_arith)
        requires
            k >= 0,
    ;
    assert(spacing <= 0 ==> k * spacing <= 0) by (nonlinear_arith)
        requires
            k >= 0,
    ;
}

/// What one turn of the spiral can take from the squared length of a
/// direction: the amount by which the squares of the cosine and the sine
/// fall short of the squared unit, and the rounding of both components.
const TURN_LOSS: i64 = 5_000_000_000_000_000_000;

/// A quotient rounded toward zero and clamped, times its divisor, is no
/// larger in magnitude than the dividend.
proof fn lemma_clamped_quotient_square(n: int, d: int)
    requires
        d > 0,
    ensures
        (saturate(trunc_div(n, d)) * saturate(trunc_div(n, d))) * (d * d) <= n * n,
{
    let t = trunc_div(n, d);
    let q = saturate(t) as int;
    lemma_trunc_div_bounds(n, d);
    vstd::arithmetic::div_mod::lemma_fundamental_div_mod(n, d);
    vstd::arithmetic::div_mod::lemma_fundamental_div_mod(-n, d);
    vstd::arithmetic::div_mod::lemma_mod_bound(n, d);
    vstd::arithmetic::div_mod::lemma_mod_bound(-n, d);
    if n >= 0 {
        vstd::arithmetic::div_mod::lemma_div_pos_is_pos(n, d);
        assert(0 <= q <= t);
        assert(0 <= q * d <= n) by (nonlinear_arith)
            requires
                0 <= q <= t,
                d > 0,
                n == d * t + n % d,
                0 <= n % d,
        ;
        assert((q * q) * (d * d) <= n * n) by (nonlinear_arith)
            requires
                0 <= q * d <= n,
        ;
    } else {
        vstd::arithmetic::div_mod::lemma_div_pos_is_pos(-n, d);
        let m = (-n) / d;
        assert(t == -m);
        assert(-m <= q <= 0);
        assert(n <= q * d <= 0) by (nonlinear_arith)
            requires
                -m <= q <= 0,
                d > 0,
                -n == d * m + (-n) % d,
                0 <= (-n) % d,
        ;
        assert((q * q) * (d * d) <= n * n) by (nonlinear_arith)
            requires
                n <= q * d <= 0,
        ;
    }
}

/// The product of two sums of two squares is a sum of two squares.
proof fn lemma_sum_of_two_squares(x: int, y: int, c: int, s: int)
    ensures
        (x * c - y * s) * (x * c - y * s) + (x * s + y * c) * (x * s + y * c) == (x * x + y * y)
            * (c * c + s * s),
{
    let (xc, ys, xs, yc) = (x * c, y * s, x * s, y * c);
    assert((xc - ys) * (xc - ys) == xc * xc - 2 * (xc * ys) + ys * ys) by (nonlinear_arith);
    assert((xs + yc) * (xs + yc) == xs * xs + 2 * (xs * yc) + yc * yc) by (nonlinear_arith);
    assert(xc * ys == xs * yc) by (nonlinear_arith)
        requires
            xc == x * c,
            ys == y * s,
            xs == x * s,
            yc == y * c,
    ;
    assert(xc * xc == (x * x) * (c * c)) by (nonlinear_arith)
        requires
            xc == x * c,
    ;
    assert(ys * ys == (y * y) * (s * s)) by (nonlinear_arith)
        requires
            ys == y * s,
    ;
    assert(xs * xs == (x * x) * (s * s)) by (nonlinear_arith)
        requires
            xs == x * s,
    ;
    assert(yc * yc == (y * y) * (c * c)) by (nonlinear_arith)
        requires
            yc == y * c,
    ;
    let (xx, yy, cc, ss) = (x * x, y * y, c * c, s * s);
    assert((xx + yy) * (cc + ss) == xx * cc + yy * ss + xx * ss + yy * cc) by (nonlinear_arith);
}

/// Turning a vector by an angle whose cosine and sine have squares summing
/// to at most the square of their unit does not lengthen it beyond that
/// unit.
proof fn lemma_rotation_keeps_unit(v: Vec2, cos: i64, sin: i64, unit: i64)
    requires
        unit > 0,
        cos * cos + sin * sin <= unit * unit,
        v.spec_norm2() <= unit * unit,
    ensures
        v.spec_rotated(cos, sin, unit).spec_norm2() <= unit * unit,
{
    let (x, y, c, s, u) = (v.x as int, v.y as int, cos as int, sin as int, unit as int);
    let a = x * c - y * s;
    let b = x * s + y * c;
    let r = v.spec_rotated(cos, sin, unit);
    let (p, q) = (r.x as int, r.y as int);
    lemma_clamped_quotient_square(a, u);
    lemma_clamped_quotient_square(b, u);
    lemma_sum_of_two_squares(x, y, c, s);
    let uu = u * u;
    assert(uu > 0) by (nonlinear_arith)
        requires
            uu == u * u,
            u > 0,
    ;
    assert(x * x >= 0 && y * y >= 0 && c * c >= 0 && s * s >= 0) by (nonlinear_arith);
    assert((x * x + y * y) * (c * c + s * s) <= uu * uu) by (nonlinear_arith)
        requires
            0 <= x * x + y * y <= uu,
            0 <= c * c + s * s <= uu,
    ;
    assert(p * p + q * q <= uu) by (nonlinear_arith)
        requires
            (p * p) * uu <= a * a,
            (q * q) * uu <= b * b,
            a * a + b * b <= uu * uu,
            uu > 0,
    ;
}

/// Every direction of the spiral is at most one unit long.
proof fn lemma_direction_within_unit(k: nat)
    ensures
        spiral_direction(k).spec_norm2() <= DIRECTION_UNIT * DIRECTION_UNIT,
    decreases k,
{
    if k == 0 {
        assert(DIRECTION_UNIT * DIRECTION_UNIT + 0 * 0 <= DIRECTION_UNIT * DIRECTION_UNIT);
    } else {
        lemma_direction_within_unit((k - 1) as nat);
        assert(SPIRAL_STEP_COS * SPIRAL_STEP_COS + SPIRAL_STEP_SIN * SPIRAL_STEP_SIN
            <= DIRECTION_UNIT * DIRECTION_UNIT) by (nonlinear_arith)
            requires
                SPIRAL_STEP_COS == 408_082_061_813_391_986,
                SPIRAL_STEP_SIN == 912_945_250_727_627_654,
                DIRECTION_UNIT == 1_000_000_000_000_000_000,
        ;
        lemma_rotation_keeps_unit(
            spiral_direction((k - 1) as nat),
            SPIRAL_STEP_COS,
            SPIRAL_STEP_SIN,
            DIRECTION_UNIT,
        );
    }
}

/// Body `k` of the spiral lies no further from the centre than its radius
/// of `k` spacings.
pub proof fn lemma_spiral_body_within_radius(k: nat, spacing: i64)
    ensures
        spiral_body(k, spacing).position.spec_norm2() <= spiral_radius(k, spacing) * spiral_radius(
            k,
            spacing,
        ),
{
    let d = spiral_direction(k);
    let r = spiral_radius(k, spacing) as int;
    let u = DIRECTION_UNIT as int;
    let position = spiral_body(k, spacing).position;
    let (p, q) = (position.x as int, position.y as int);
    lemma_direction_within_unit(k);
    lemma_clamped_quotient_square(d.x * r, u);
    lemma_clamped_quotient_square(d.y * r, u);
    let uu = u * u;
    assert(uu > 0) by (nonlinear_arith)
        requires
            uu == u * u,
            u > 0,
    ;
    let (x, y) = (d.x as int, d.y as int);
    assert((x * r) * (x * r) + (y * r) * (y * r) == (x * x + y * y) * (r * r))
        by (nonlinear_arith);
    assert((x * x + y * y) * (r * r) <= uu * (r * r)) by (nonlinear_arith)
        requires
            x * x + y * y <= uu,
    ;
    assert(p * p + q * q <= r * r) by (nonlinear_arith)
        requires
            (p * p) * uu <= (x * r) * (x * r),
            (q * q) * uu <= (y * r) * (y * r),
            (x * r) * (x * r) + (y * r) * (y * r) <= uu * (r * r),
            uu > 0,
    ;
}

/// A quotient that cannot saturate loses, squared and scaled back, at most
/// twice the bound on its dividend times the divisor.
proof fn lemma_quotient_square_lower(n: int, d: int, bound: int)
    requires
        d > 0,
        -bound <= n <= bound,
        bound <= d * 0x7fff_ffff_ffff_ffff,
    ensures
        (saturate(trunc_div(n, d)) * saturate(trunc_div(n, d))) * (d * d) >= n * n - 2 * (bound
            * d),
{
    let t = trunc_div(n, d);
    lemma_trunc_div_magnitude(n, bound, d);
    assert(bound / d <= 0x7fff_ffff_ffff_ffff) by {
        vstd::arithmetic::div_mod::lemma_fundamental_div_mod(bound, d);
        vstd::arithmetic::div_mod::lemma_mod_bound(bound, d);
        let k = bound / d;
        assert(k <= 0x7fff_ffff_ffff_ffff) by (nonlinear_arith)
            requires
                bound == d * k + bound % d,
                0 <= bound % d,
                bound <= d * 0x7fff_ffff_ffff_ffff,
                d > 0,
        ;
    }
    let q = saturate(t) as int;
    assert(q == t);
    lemma_trunc_div_bounds(n, d);
    let e = n - d * t;
    assert((q * q) * (d * d) >= n * n - 2 * (bound * d)) by (nonlinear_arith)
        requires
            q == t,
            e == n - d * t,
            -d < e < d,
            -bound <= n <= bound,
            d > 0,
    ;
}

/// A number whose square is at most the square of a positive bound is
/// within the bound.
proof fn lemma_within_root(n: int, bound: int)
    by (nonlinear_arith)
    requires
        bound > 0,
        n * n <= bound * bound,
    ensures
        -bound <= n <= bound,
{
}

/// One turn of the spiral shortens the squared length of a direction by at
/// most `TURN_LOSS`.
proof fn lemma_turn_loses_little(v: Vec2)
    requires
        v.spec_norm2() <= DIRECTION_UNIT * DIRECTION_UNIT,
    ensures
        v.spec_rotated(SPIRAL_STEP_COS, SPIRAL_STEP_SIN, DIRECTION_UNIT).spec_norm2()
            >= v.spec_norm2() - TURN_LOSS,
{
    let (x, y) = (v.x as int, v.y as int);
    let (c, s, u) = (SPIRAL_STEP_COS as int, SPIRAL_STEP_SIN as int, DIRECTION_UNIT as int);
    let a = x * c - y * s;
    let b = x * s + y * c;
    let r = v.spec_rotated(SPIRAL_STEP_COS, SPIRAL_STEP_SIN, DIRECTION_UNIT);
    let (p, q) = (r.x as int, r.y as int);
    let uu = u * u;
    let n = x * x + y * y;
    assert(uu == 1_000_000_000_000_000_000_000_000_000_000_000_000) by (nonlinear_arith)
        requires
            uu == u * u,
            u == 1_000_000_000_000_000_000,
    ;
    assert(c * c + s * s == uu - 737_538_182_245_432_088) by (nonlinear_arith)
        requires
            c == 408_082_061_813_391_986,
            s == 912_945_250_727_627_654,
            uu == 1_000_000_000_000_000_000_000_000_000_000_000_000,
    ;
    lemma_sum_of_two_squares(x, y, c, s);
    assert(x * x >= 0 && y * y >= 0 && a * a >= 0 && b * b >= 0) by (nonlinear_arith);
    assert(a * a + b * b <= uu * uu && a * a + b * b >= n * uu - uu * 737_538_182_245_432_088)
        by (nonlinear_arith)
        requires
            a * a + b * b == n * (uu - 737_538_182_245_432_088),
            0 <= n <= uu,
            uu > 737_538_182_245_432_088,
    ;
    lemma_within_root(a, uu);
    lemma_within_root(b, uu);
    assert(uu <= u * 0x7fff_ffff_ffff_ffff) by (nonlinear_arith)
        requires
            uu == u * u,
            0 < u <= 0x7fff_ffff_ffff_ffff,
    ;
    lemma_quotient_square_lower(a, u, uu);
    lemma_quotient_square_lower(b, u, uu);
    assert(p * p + q * q >= n - 5_000_000_000_000_000_000) by (nonlinear_arith)
        requires
            (p * p) * uu >= a * a - 2 * (uu * u),
            (q * q) * uu >= b * b - 2 * (uu * u),
            a * a + b * b >= n * uu - uu * 737_538_182_245_432_088,
            u == 1_000_000_000_000_000_000,
            uu == 1_000_000_000_000_000_000_000_000_000_000_000_000,
    ;
}

/// The squared length of a direction of the spiral falls short of the
/// squared unit by at most `TURN_LOSS` per turn.
proof fn lemma_direction_nearly_unit(k: nat)
    ensures
        spiral_direction(k).spec_norm2() >= DIRECTION_UNIT * DIRECTION_UNIT - k * TURN_LOSS,
    decreases k,
{
    if k == 0 {
        assert(0 * TURN_LOSS == 0);
        assert(spiral_direction(0).spec_norm2() == DIRECTION_UNIT * DIRECTION_UNIT + 0 * 0);
    } else {
        let before = (k - 1) as nat;
        lemma_direction_nearly_unit(before);
        lemma_direction_within_unit(before);
        lemma_turn_loses_little(spiral_direction(before));
        assert(k * TURN_LOSS == before * TURN_LOSS + TURN_LOSS) by (nonlinear_arith)
            requires
                k == before + 1,
        ;
    }
}

/// Body `k` of the spiral lies no nearer to the centre than its radius of
/// `k` spacings less three steps of a position: the square of its distance
/// is at least the square of the radius less six times the radius. This
/// holds as long as `k` times the radius is within four hundred thousand
/// million million steps, as it is for a hundred thousand bodies forty
/// units apart.
pub proof fn lemma_spiral_body_near_radius(k: nat, spacing: i64)
    requires
        -400_000_000_000_000_000 <= k * spiral_radius(k, spacing) <= 400_000_000_000_000_000,
    ensures
        spiral_body(k, spacing).position.spec_norm2() >= spiral_radius(k, spacing) * spiral_radius(
            k,
            spacing,
        ) - 6 * vstd::math::abs(spiral_radius(k, spacing) as int),
{
    let d = spiral_direction(k);
    let r = spiral_radius(k, spacing) as int;
    let m = if r >= 0 {
        r
    } else {
        -r
    };
    let u = DIRECTION_UNIT as int;
    let uu = u * u;
    let loss = TURN_LOSS as int;
    let position = spiral_body(k, spacing).position;
    let (p, q) = (position.x as int, position.y as int);
    let (x, y) = (d.x as int, d.y as int);
    let n = x * x + y * y;
    lemma_direction_within_unit(k);
    lemma_direction_nearly_unit(k);
    assert(uu == 1_000_000_000_000_000_000_000_000_000_000_000_000) by (nonlinear_arith)
        requires
            uu == u * u,
            u == 1_000_000_000_000_000_000,
    ;
    assert(x * x >= 0 && y * y >= 0) by (nonlinear_arith);
    lemma_within_root(x, u);
    lemma_within_root(y, u);
    assert(-(u * m) <= x * r <= u * m && -(u * m) <= y * r <= u * m && u * m <= u
        * 0x7fff_ffff_ffff_ffff) by (nonlinear_arith)
        requires
            -u <= x <= u,
            -u <= y <= u,
            -m <= r <= m,
            r == m || r == -m,
            0 <= m <= 0x7fff_ffff_ffff_ffff,
            u > 0,
    ;
    lemma_quotient_square_lower(x * r, u, u * m);
    lemma_quotient_square_lower(y * r, u, u * m);
    assert((x * r) * (x * r) + (y * r) * (y * r) == n * (r * r)) by (nonlinear_arith)
        requires
            n == x * x + y * y,
    ;
    assert(k * m <= 400_000_000_000_000_000) by (nonlinear_arith)
        requires
            -400_000_000_000_000_000 <= k * r <= 400_000_000_000_000_000,
            r == m || r == -m,
    ;
    let spread = k * loss;
    assert(0 <= spread * m <= 2 * uu) by (nonlinear_arith)
        requires
            spread == k * loss,
            k * m <= 400_000_000_000_000_000,
            loss == 5_000_000_000_000_000_000,
            uu == 1_000_000_000_000_000_000_000_000_000_000_000_000,
            k >= 0,
            m >= 0,
    ;
    let mm = m * m;
    assert(r * r == mm && mm >= 0) by (nonlinear_arith)
        requires
            r == m || r == -m,
            mm == m * m,
    ;
    let (pp, qq) = (p * p, q * q);
    let uum = uu * m;
    assert((u * m) * u == uum) by (nonlinear_arith)
        requires
            uum == (u * u) * m,
    ;
    assert(n * mm >= uu * mm - spread * mm) by (nonlinear_arith)
        requires
            n >= uu - spread,
            mm >= 0,
    ;
    assert(spread * mm <= 2 * uum) by (nonlinear_arith)
        requires
            mm == m * m,
            uum == uu * m,
            0 <= spread * m <= 2 * uu,
            m >= 0,
    ;
    assert((pp + qq) * uu == pp * uu + qq * uu && (mm - 6 * m) * uu == uu * mm - 6 * uum)
        by (nonlinear_arith)
        requires
            uum == uu * m,
    ;
    assert((p * p + q * q) * uu >= (m * m - 6 * m) * uu);
    assert(p * p + q * q >= m * m - 6 * m) by (nonlinear_arith)
        requires
            (p * p + q * q) * uu >= (m * m - 6 * m) * uu,
            uu > 0,
    ;
}

} // verus!
