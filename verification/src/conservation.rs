//! Conservation of momentum.
//!
//! Pulls come in exactly opposite pairs, so the pulls on all the bodies of
//! a step sum to nothing. Each body's gain in speed is rounded toward zero
//! on its own, which moves the sum of the speeds by less than one stored
//! step per body and step. A pull does not depend on the mass of the body
//! it acts on, so it is the sum of the speeds that is conserved; where all
//! the bodies have the same mass, the total momentum is that mass times the
//! sum of the speeds and is conserved with it.

use crate::body::{lemma_pull_antisymmetric, lemma_pull_bounded, pull_limit, Body, GRAVITY};
use crate::fixed::{lemma_trunc_div_bounds, lemma_trunc_div_magnitude, trunc_div, LIMIT, SCALE};
use crate::simulation::{lemma_step_invariants, net_pull, stepped, TIME_STEP};
use crate::spiral::{spiral_cluster, SPIRAL_MASS};
use crate::vector::Vec2;
use vstd::prelude::*;

verus! {

/// The horizontal or the vertical component of a vector.
pub open spec fn component(v: Vec2, vertical: bool) -> int {
    if vertical {
        v.y as int
    } else {
        v.x as int
    }
}

/// One component of the speeds of the first `n` bodies, summed.
pub open spec fn speed_sum(bodies: Seq<Body>, n: nat, vertical: bool) -> int
    decreases n,
{
    if n == 0 {
        0
    } else {
        speed_sum(bodies, (n - 1) as nat, vertical) + component(bodies[n - 1].speed, vertical)
    }
}

/// One component of the sum of the speeds of all the bodies.
pub open spec fn total_speed(bodies: Seq<Body>, vertical: bool) -> int {
    speed_sum(bodies, bodies.len(), vertical)
}

/// One component of the momentum of the first `n` bodies: the sum of their
/// masses times their speeds.
pub open spec fn momentum(bodies: Seq<Body>, n: nat, vertical: bool) -> int
    decreases n,
{
    if n == 0 {
        0
    } else {
        momentum(bodies, (n - 1) as nat, vertical) + bodies[n - 1].mass * component(
            bodies[n - 1].speed,
            vertical,
        )
    }
}

/// One component of the momentum of all the bodies.
pub open spec fn total_momentum(bodies: Seq<Body>, vertical: bool) -> int {
    momentum(bodies, bodies.len(), vertical)
}

/// One component of what the first `m` bodies, other than body `k`,
/// contribute to the acceleration of body `k`, summed without saturation.
pub open spec fn exact_net_pull(bodies: Seq<Body>, k: int, m: nat, vertical: bool) -> int
    decreases m,
{
    if m == 0 {
        0
    } else {
        exact_net_pull(bodies, k, (m - 1) as nat, vertical) + if m - 1 == k {
            0
        } else {
            component(bodies[k].pull_toward(bodies[m - 1]), vertical)
        }
    }
}

/// A step of length `dt` in which no body's accumulated acceleration and
/// no body's new speed saturates.
pub open spec fn step_never_saturates(bodies: Seq<Body>, dt: i64) -> bool {
    forall|k: int, vertical: bool|
        0 <= k < bodies.len() ==> {
            let pull = #[trigger] exact_net_pull(bodies, k, bodies.len(), vertical);
            &&& component(net_pull(bodies, k, bodies.len()), vertical) == pull
            &&& component(stepped(bodies, dt)[k].speed, vertical) == component(
                bodies[k].speed,
                vertical,
            ) + trunc_div(pull * dt, SCALE as int)
        }
}

/// Bodies light and slow enough for a step of length `dt` without
/// saturation: none
/// is heavier than `heaviest`, the pulls of all of them together stay
/// within the stored range, and every speed leaves room for the gain of
/// one step.
pub open spec fn within_reach(bodies: Seq<Body>, dt: i64, heaviest: i64) -> bool {
    let reach = bodies.len() * pull_limit(heaviest as int, heaviest as int);
    let gain = reach * dt / (SCALE as int);
    &&& dt > 0
    &&& reach <= LIMIT
    &&& forall|k: int|
        0 <= k < bodies.len() ==> {
            &&& (#[trigger] bodies[k]).well_formed()
            &&& bodies[k].mass <= heaviest
            &&& -(LIMIT - gain) <= bodies[k].speed.x <= LIMIT - gain
            &&& -(LIMIT - gain) <= bodies[k].speed.y <= LIMIT - gain
        }
}

/// The bodies after `steps` steps of length `dt`.
pub open spec fn after_steps(bodies: Seq<Body>, dt: i64, steps: nat) -> Seq<Body>
    decreases steps,
{
    if steps == 0 {
        bodies
    } else {
        stepped(after_steps(bodies, dt, (steps - 1) as nat), dt)
    }
}

/// One component of the pulls of body `m` on the first `j` bodies, summed.
spec fn pulls_of(bodies: Seq<Body>, m: int, j: nat, vertical: bool) -> int
    decreases j,
{
    if j == 0 {
        0
    } else {
        pulls_of(bodies, m, (j - 1) as nat, vertical) + component(
            bodies[j - 1].pull_toward(bodies[m]),
            vertical,
        )
    }
}

/// One component of the pulls of the first `m` bodies on the first `j`
/// bodies, summed without saturation.
pub open spec fn pulls_among(bodies: Seq<Body>, j: nat, m: nat, vertical: bool) -> int
    decreases j,
{
    if j == 0 {
        0
    } else {
        pulls_among(bodies, (j - 1) as nat, m, vertical) + exact_net_pull(
            bodies,
            j - 1,
            m,
            vertical,
        )
    }
}

/// One component of the speed that the first `j` bodies gain in a step,
/// each gain rounded on its own.
spec fn speed_gain(bodies: Seq<Body>, j: nat, dt: i64, vertical: bool) -> int
    decreases j,
{
    if j == 0 {
        0
    } else {
        speed_gain(bodies, (j - 1) as nat, dt, vertical) + trunc_div(
            exact_net_pull(bodies, j - 1, bodies.len(), vertical) * dt,
            SCALE as int,
        )
    }
}

/// What the bodies before `m` do to body `m` undoes what body `m` does to
/// them.
proof fn lemma_pulls_on_undo_pulls_of(bodies: Seq<Body>, m: int, j: nat, vertical: bool)
    requires
        j <= m,
    ensures
        exact_net_pull(bodies, m, j, vertical) == -pulls_of(bodies, m, j, vertical),
    decreases j,
{
    if j > 0 {
        lemma_pulls_on_undo_pulls_of(bodies, m, (j - 1) as nat, vertical);
        lemma_pull_antisymmetric(bodies[m], bodies[j - 1]);
    }
}

/// One more body adds its pulls on the bodies before it.
proof fn lemma_pulls_among_grow(bodies: Seq<Body>, j: nat, m: nat, vertical: bool)
    requires
        j <= m,
    ensures
        pulls_among(bodies, j, m + 1, vertical) == pulls_among(bodies, j, m, vertical) + pulls_of(
            bodies,
            m as int,
            j,
            vertical,
        ),
    decreases j,
{
    if j > 0 {
        lemma_pulls_among_grow(bodies, (j - 1) as nat, m, vertical);
    }
}

/// Newton's third law for the whole: the pulls among any number of bodies
/// sum to nothing.
pub proof fn lemma_pulls_among_cancel(bodies: Seq<Body>, m: nat, vertical: bool)
    ensures
        pulls_among(bodies, m, m, vertical) == 0,
    decreases m,
{
    if m > 0 {
        let before = (m - 1) as nat;
        lemma_pulls_among_cancel(bodies, before, vertical);
        lemma_pulls_among_grow(bodies, before, before, vertical);
        lemma_pulls_on_undo_pulls_of(bodies, before as int, before, vertical);
    }
}

/// Rounding each gain in speed on its own moves their sum by less than one
/// stored step per body.
proof fn lemma_speed_gain_rounding(bodies: Seq<Body>, j: nat, dt: i64, vertical: bool)
    ensures
        -(j * (SCALE - 1)) <= SCALE * speed_gain(bodies, j, dt, vertical) - dt * pulls_among(
            bodies,
            j,
            bodies.len(),
            vertical,
        ) <= j * (SCALE - 1),
    decreases j,
{
    if j > 0 {
        let before = (j - 1) as nat;
        lemma_speed_gain_rounding(bodies, before, dt, vertical);
        let pull = exact_net_pull(bodies, j - 1, bodies.len(), vertical);
        let gain = trunc_div(pull * dt, SCALE as int);
        lemma_trunc_div_bounds(pull * dt, SCALE as int);
        let sum_before = pulls_among(bodies, before, bodies.len(), vertical);
        let gain_before = speed_gain(bodies, before, dt, vertical);
        assert(dt * (sum_before + pull) == dt * sum_before + pull * dt) by (nonlinear_arith);
        assert(SCALE * (gain_before + gain) == SCALE * gain_before + SCALE * gain)
            by (nonlinear_arith);
    }
}

/// A pull between two bodies is no larger than one between two of the
/// heaviest.
proof fn lemma_pull_limit_grows(m1: int, m2: int, heaviest: int)
    requires
        0 < m1 <= heaviest,
        0 < m2 <= heaviest,
    ensures
        0 <= pull_limit(m1, m2) <= pull_limit(heaviest, heaviest),
{
    let gravity = GRAVITY as int;
    assert(0 <= gravity * m1 * m2 <= gravity * heaviest * heaviest) by (nonlinear_arith)
        requires
            0 < m1 <= heaviest,
            0 < m2 <= heaviest,
            gravity > 0,
    ;
    vstd::arithmetic::div_mod::lemma_div_is_ordered(
        gravity * m1 * m2,
        gravity * heaviest * heaviest,
        SCALE as int,
    );
    vstd::arithmetic::div_mod::lemma_div_pos_is_pos(gravity * m1 * m2, SCALE as int);
}

/// Among bodies no heavier than `heaviest`, the pulls of the first `m` of
/// them on body `k` sum to at most `m` times the limit of one pull, and
/// summing them with saturation gives the same as summing them exactly
/// wherever that bound is within the stored range.
proof fn lemma_net_pull_bounded(bodies: Seq<Body>, k: int, m: nat, heaviest: i64, vertical: bool)
    requires
        0 <= k < bodies.len(),
        m <= bodies.len(),
        forall|b: int|
            0 <= b < bodies.len() ==> (#[trigger] bodies[b]).well_formed() && bodies[b].mass
                <= heaviest,
    ensures
        -(m * pull_limit(heaviest as int, heaviest as int)) <= exact_net_pull(
            bodies,
            k,
            m,
            vertical,
        ) <= m * pull_limit(heaviest as int, heaviest as int),
        m * pull_limit(heaviest as int, heaviest as int) <= LIMIT ==> component(
            net_pull(bodies, k, m),
            vertical,
        ) == exact_net_pull(bodies, k, m, vertical),
    decreases m,
{
    let limit = pull_limit(heaviest as int, heaviest as int);
    lemma_pull_limit_grows(bodies[k].mass as int, bodies[k].mass as int, heaviest as int);
    if m == 0 {
        assert(0 * limit == 0);
    } else {
        let before = (m - 1) as nat;
        lemma_net_pull_bounded(bodies, k, before, heaviest, vertical);
        assert(m * limit == before * limit + limit) by (nonlinear_arith)
            requires
                m == before + 1,
        ;
        if before != k {
            lemma_pull_bounded(bodies[k], bodies[before as int]);
            lemma_pull_limit_grows(
                bodies[k].mass as int,
                bodies[before as int].mass as int,
                heaviest as int,
            );
        }
    }
}

/// Bodies within reach step without saturation: no accumulated
/// acceleration and no new speed reaches the limit of the stored range.
pub proof fn lemma_within_reach_never_saturates(bodies: Seq<Body>, dt: i64, heaviest: i64)
    requires
        within_reach(bodies, dt, heaviest),
    ensures
        step_never_saturates(bodies, dt),
{
    let n = bodies.len();
    let limit = pull_limit(heaviest as int, heaviest as int);
    let reach = n * limit;
    assert forall|k: int, vertical: bool| 0 <= k < n implies {
        let pull = #[trigger] exact_net_pull(bodies, k, n, vertical);
        &&& component(net_pull(bodies, k, n), vertical) == pull
        &&& component(stepped(bodies, dt)[k].speed, vertical) == component(
            bodies[k].speed,
            vertical,
        ) + trunc_div(pull * dt, SCALE as int)
    } by {
        lemma_net_pull_bounded(bodies, k, n, heaviest, vertical);
        let pull = exact_net_pull(bodies, k, n, vertical);
        assert(-(reach * dt) <= pull * dt <= reach * dt) by (nonlinear_arith)
            requires
                -reach <= pull <= reach,
                dt > 0,
        ;
        lemma_trunc_div_magnitude(pull * dt, reach * dt, SCALE as int);
        assert(bodies[k].well_formed());
    }
}

/// Where nothing saturates, the speeds of the first `j` bodies grow by
/// their rounded gains.
proof fn lemma_speed_sum_gain(bodies: Seq<Body>, j: nat, dt: i64, vertical: bool)
    requires
        j <= bodies.len(),
        step_never_saturates(bodies, dt),
    ensures
        speed_sum(stepped(bodies, dt), j, vertical) == speed_sum(bodies, j, vertical)
            + speed_gain(bodies, j, dt, vertical),
    decreases j,
{
    if j > 0 {
        lemma_speed_sum_gain(bodies, (j - 1) as nat, dt, vertical);
        let pull = exact_net_pull(bodies, j - 1, bodies.len(), vertical);
        assert(component(stepped(bodies, dt)[j - 1].speed, vertical) == component(
            bodies[j - 1].speed,
            vertical,
        ) + trunc_div(pull * dt, SCALE as int));
    }
}

/// The momentum of bodies of one common mass is that mass times the sum of
/// their speeds.
proof fn lemma_momentum_of_equal_masses(bodies: Seq<Body>, j: nat, mass: i64, vertical: bool)
    requires
        j <= bodies.len(),
        forall|k: int| 0 <= k < bodies.len() ==> (#[trigger] bodies[k]).mass == mass,
    ensures
        momentum(bodies, j, vertical) == mass * speed_sum(bodies, j, vertical),
    decreases j,
{
    if j > 0 {
        lemma_momentum_of_equal_masses(bodies, (j - 1) as nat, mass, vertical);
        let before = speed_sum(bodies, (j - 1) as nat, vertical);
        let speed = component(bodies[j - 1].speed, vertical);
        assert(mass * (before + speed) == mass * before + mass * speed) by (nonlinear_arith);
    } else {
        assert(mass * 0 == 0);
    }
}

/// Conservation of the sum of the speeds over one step, whatever the
/// masses. In a step in which nothing saturates, either component of the
/// sum of the speeds changes by at most one stored step per body: the
/// pulls cancel exactly, and what remains is the rounding of each body's
/// gain in speed.
pub proof fn lemma_total_speed_conserved(bodies: Seq<Body>, dt: i64, vertical: bool)
    requires
        step_never_saturates(bodies, dt),
    ensures
        -bodies.len() <= total_speed(stepped(bodies, dt), vertical) - total_speed(
            bodies,
            vertical,
        ) <= bodies.len(),
{
    let n = bodies.len();
    lemma_speed_sum_gain(bodies, n, dt, vertical);
    lemma_speed_gain_rounding(bodies, n, dt, vertical);
    lemma_pulls_among_cancel(bodies, n, vertical);
    let gain = speed_gain(bodies, n, dt, vertical);
    assert(dt * 0 == 0);
    assert(-n <= gain <= n) by (nonlinear_arith)
        requires
            -(n * (SCALE - 1)) <= SCALE * gain <= n * (SCALE - 1),
            SCALE == 1_000_000,
    ;
}

/// Conservation of momentum over one step. For bodies of one common mass,
/// and a step in which nothing saturates, either component of the total
/// momentum changes by at most the common mass times the number of bodies.
pub proof fn lemma_momentum_conserved(bodies: Seq<Body>, dt: i64, mass: i64, vertical: bool)
    requires
        forall|k: int|
            0 <= k < bodies.len() ==> (#[trigger] bodies[k]).well_formed() && bodies[k].mass
                == mass,
        step_never_saturates(bodies, dt),
    ensures
        -(mass * bodies.len()) <= total_momentum(stepped(bodies, dt), vertical) - total_momentum(
            bodies,
            vertical,
        ) <= mass * bodies.len(),
{
    let n = bodies.len();
    let after = stepped(bodies, dt);
    lemma_total_speed_conserved(bodies, dt, vertical);
    lemma_momentum_of_equal_masses(bodies, n, mass, vertical);
    lemma_momentum_of_equal_masses(after, n, mass, vertical);
    let (s0, s1) = (total_speed(bodies, vertical), total_speed(after, vertical));
    if n > 0 {
        assert(-(mass * n) <= mass * s1 - mass * s0 <= mass * n) by (nonlinear_arith)
            requires
                -n <= s1 - s0 <= n,
                mass > 0,
        ;
    } else {
        assert(mass * n == 0) by (nonlinear_arith)
            requires
                n == 0,
        ;
    }
}

/// Conservation of the sum of the speeds over any number of steps,
/// whatever the masses. As long as nothing saturates, either component of
/// the sum of the speeds after `steps` steps differs from the one at the
/// start by at most the number of bodies times `steps`.
pub proof fn lemma_total_speed_conserved_over_steps(
    bodies: Seq<Body>,
    dt: i64,
    steps: nat,
    vertical: bool,
)
    requires
        forall|t: nat| t < steps ==> step_never_saturates(#[trigger] after_steps(bodies, dt, t), dt),
    ensures
        after_steps(bodies, dt, steps).len() == bodies.len(),
        forall|k: int|
            0 <= k < bodies.len() ==> (#[trigger] after_steps(bodies, dt, steps)[k]).mass
                == bodies[k].mass && after_steps(bodies, dt, steps)[k].density
                == bodies[k].density,
        -(bodies.len() * steps) <= total_speed(after_steps(bodies, dt, steps), vertical)
            - total_speed(bodies, vertical) <= bodies.len() * steps,
    decreases steps,
{
    let n = bodies.len();
    if steps == 0 {
        assert(n * 0 == 0);
    } else {
        let before = (steps - 1) as nat;
        lemma_total_speed_conserved_over_steps(bodies, dt, before, vertical);
        let state = after_steps(bodies, dt, before);
        lemma_step_invariants(state, dt);
        lemma_total_speed_conserved(state, dt, vertical);
        assert(n * steps == n * before + n) by (nonlinear_arith)
            requires
                steps == before + 1,
        ;
    }
}

/// Conservation of momentum over any number of steps. For bodies of one
/// common mass, and as long as nothing saturates, either component of the
/// total momentum after `steps` steps differs from the one at the start by
/// at most the common mass times the number of bodies times `steps`.
pub proof fn lemma_momentum_conserved_over_steps(
    bodies: Seq<Body>,
    dt: i64,
    mass: i64,
    steps: nat,
    vertical: bool,
)
    requires
        forall|k: int|
            0 <= k < bodies.len() ==> (#[trigger] bodies[k]).well_formed() && bodies[k].mass
                == mass,
        forall|t: nat| t < steps ==> step_never_saturates(#[trigger] after_steps(bodies, dt, t), dt),
    ensures
        -(mass * (bodies.len() * steps)) <= total_momentum(
            after_steps(bodies, dt, steps),
            vertical,
        ) - total_momentum(bodies, vertical) <= mass * (bodies.len() * steps),
{
    let n = bodies.len();
    let after = after_steps(bodies, dt, steps);
    lemma_total_speed_conserved_over_steps(bodies, dt, steps, vertical);
    lemma_momentum_of_equal_masses(bodies, n, mass, vertical);
    lemma_momentum_of_equal_masses(after, n, mass, vertical);
    let (s0, s1) = (total_speed(bodies, vertical), total_speed(after, vertical));
    let bound = n * steps;
    if n > 0 {
        assert(-(mass * bound) <= mass * s1 - mass * s0 <= mass * bound) by (nonlinear_arith)
            requires
                -bound <= s1 - s0 <= bound,
                mass > 0,
        ;
    } else {
        assert(bound == 0) by (nonlinear_arith)
            requires
                bound == n * steps,
                n == 0,
        ;
        assert(mass * bound == 0);
    }
}

/// The first step of a spiral of up to seven thousand bodies never
/// saturates, so it leaves either component of the total momentum, which is zero at the
/// start, within the common mass times the number of bodies.
pub proof fn lemma_spiral_first_step(count: nat, spacing: i64, vertical: bool)
    requires
        count <= 7_000,
    ensures
        step_never_saturates(spiral_cluster(count, spacing), TIME_STEP),
        total_momentum(spiral_cluster(count, spacing), vertical) == 0,
        -(SPIRAL_MASS * count) <= total_momentum(
            stepped(spiral_cluster(count, spacing), TIME_STEP),
            vertical,
        ) <= SPIRAL_MASS * count,
{
    let bodies = spiral_cluster(count, spacing);
    let limit = pull_limit(SPIRAL_MASS as int, SPIRAL_MASS as int);
    assert(limit == 1_250_000_000_000_000) by (nonlinear_arith)
        requires
            limit == 50_000_000 * 5_000_000 * 5_000_000 / 1_000_000,
    ;
    let reach = count * limit;
    assert(0 <= reach <= 8_750_000_000_000_000_000 && 0 <= reach * TIME_STEP / (SCALE as int)
        <= 8_750_000_000_000_000) by (nonlinear_arith)
        requires
            reach == count * 1_250_000_000_000_000,
            count <= 7_000,
            TIME_STEP == 1_000,
            SCALE == 1_000_000,
    ;
    assert(within_reach(bodies, TIME_STEP, SPIRAL_MASS));
    lemma_within_reach_never_saturates(bodies, TIME_STEP, SPIRAL_MASS);
    lemma_momentum_conserved(bodies, TIME_STEP, SPIRAL_MASS, vertical);
    lemma_momentum_at_rest(bodies, count, vertical);
}

/// Bodies at rest have no momentum.
proof fn lemma_momentum_at_rest(bodies: Seq<Body>, n: nat, vertical: bool)
    requires
        n <= bodies.len(),
        forall|k: int| 0 <= k < bodies.len() ==> (#[trigger] bodies[k]).speed == Vec2::spec_zero(),
    ensures
        momentum(bodies, n, vertical) == 0,
    decreases n,
{
    if n > 0 {
        lemma_momentum_at_rest(bodies, (n - 1) as nat, vertical);
        assert(bodies[n - 1].mass * 0 == 0);
    }
}

} // verus!
