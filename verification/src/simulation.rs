//! The simulation: a set of bodies advanced by a fixed time step.

use crate::body::{lemma_acceleration_symmetric, lemma_pull_antisymmetric, Body};
use crate::drawing::Circle;
use crate::spiral::{create_spiral_cluster, spiral_cluster};
use crate::vector::Vec2;
use rayon::iter::{IntoParallelIterator, ParallelIterator};
use vstd::prelude::*;

verus! {

/// The length of one step, a thousandth of a time unit.
pub const TIME_STEP: i64 = 1_000;

/// The acceleration that the first `m` bodies, other than body `k` itself,
/// contribute to body `k`: their pulls summed in index order.
pub open spec fn net_pull(bodies: Seq<Body>, k: int, m: nat) -> Vec2
    decreases m,
{
    if m == 0 {
        Vec2::spec_zero()
    } else {
        let before = net_pull(bodies, k, (m - 1) as nat);
        if m - 1 == k {
            before
        } else {
            before.spec_plus(bodies[k].pull_toward(bodies[m - 1]))
        }
    }
}

/// The bodies after one step of length `dt`: every body first receives the
/// pulls of all the others, computed from the positions before the step,
/// and only then is each one integrated.
pub open spec fn stepped(bodies: Seq<Body>, dt: i64) -> Seq<Body> {
    Seq::new(
        bodies.len(),
        |k: int| bodies[k].with_acceleration(net_pull(bodies, k, bodies.len())).integrated(dt),
    )
}

/// Every body is well formed and its accumulator is clear.
pub open spec fn ready(bodies: Seq<Body>) -> bool {
    forall|k: int|
        0 <= k < bodies.len() ==> (#[trigger] bodies[k]).well_formed() && bodies[k].acceleration
            == Vec2::spec_zero()
}

/// What body `i` contributes to each body after it, in index order.
pub open spec fn pull_row(bodies: Seq<Body>, i: int) -> Seq<Vec2> {
    Seq::new((bodies.len() - i - 1) as nat, |t: int| bodies[i + 1 + t].pull_toward(bodies[i]))
}

/// An ordered set of bodies under mutual gravitation.
pub struct Simulation {
    bodies: Vec<Body>,
}

impl View for Simulation {
    type V = Seq<Body>;

    closed spec fn view(&self) -> Seq<Body> {
        self.bodies@
    }
}

impl Simulation {
    /// The invariant between steps.
    pub open spec fn well_formed(&self) -> bool {
        ready(self@)
    }

    /// A simulation of `num_bodies` bodies at rest on an expanding spiral.
    pub fn new(num_bodies: usize, spacing: i64) -> (simulation: Simulation)
        ensures
            simulation@ == spiral_cluster(num_bodies as nat, spacing),
            simulation@.len() == num_bodies,
            simulation.well_formed(),
    {
        Simulation { bodies: create_spiral_cluster(num_bodies, spacing) }
    }

    /// A simulation of the given bodies, if each of them is well formed
    /// and has a clear accumulator.
    pub fn from_bodies(bodies: Vec<Body>) -> (simulation: Option<Simulation>)
        ensures
            simulation is Some <==> ready(bodies@),
            simulation matches Some(s) ==> s@ == bodies@ && s.well_formed(),
    {
        let mut k: usize = 0;
        while k < bodies.len()
            invariant
                k <= bodies.len(),
                forall|b: int|
                    0 <= b < k ==> (#[trigger] bodies@[b]).well_formed() && bodies@[b].acceleration
                        == Vec2::spec_zero(),
            decreases bodies.len() - k,
        {
            if !bodies[k].is_well_formed() || bodies[k].acceleration != Vec2::zero() {
                return None;
            }
            k += 1;
        }
        Some(Simulation { bodies })
    }

    /// The bodies in their current state.
    pub fn bodies(&self) -> (bodies: &Vec<Body>)
        ensures
            bodies@ == self@,
    {
        &self.bodies
    }

    /// A snapshot of the bodies as drawable discs, one per body and in the
    /// order of the bodies. The simulation itself is left as it was.
    pub fn get_bodies_as_circles(&mut self) -> (circles: Vec<Circle>)
        requires
            old(self).well_formed(),
        ensures
            circles@ == old(self)@.map_values(|body: Body| body.spec_to_circle()),
            final(self)@ == old(self)@,
    {
        let mut circles: Vec<Circle> = Vec::new();
        let mut k: usize = 0;
        while k < self.bodies.len()
            invariant
                k <= self.bodies.len(),
                self.bodies@ == old(self).bodies@,
                ready(self.bodies@),
                circles@.len() == k,
                forall|b: int|
                    0 <= b < k ==> #[trigger] circles@[b] == self.bodies@[b].spec_to_circle(),
            decreases self.bodies.len() - k,
        {
            circles.push(self.bodies[k].to_circle());
            k += 1;
        }
        assert(circles@ =~= self.bodies@.map_values(|body: Body| body.spec_to_circle()));
        circles
    }

    /// Advances every body by one time step.
    pub fn update(&mut self)
        requires
            old(self).well_formed(),
        ensures
            final(self)@ == stepped(old(self)@, TIME_STEP),
            final(self).well_formed(),
    {
        let n = self.bodies.len();
        let count = if n == 0 {
            0
        } else {
            n - 1
        };
        // The pulls of every pair, from the positions before the step.
        let rows = rows_in_parallel(&self.bodies, count);
        let ghost start = self.bodies@;
        // Each pull is added to the later body of its pair and, negated, to
        // the earlier one. A body thus meets its partners in index order:
        // those before it while they are `i`, those after it while it is.
        let mut i: usize = 0;
        while i < count
            invariant
                i <= count,
                n == start.len(),
                count == if n == 0 {
                    0
                } else {
                    n - 1
                },
                ready(start),
                rows@.len() == count,
                forall|r: int| 0 <= r < count ==> (#[trigger] rows@[r])@ == pull_row(start, r),
                self.bodies@.len() == n,
                forall|b: int|
                    0 <= b < n ==> #[trigger] self.bodies@[b] == start[b].with_acceleration(
                        net_pull(
                            start,
                            b,
                            if b < i {
                                n as nat
                            } else {
                                i as nat
                            },
                        ),
                    ),
            decreases count - i,
        {
            let row = &rows[i];
            let mut j: usize = i + 1;
            while j < n
                invariant
                    i < count,
                    i < j <= n,
                    n == start.len(),
                    ready(start),
                    row@ == pull_row(start, i as int),
                    self.bodies@.len() == n,
                    forall|b: int|
                        0 <= b < n ==> #[trigger] self.bodies@[b] == start[b].with_acceleration(
                            net_pull(
                                start,
                                b,
                                if b < i {
                                    n as nat
                                } else if b == i {
                                    j as nat
                                } else if b < j {
                                    (i + 1) as nat
                                } else {
                                    i as nat
                                },
                            ),
                        ),
                decreases n - j,
            {
                let a_vec = row[j - i - 1];
                proof {
                    lemma_pull_antisymmetric(start[i as int], start[j as int]);
                }
                let from_acceleration = self.bodies[i].acceleration.plus(a_vec.negated());
                let to_acceleration = self.bodies[j].acceleration.plus(a_vec);
                self.bodies[i].acceleration = from_acceleration;
                self.bodies[j].acceleration = to_acceleration;
                j += 1;
            }
            i += 1;
        }
        // Only now, with every pull in place, are the bodies moved.
        let mut k: usize = 0;
        while k < n
            invariant
                k <= n,
                n == start.len(),
                ready(start),
                self.bodies@.len() == n,
                forall|b: int|
                    0 <= b < k ==> #[trigger] self.bodies@[b] == stepped(start, TIME_STEP)[b],
                forall|b: int|
                    k <= b < n ==> #[trigger] self.bodies@[b] == start[b].with_acceleration(
                        net_pull(start, b, n as nat),
                    ),
            decreases n - k,
        {
            self.bodies[k].update(TIME_STEP);
            k += 1;
        }
        assert(self.bodies@ =~= stepped(start, TIME_STEP));
    }
}

/// A step keeps the number of bodies, their masses and their densities, and
/// leaves every accumulator clear: bodies that were ready for a step are
/// ready for the next.
pub proof fn lemma_step_invariants(bodies: Seq<Body>, dt: i64)
    ensures
        stepped(bodies, dt).len() == bodies.len(),
        forall|k: int|
            0 <= k < bodies.len() ==> (#[trigger] stepped(bodies, dt)[k]).mass == bodies[k].mass
                && stepped(bodies, dt)[k].density == bodies[k].density && stepped(
                bodies,
                dt,
            )[k].acceleration == Vec2::spec_zero(),
        ready(bodies) ==> ready(stepped(bodies, dt)),
{
}

/// Without a second body there is no pair: in a simulation of at most one
/// body nothing is accelerated, and a step only lets the body drift.
pub proof fn lemma_no_pairs_no_pull(bodies: Seq<Body>, dt: i64)
    requires
        bodies.len() <= 1,
    ensures
        forall|k: int|
            0 <= k < bodies.len() ==> #[trigger] net_pull(bodies, k, bodies.len())
                == Vec2::spec_zero(),
        ready(bodies) ==> stepped(bodies, dt) == bodies.map_values(
            |body: Body| body.integrated(dt),
        ),
{
    if bodies.len() == 1 {
        assert(net_pull(bodies, 0, 1) == net_pull(bodies, 0, 0));
    }
    if ready(bodies) {
        assert(stepped(bodies, dt) =~= bodies.map_values(|body: Body| body.integrated(dt)));
    }
}

/// One step of two bodies: each is accelerated by the pull of the other
/// alone, its speed grows by that acceleration times the step, and its
/// position moves by the new speed times the step.
pub proof fn lemma_two_body_step(bodies: Seq<Body>, dt: i64)
    requires
        bodies.len() == 2,
    ensures
        stepped(bodies, dt) == seq![
            bodies[0].with_acceleration(bodies[0].pull_toward(bodies[1])).integrated(dt),
            bodies[1].with_acceleration(bodies[1].pull_toward(bodies[0])).integrated(dt),
        ],
{
    reveal_with_fuel(net_pull, 3);
    assert(net_pull(bodies, 0, 2) == bodies[0].pull_toward(bodies[1]));
    assert(net_pull(bodies, 1, 2) == bodies[1].pull_toward(bodies[0]));
    assert(stepped(bodies, dt) =~= seq![
        bodies[0].with_acceleration(bodies[0].pull_toward(bodies[1])).integrated(dt),
        bodies[1].with_acceleration(bodies[1].pull_toward(bodies[0])).integrated(dt),
    ]);
}

/// The contribution of one pair: the offset from `to` to `from`, times the
/// magnitude of the acceleration between the two. The step adds it to `to`
/// and its negation to `from`.
fn pair_pull(from: &Body, to: &Body) -> (v: Vec2)
    requires
        from.well_formed(),
        to.well_formed(),
    ensures
        v == to.pull_toward(*from),
{
    proof {
        lemma_acceleration_symmetric(*from, *to);
    }
    let a = from.compute_acceleration_to_other_body(to);
    from.position.minus(to.position).scaled(a)
}

/// The contributions of body `i` to all the bodies after it.
fn row_of_pulls(bodies: &Vec<Body>, i: usize) -> (row: Vec<Vec2>)
    requires
        i < bodies.len(),
        forall|k: int| 0 <= k < bodies.len() ==> (#[trigger] bodies@[k]).well_formed(),
    ensures
        row@ == pull_row(bodies@, i as int),
{
    let n = bodies.len();
    let mut row: Vec<Vec2> = Vec::new();
    let mut j: usize = i + 1;
    while j < n
        invariant
            i < j <= n,
            n == bodies.len(),
            forall|k: int| 0 <= k < bodies.len() ==> (#[trigger] bodies@[k]).well_formed(),
            row@.len() == j - i - 1,
            forall|t: int|
                0 <= t < row@.len() ==> #[trigger] row@[t] == bodies@[i + 1 + t].pull_toward(
                    bodies@[i as int],
                ),
        decreases n - j,
    {
        row.push(pair_pull(&bodies[i], &bodies[j]));
        j += 1;
    }
    assert(row@ =~= pull_row(bodies@, i as int));
    row
}

/// Runs `row_of_pulls` for the first `count` bodies on rayon's thread pool:
/// `into_par_iter` over the index range, `map`, and `collect` into a
/// vector. The contract is not proved. It claims what rayon documents
/// for an indexed parallel iterator collected into a `Vec`, namely one
/// item per index, each the closure's result for that index, in index
/// order; what the closure returns for an index is the proved result of
/// `row_of_pulls`.
#[verifier::external_body]
fn rows_in_parallel(bodies: &Vec<Body>, count: usize) -> (rows: Vec<Vec<Vec2>>)
    requires
        count <= bodies.len(),
        forall|k: int| 0 <= k < bodies.len() ==> (#[trigger] bodies@[k]).well_formed(),
    ensures
        rows@.len() == count,
        forall|i: int| 0 <= i < count ==> (#[trigger] rows@[i])@ == pull_row(bodies@, i),
{
    (0..count).into_par_iter().map(|i| row_of_pulls(bodies, i)).collect()
}

} // verus!
