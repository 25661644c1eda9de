use nbody_sim::body::MASS_LIMIT;
use nbody_sim::fixed::SCALE;
use nbody_sim::simulation::TIME_STEP;
use nbody_sim::spiral::{
    create_spiral_cluster, DIRECTION_UNIT, SPIRAL_DENSITY, SPIRAL_MASS, SPIRAL_STEP_COS,
    SPIRAL_STEP_SIN,
};
use nbody_sim::{Body, Circle, Simulation, Vec2};

fn resting(x: i64, y: i64, mass: i64) -> Body {
    Body::new(Vec2::new(x, y), mass, 100 * SCALE)
}

fn moving(x: i64, y: i64, mass: i64, vx: i64, vy: i64) -> Body {
    Body::new_sp(Vec2::new(x, y), mass, Vec2::new(vx, vy), 100 * SCALE)
}

fn simulation_of(bodies: Vec<Body>) -> Simulation {
    match Simulation::from_bodies(bodies) {
        Some(simulation) => simulation,
        None => panic!("the bodies are not well formed"),
    }
}

fn positions(simulation: &Simulation) -> Vec<(i64, i64)> {
    simulation.bodies().iter().map(|body| (body.position.x, body.position.y)).collect()
}

fn speeds(simulation: &Simulation) -> Vec<(i64, i64)> {
    simulation.bodies().iter().map(|body| (body.speed.x, body.speed.y)).collect()
}

fn total_speed(simulation: &Simulation) -> (i128, i128) {
    let mut total = (0i128, 0i128);
    for body in simulation.bodies().iter() {
        total.0 += body.speed.x as i128;
        total.1 += body.speed.y as i128;
    }
    total
}

#[test]
fn constants_are_the_documented_ones() {
    assert_eq!(TIME_STEP, SCALE / 1_000);
    assert_eq!(SPIRAL_MASS, 5 * SCALE);
    assert_eq!(SPIRAL_DENSITY, 100 * SCALE);
    assert_eq!(DIRECTION_UNIT, 1_000_000_000_000 * SCALE);
    let cos = SPIRAL_STEP_COS as f64 / DIRECTION_UNIT as f64;
    let sin = SPIRAL_STEP_SIN as f64 / DIRECTION_UNIT as f64;
    assert!((cos - 20f64.cos()).abs() < 1e-15);
    assert!((sin - 20f64.sin()).abs() < 1e-15);
}

#[test]
fn no_bodies_make_an_empty_simulation() {
    let mut simulation = Simulation::new(0, SCALE);
    assert!(simulation.bodies().is_empty());
    assert!(simulation.get_bodies_as_circles().is_empty());
    assert!(create_spiral_cluster(0, -7).is_empty());
}

#[test]
fn stepping_an_empty_simulation_changes_nothing() {
    let mut simulation = Simulation::new(0, SCALE);
    simulation.update();
    simulation.update();
    assert!(simulation.bodies().is_empty());
}

#[test]
fn a_single_body_only_drifts() {
    let mut simulation = simulation_of(vec![moving(SCALE, SCALE, 5 * SCALE, 2 * SCALE, -3 * SCALE)]);
    simulation.update();
    assert_eq!(
        simulation.bodies()[0],
        Body {
            position: Vec2 { x: 1_002_000, y: 997_000 },
            mass: 5_000_000,
            speed: Vec2 { x: 2_000_000, y: -3_000_000 },
            acceleration: Vec2 { x: 0, y: 0 },
            density: 100_000_000,
        }
    );
}

#[test]
fn a_single_body_of_the_spiral_stays_at_the_centre() {
    let mut simulation = Simulation::new(1, 3 * SCALE);
    let before = simulation.bodies()[0];
    simulation.update();
    assert_eq!(simulation.bodies()[0], before);
    assert_eq!(before.position, Vec2::zero());
}

#[test]
fn spiral_of_five_has_these_positions() {
    let simulation = Simulation::new(5, SCALE);
    assert_eq!(
        positions(&simulation),
        vec![
            (0, 0),
            (408_082, 912_945),
            (-1_333_876, 1_490_226),
            (-2_857_238, -914_431),
            (-441_548, -3_975_554),
        ]
    );
}

#[test]
fn spiral_follows_the_polar_formula() {
    let spacing = 50_000;
    let bodies = create_spiral_cluster(2000, spacing);
    assert_eq!(bodies.len(), 2000);
    for (k, body) in bodies.iter().enumerate() {
        let radius = (spacing * k as i64) as f64;
        let angle = 20.0 * k as f64;
        assert!((body.position.x as f64 - radius * angle.cos()).abs() < 1.5);
        assert!((body.position.y as f64 - radius * angle.sin()).abs() < 1.5);
    }
}

#[test]
fn spiral_is_the_same_on_every_call() {
    let first = Simulation::new(5, SCALE);
    let second = Simulation::new(5, SCALE);
    assert_eq!(first.bodies(), second.bodies());
    assert_eq!(first.bodies(), &create_spiral_cluster(5, SCALE));
}

#[test]
fn spiral_bodies_rest_with_identical_mass_and_density() {
    let simulation = Simulation::new(40, 50_000);
    assert_eq!(simulation.bodies().len(), 40);
    for body in simulation.bodies().iter() {
        assert_eq!(body.mass, SPIRAL_MASS);
        assert_eq!(body.density, SPIRAL_DENSITY);
        assert_eq!(body.speed, Vec2::zero());
        assert_eq!(body.acceleration, Vec2::zero());
    }
}

#[test]
fn spiral_radius_grows_by_one_spacing_per_body() {
    let bodies = create_spiral_cluster(200, 50_000);
    for (k, body) in bodies.iter().enumerate() {
        let radius = 50_000 * k as i128;
        let squared = body.position.x as i128 * body.position.x as i128
            + body.position.y as i128 * body.position.y as i128;
        assert!(squared <= radius * radius);
        assert!(squared >= radius * radius - 6 * radius);
    }
}

#[test]
fn spiral_with_negative_spacing_is_mirrored() {
    let outward = create_spiral_cluster(6, 250_000);
    let inward = create_spiral_cluster(6, -250_000);
    for k in 0..6 {
        assert_eq!(inward[k].position, outward[k].position.negated());
    }
}

#[test]
fn two_bodies_fall_toward_each_other() {
    let mut simulation =
        simulation_of(vec![resting(0, 0, 5 * SCALE), resting(2 * SCALE, 0, 5 * SCALE)]);
    simulation.update();
    assert_eq!(speeds(&simulation), vec![(625_000, 0), (-625_000, 0)]);
    assert_eq!(positions(&simulation), vec![(625, 0), (1_999_375, 0)]);
    for body in simulation.bodies().iter() {
        assert_eq!(body.acceleration, Vec2::zero());
        assert_eq!(body.mass, 5 * SCALE);
    }
}

#[test]
fn two_bodies_of_unequal_mass_and_initial_speed() {
    let mut simulation = simulation_of(vec![
        resting(0, 0, 5 * SCALE),
        moving(3 * SCALE, 4 * SCALE, 2 * SCALE, SCALE, -SCALE),
    ]);
    simulation.update();
    assert_eq!(speeds(&simulation), vec![(60_000, 80_000), (940_000, -1_080_000)]);
    assert_eq!(positions(&simulation), vec![(60, 80), (3_000_940, 3_998_920)]);
}

#[test]
fn pairwise_contributions_are_exact_negations() {
    let mut simulation = simulation_of(vec![
        resting(-7 * SCALE, 123, 3 * SCALE),
        resting(2 * SCALE, -5 * SCALE, 11 * SCALE),
    ]);
    simulation.update();
    let after = speeds(&simulation);
    assert_eq!(after[0].0, -after[1].0);
    assert_eq!(after[0].1, -after[1].1);
    assert_ne!(after[0], (0, 0));
}

#[test]
fn bodies_one_unit_apart_do_not_interact() {
    let mut simulation =
        simulation_of(vec![resting(0, 0, 5 * SCALE), resting(1_200_000, 700_000, 5 * SCALE)]);
    simulation.update();
    assert_eq!(speeds(&simulation), vec![(0, 0), (0, 0)]);
    assert_eq!(positions(&simulation), vec![(0, 0), (1_200_000, 700_000)]);
}

#[test]
fn the_unit_distance_guard_applies_pair_by_pair() {
    let mut simulation = simulation_of(vec![
        resting(0, 0, 5 * SCALE),
        resting(SCALE, 0, 5 * SCALE),
        resting(3 * SCALE, 0, 5 * SCALE),
    ]);
    simulation.update();
    // 0 and 1 ignore each other; both are pulled by 2, and 2 by both.
    assert_eq!(speeds(&simulation), vec![(416_666, 0), (625_000, 0), (-1_041_666, 0)]);
}

#[test]
fn coincident_bodies_exert_no_pull_on_each_other() {
    let mut simulation = simulation_of(vec![
        resting(SCALE, SCALE, 5 * SCALE),
        resting(SCALE, SCALE, 5 * SCALE),
    ]);
    simulation.update();
    assert_eq!(speeds(&simulation), vec![(0, 0), (0, 0)]);
    assert_eq!(positions(&simulation), vec![(SCALE, SCALE), (SCALE, SCALE)]);
}

#[test]
fn four_bodies_after_one_and_two_steps() {
    let mut simulation = simulation_of(vec![
        resting(0, 0, 5 * SCALE),
        resting(2 * SCALE, 0, 5 * SCALE),
        resting(0, 3 * SCALE, 5 * SCALE),
        moving(-4 * SCALE, -SCALE, 5 * SCALE, 100, 200),
    ]);
    simulation.update();
    assert_eq!(
        speeds(&simulation),
        vec![(330_882, 343_137), (-1_020_010, 254_677), (36_057, -861_378), (653_170, 263_763)]
    );
    assert_eq!(
        positions(&simulation),
        vec![(330, 343), (1_998_980, 254), (36, 2_999_139), (-3_999_347, -999_737)]
    );
    simulation.update();
    assert_eq!(
        speeds(&simulation),
        vec![(662_127, 686_397), (-2_040_556, 509_499), (72_171, -1_723_082), (1_306_356, 527_384)]
    );
    assert_eq!(
        positions(&simulation),
        vec![(992, 1_029), (1_996_940, 763), (108, 2_997_416), (-3_998_041, -999_210)]
    );
}

#[test]
fn spiral_of_five_after_one_step() {
    let mut simulation = Simulation::new(5, SCALE);
    simulation.update();
    assert_eq!(
        speeds(&simulation),
        vec![
            (-338_068, 1_169_282),
            (-1_491_327, -1_338_253),
            (864_777, -1_273_678),
            (1_121_931, 409_458),
            (-157_312, 1_033_190),
        ]
    );
    assert_eq!(
        positions(&simulation),
        vec![
            (-338, 1_169),
            (406_591, 911_607),
            (-1_333_012, 1_488_953),
            (-2_856_117, -914_022),
            (-441_705, -3_974_521),
        ]
    );
}

#[test]
fn total_momentum_drifts_by_rounding_only() {
    let mut simulation = Simulation::new(5, SCALE);
    let bodies = 5;
    for step in 1..=10 {
        simulation.update();
        let (x, y) = total_speed(&simulation);
        assert!(x.abs() <= bodies * step);
        assert!(y.abs() <= bodies * step);
    }
    assert_eq!(total_speed(&simulation), (6, -3));
}

#[test]
fn total_momentum_of_a_large_spiral_stays_near_zero() {
    let mut simulation = Simulation::new(60, 50_000);
    for _ in 0..5 {
        simulation.update();
    }
    let (x, y) = total_speed(&simulation);
    assert!(x.abs() <= 60 * 5);
    assert!(y.abs() <= 60 * 5);
}

#[test]
fn accelerations_are_cleared_after_every_step() {
    let mut simulation = Simulation::new(12, 300_000);
    for _ in 0..3 {
        simulation.update();
        for body in simulation.bodies().iter() {
            assert_eq!(body.acceleration, Vec2::zero());
        }
    }
}

#[test]
fn step_matches_pulls_summed_body_by_body() {
    let start = create_spiral_cluster(300, 700_000);
    let mut simulation = simulation_of(start.clone());
    simulation.update();
    for (k, body) in start.iter().enumerate() {
        let mut expected = *body;
        for (p, other) in start.iter().enumerate() {
            if p != k {
                let magnitude = body.compute_acceleration_to_other_body(other);
                let pull = other.position.minus(body.position).scaled(magnitude);
                expected.acceleration = expected.acceleration.plus(pull);
            }
        }
        expected.update(TIME_STEP);
        assert_eq!(simulation.bodies()[k], expected);
    }
}

#[test]
fn heavy_close_bodies_saturate_without_failing() {
    let mut simulation =
        simulation_of(vec![resting(0, 0, MASS_LIMIT), resting(2, 0, MASS_LIMIT)]);
    simulation.update();
    assert_eq!(speeds(&simulation), vec![(18_446_744_073, 0), (-18_446_744_073, 0)]);
    assert_eq!(positions(&simulation), vec![(18_446_744, 0), (-18_446_742, 0)]);
}

#[test]
fn snapshot_lists_one_circle_per_body_in_order() {
    let mut simulation = Simulation::new(3, SCALE);
    assert_eq!(
        simulation.get_bodies_as_circles(),
        vec![
            Circle { world_pos: [0, 0, 0], radius: 50_000, color: 0xFFFF_FFFF },
            Circle { world_pos: [408_082, 912_945, 0], radius: 50_000, color: 0xFFFF_FFFF },
            Circle { world_pos: [-1_333_876, 1_490_226, 0], radius: 50_000, color: 0xFFFF_FFFF },
        ]
    );
}

#[test]
fn snapshot_leaves_the_simulation_untouched() {
    let mut simulation = Simulation::new(7, 250_000);
    simulation.update();
    let before = simulation.bodies().clone();
    let circles = simulation.get_bodies_as_circles();
    assert_eq!(circles.len(), 7);
    assert_eq!(simulation.bodies(), &before);
    for (circle, body) in circles.iter().zip(before.iter()) {
        assert_eq!(circle.world_pos, [body.position.x, body.position.y, 0]);
    }
}

#[test]
fn snapshot_is_a_copy() {
    let mut simulation = Simulation::new(4, SCALE);
    let before = simulation.get_bodies_as_circles();
    let kept = before.clone();
    simulation.update();
    assert_eq!(before, kept);
    assert_ne!(simulation.get_bodies_as_circles(), before);
}

#[test]
fn from_bodies_keeps_the_bodies_as_given() {
    let bodies = vec![resting(1, 2, 3), moving(4, 5, 6, 7, 8)];
    let simulation = simulation_of(bodies.clone());
    assert_eq!(simulation.bodies(), &bodies);
}

#[test]
fn from_bodies_refuses_ill_formed_bodies() {
    let good = resting(0, 0, 5 * SCALE);
    assert!(Simulation::from_bodies(vec![good, Body { mass: 0, ..good }]).is_none());
    assert!(Simulation::from_bodies(vec![Body { density: -1, ..good }]).is_none());
    assert!(Simulation::from_bodies(vec![Body { mass: MASS_LIMIT + 1, ..good }, good]).is_none());
    assert!(Simulation::from_bodies(vec![Body { acceleration: Vec2::new(0, 1), ..good }]).is_none());
    assert!(Simulation::from_bodies(vec![good, good]).is_some());
    assert!(Simulation::from_bodies(Vec::new()).is_some());
}
