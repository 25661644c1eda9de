use nbody_sim::body::{GRAVITY, MASS_LIMIT};
use nbody_sim::drawing::BODY_COLOR;
use nbody_sim::fixed::{LIMIT, SCALE};
use nbody_sim::{Body, Circle, Vec2};

fn body_at(x: i64, y: i64, mass: i64) -> Body {
    Body::new(Vec2::new(x, y), mass, 100 * SCALE)
}

#[test]
fn new_body_is_at_rest() {
    let body = Body::new(Vec2::new(7, -9), 5 * SCALE, 100 * SCALE);
    assert_eq!(
        body,
        Body {
            position: Vec2 { x: 7, y: -9 },
            mass: 5_000_000,
            speed: Vec2 { x: 0, y: 0 },
            acceleration: Vec2 { x: 0, y: 0 },
            density: 100_000_000,
        }
    );
    assert!(body.is_well_formed());
}

#[test]
fn new_sp_keeps_the_given_speed() {
    let body = Body::new_sp(Vec2::new(1, 2), 3, Vec2::new(-4, 5), 6);
    assert_eq!(
        body,
        Body {
            position: Vec2 { x: 1, y: 2 },
            mass: 3,
            speed: Vec2 { x: -4, y: 5 },
            acceleration: Vec2 { x: 0, y: 0 },
            density: 6,
        }
    );
}

#[test]
fn well_formedness_asks_for_positive_bounded_mass_and_positive_density() {
    let good = body_at(0, 0, MASS_LIMIT);
    assert!(good.is_well_formed());
    assert!(!Body { mass: 0, ..good }.is_well_formed());
    assert!(!Body { mass: -1, ..good }.is_well_formed());
    assert!(!Body { mass: MASS_LIMIT + 1, ..good }.is_well_formed());
    assert!(!Body { density: 0, ..good }.is_well_formed());
    assert!(Body { density: 1, mass: 1, ..good }.is_well_formed());
}

#[test]
fn update_advances_speed_before_position() {
    let mut body = Body {
        position: Vec2::new(SCALE, -2 * SCALE),
        mass: 5 * SCALE,
        speed: Vec2::new(3 * SCALE, 0),
        acceleration: Vec2::new(-4 * SCALE, 2_500),
        density: 100 * SCALE,
    };
    body.update(SCALE);
    assert_eq!(body.speed, Vec2 { x: -1_000_000, y: 2_500 });
    assert_eq!(body.position, Vec2 { x: 0, y: -1_997_500 });
    assert_eq!(body.acceleration, Vec2 { x: 0, y: 0 });
    assert_eq!(body.mass, 5_000_000);
    assert_eq!(body.density, 100_000_000);
}

#[test]
fn update_with_the_simulation_time_step() {
    let mut body = Body {
        position: Vec2::new(SCALE, -2 * SCALE),
        mass: 5 * SCALE,
        speed: Vec2::new(3 * SCALE, 0),
        acceleration: Vec2::new(-4 * SCALE, 2_500),
        density: 100 * SCALE,
    };
    body.update(1_000);
    assert_eq!(body.speed, Vec2 { x: 2_996_000, y: 2 });
    assert_eq!(body.position, Vec2 { x: 1_002_996, y: -2_000_000 });
    assert_eq!(body.acceleration, Vec2::zero());
}

#[test]
fn update_saturates_instead_of_overflowing() {
    let mut body = Body {
        position: Vec2::new(LIMIT, -LIMIT),
        mass: 1,
        speed: Vec2::new(LIMIT, -LIMIT),
        acceleration: Vec2::new(LIMIT, -LIMIT),
        density: 1,
    };
    body.update(i64::MAX);
    assert_eq!(body.speed, Vec2 { x: LIMIT, y: -LIMIT });
    assert_eq!(body.position, Vec2 { x: LIMIT, y: -LIMIT });
}

#[test]
fn circle_has_radius_mass_over_density() {
    let body = Body::new(Vec2::new(-3 * SCALE, 250_000), 5 * SCALE, 100 * SCALE);
    assert_eq!(
        body.to_circle(),
        Circle { world_pos: [-3_000_000, 250_000, 0], radius: 50_000, color: 0xFFFF_FFFF }
    );
    assert_eq!(body.to_circle().color, BODY_COLOR);
    let dense = Body::new(Vec2::zero(), 10 * SCALE, 3 * SCALE);
    assert_eq!(dense.to_circle().radius, 3_333_333);
    let thin = Body::new(Vec2::zero(), MASS_LIMIT, 1);
    assert_eq!(thin.to_circle().radius, LIMIT);
}

#[test]
fn to_circle_leaves_the_body_untouched() {
    let body = Body::new_sp(Vec2::new(1, 2), 3, Vec2::new(4, 5), 6);
    let before = body;
    let _ = body.to_circle();
    assert_eq!(body, before);
}

#[test]
fn acceleration_is_g_m1_m2_over_distance_squared() {
    let a = body_at(0, 0, 5 * SCALE);
    let b = body_at(2 * SCALE, 0, 5 * SCALE);
    assert_eq!(a.compute_acceleration_to_other_body(&b), 312_500_000);
    let c = body_at(3 * SCALE, 4 * SCALE, 2 * SCALE);
    assert_eq!(a.compute_acceleration_to_other_body(&c), 20_000_000);
    assert_eq!(GRAVITY, 50 * SCALE);
}

#[test]
fn acceleration_is_symmetric() {
    let a = body_at(-7 * SCALE, 123, 3 * SCALE);
    let b = body_at(2 * SCALE, -5 * SCALE, 11 * SCALE);
    assert_eq!(
        a.compute_acceleration_to_other_body(&b),
        b.compute_acceleration_to_other_body(&a)
    );
}

#[test]
fn acceleration_vanishes_where_squared_distance_floors_to_one() {
    let a = body_at(0, 0, 5 * SCALE);
    assert_eq!(a.compute_acceleration_to_other_body(&body_at(SCALE, 0, 5 * SCALE)), 0);
    assert_eq!(a.compute_acceleration_to_other_body(&body_at(1_200_000, 700_000, 5 * SCALE)), 0);
    assert_eq!(a.compute_acceleration_to_other_body(&body_at(1_414_213, 0, 5 * SCALE)), 0);
    assert_eq!(a.compute_acceleration_to_other_body(&body_at(0, -SCALE, MASS_LIMIT)), 0);
}

#[test]
fn acceleration_is_unguarded_just_outside_the_unit_band() {
    let a = body_at(0, 0, 5 * SCALE);
    assert_eq!(
        a.compute_acceleration_to_other_body(&body_at(1_414_214, 0, 5 * SCALE)),
        624_999_613
    );
    assert_eq!(
        a.compute_acceleration_to_other_body(&body_at(999_999, 0, 5 * SCALE)),
        1_250_002_500
    );
}

#[test]
fn acceleration_saturates_for_close_and_coincident_bodies() {
    let a = body_at(0, 0, 5 * SCALE);
    assert_eq!(a.compute_acceleration_to_other_body(&body_at(1, 0, 5 * SCALE)), LIMIT);
    assert_eq!(a.compute_acceleration_to_other_body(&body_at(0, 0, 5 * SCALE)), LIMIT);
    let heavy = body_at(0, 0, MASS_LIMIT);
    assert_eq!(heavy.compute_acceleration_to_other_body(&body_at(1, 0, MASS_LIMIT)), LIMIT);
}

#[test]
fn acceleration_fades_to_nothing_across_the_whole_plane() {
    let a = body_at(i64::MIN, i64::MIN, MASS_LIMIT);
    let b = body_at(i64::MAX, i64::MAX, MASS_LIMIT);
    assert_eq!(a.compute_acceleration_to_other_body(&b), 0);
}
