use nbody_sim::fixed::{
    difference, negation, product, quotient, ratio, saturate_i128, sum, LIMIT, SCALE,
};
use nbody_sim::Vec2;

#[test]
fn sums_are_exact_inside_the_range() {
    assert_eq!(sum(2 * SCALE, -5 * SCALE), -3 * SCALE);
    assert_eq!(difference(2 * SCALE, -5 * SCALE), 7 * SCALE);
    assert_eq!(negation(-17), 17);
}

#[test]
fn sums_saturate_symmetrically() {
    assert_eq!(sum(LIMIT, 1), LIMIT);
    assert_eq!(sum(-LIMIT, -1), -LIMIT);
    assert_eq!(sum(i64::MIN, 0), -LIMIT);
    assert_eq!(difference(-LIMIT, 2), -LIMIT);
    assert_eq!(difference(LIMIT, -2), LIMIT);
    assert_eq!(negation(i64::MIN), LIMIT);
    assert_eq!(saturate_i128(i128::MAX), LIMIT);
    assert_eq!(saturate_i128(i128::MIN), -LIMIT);
    assert_eq!(saturate_i128(-42), -42);
}

#[test]
fn products_round_toward_zero() {
    assert_eq!(product(1_500_000, -2_500_000), -3_750_000);
    assert_eq!(product(3, 333_333), 0);
    assert_eq!(product(-1, 1), 0);
    assert_eq!(product(-3, 500_000), -1);
    assert_eq!(product(3, 500_000), 1);
    assert_eq!(product(7 * SCALE, SCALE), 7 * SCALE);
}

#[test]
fn products_saturate() {
    assert_eq!(product(LIMIT, 2 * SCALE), LIMIT);
    assert_eq!(product(LIMIT, -2 * SCALE), -LIMIT);
    assert_eq!(product(i64::MIN, SCALE), -LIMIT);
    assert_eq!(product(i64::MIN, i64::MIN), LIMIT);
}

#[test]
fn quotients_round_toward_zero_and_saturate() {
    assert_eq!(quotient(5 * SCALE, 100 * SCALE), 50_000);
    assert_eq!(quotient(-1, 3), -333_333);
    assert_eq!(quotient(-10 * SCALE, 3 * SCALE), -3_333_333);
    assert_eq!(quotient(10 * SCALE, 3 * SCALE), 3_333_333);
    assert_eq!(quotient(LIMIT, 1), LIMIT);
    assert_eq!(quotient(-LIMIT, 1), -LIMIT);
}

#[test]
fn ratios_multiply_before_they_divide() {
    assert_eq!(ratio(7, 3, 2), 10);
    assert_eq!(ratio(-7, 3, 2), -10);
    assert_eq!(ratio(7, -3, 2), -10);
    assert_eq!(ratio(1, 1, 2), 0);
    assert_eq!(ratio(LIMIT, LIMIT, LIMIT), LIMIT);
    assert_eq!(ratio(LIMIT, 3, 2), LIMIT);
    assert_eq!(ratio(i64::MIN, i64::MIN, 1), LIMIT);
    assert_eq!(ratio(i64::MIN, i64::MAX, 1), -LIMIT);
}

#[test]
fn vector_arithmetic_is_componentwise() {
    let a = Vec2::new(3 * SCALE, -4 * SCALE);
    let b = Vec2::new(-1, LIMIT);
    assert_eq!(a.plus(b), Vec2 { x: 2_999_999, y: LIMIT - 4 * SCALE });
    assert_eq!(b.plus(b), Vec2 { x: -2, y: LIMIT });
    assert_eq!(a.minus(b), Vec2 { x: 3_000_001, y: -LIMIT });
    assert_eq!(a.negated(), Vec2 { x: -3 * SCALE, y: 4 * SCALE });
    assert_eq!(a.scaled(SCALE / 2), Vec2 { x: 1_500_000, y: -2_000_000 });
    assert_eq!(a.times_ratio(1, 3), Vec2 { x: 1_000_000, y: -1_333_333 });
    assert_eq!(Vec2::new(LIMIT, -LIMIT).times_ratio(3, 2), Vec2 { x: LIMIT, y: -LIMIT });
    assert_eq!(Vec2::zero(), Vec2 { x: 0, y: 0 });
}

#[test]
fn squared_distance_is_exact_or_saturated() {
    let origin = Vec2::zero();
    assert_eq!(origin.distance2(Vec2::new(3 * SCALE, 4 * SCALE)), 25_000_000_000_000);
    assert_eq!(Vec2::new(-2, 5).distance2(Vec2::new(1, 1)), 25);
    assert_eq!(origin.distance2(origin), 0);
    let far = Vec2::new(i64::MIN, i64::MIN);
    let opposite = Vec2::new(i64::MAX, i64::MAX);
    assert_eq!(far.distance2(opposite), u128::MAX);
    assert_eq!(
        Vec2::new(i64::MIN, 0).distance2(Vec2::new(i64::MAX, 0)),
        0xffff_ffff_ffff_fffe_0000_0000_0000_0001
    );
}

#[test]
fn rotation_turns_counterclockwise() {
    let (cos, sin) = (408_082, 912_945);
    assert_eq!(Vec2::new(SCALE, 0).rotated(cos, sin, SCALE), Vec2 { x: 408_082, y: 912_945 });
    assert_eq!(Vec2::new(0, SCALE).rotated(cos, sin, SCALE), Vec2 { x: -912_945, y: 408_082 });
    assert_eq!(
        Vec2::new(-3 * SCALE, 2 * SCALE).rotated(cos, sin, SCALE),
        Vec2 { x: -3_050_136, y: -1_922_671 }
    );
    assert_eq!(Vec2::new(1, 1).rotated(0, -SCALE, SCALE), Vec2 { x: 1, y: -1 });
    assert_eq!(Vec2::new(7, 0).rotated(3, 4, 5), Vec2 { x: 4, y: 5 });
}

#[test]
fn rotation_saturates_at_the_corner_of_the_plane() {
    let corner = Vec2::new(i64::MIN, i64::MIN);
    assert_eq!(corner.rotated(i64::MIN, i64::MIN, i64::MAX), Vec2 { x: 0, y: LIMIT });
    assert_eq!(corner.rotated(i64::MIN, i64::MIN, 1), Vec2 { x: 0, y: LIMIT });
    assert_eq!(corner.rotated(i64::MAX, i64::MIN, 1), Vec2 { x: -LIMIT, y: LIMIT });
}
