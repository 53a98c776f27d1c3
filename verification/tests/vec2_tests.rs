use spool::fixed::LIMIT;
use spool::vec2::Vec2;

#[test]
fn vector_is_built_from_its_coordinates() {
    let v = Vec2::new(3, -4);
    assert_eq!(v.x, 3);
    assert_eq!(v.y, -4);
    assert_eq!(Vec2::zero(), Vec2 { x: 0, y: 0 });
}

#[test]
fn vector_validity_is_the_range_of_both_coordinates() {
    assert!(Vec2::new(LIMIT, -LIMIT).is_valid());
    assert!(Vec2::zero().is_valid());
    assert!(!Vec2::new(LIMIT + 1, 0).is_valid());
    assert!(!Vec2::new(0, -LIMIT - 1).is_valid());
}

#[test]
fn vector_sums_work_by_coordinate() {
    let a = Vec2::new(10, -20);
    let b = Vec2::new(1, 2);
    assert_eq!(a.plus(b), Vec2::new(11, -18));
    assert_eq!(a.minus(b), Vec2::new(9, -22));
    assert_eq!(a.negated(), Vec2::new(-10, 20));
    assert_eq!(a.delta(b), Vec2::new(9, -22));
}

#[test]
fn vector_sums_saturate_by_coordinate() {
    let a = Vec2::new(LIMIT, -LIMIT);
    let b = Vec2::new(5, 5);
    assert_eq!(a.plus(b), Vec2::new(LIMIT, -LIMIT + 5));
    assert_eq!(a.minus(b), Vec2::new(LIMIT - 5, -LIMIT));
    assert_eq!(Vec2::new(i64::MIN, i64::MAX).negated(), Vec2::new(LIMIT, -LIMIT));
}

#[test]
fn vector_delta_is_exact_beyond_the_limit() {
    let a = Vec2::new(LIMIT, -LIMIT);
    let b = Vec2::new(-LIMIT, LIMIT);
    assert_eq!(a.delta(b), Vec2::new(2 * LIMIT, -2 * LIMIT));
}

#[test]
fn vector_lengths() {
    assert_eq!(Vec2::new(3, 4).length_squared(), 25);
    assert_eq!(Vec2::new(-3, 4).length_squared(), 25);
    assert_eq!(Vec2::new(3, 4).length(), 5);
    assert_eq!(Vec2::new(-3, -4).length(), 5);
    assert_eq!(Vec2::new(1, 1).length(), 1);
    assert_eq!(Vec2::new(2, 2).length(), 2);
    assert_eq!(Vec2::zero().length(), 0);
    assert_eq!(Vec2::new(i64::MIN, 0).length(), 9_223_372_036_854_775_808);
    assert_eq!(Vec2::new(i64::MIN, i64::MIN).length_squared(), 1u128 << 127);
}

#[test]
fn vector_distances() {
    let a = Vec2::new(1_000, 2_000);
    let b = Vec2::new(4_000, -2_000);
    assert_eq!(a.distance_squared(b), 25_000_000);
    assert_eq!(b.distance_squared(a), 25_000_000);
    assert_eq!(a.distance_squared(a), 0);
    let far = Vec2::new(LIMIT, LIMIT);
    let near = Vec2::new(-LIMIT, -LIMIT);
    assert_eq!(far.distance_squared(near), 8_000_000_000_000_000_000_000_000);
}

#[test]
fn vector_scaling_rounds_each_coordinate_toward_zero() {
    let v = Vec2::new(7, -7);
    assert_eq!(v.scale(1, 2), Vec2::new(3, -3));
    assert_eq!(v.scale(-1, 2), Vec2::new(-3, 3));
    assert_eq!(v.scale(3, 1), Vec2::new(21, -21));
    assert_eq!(Vec2::new(LIMIT, -LIMIT).scale(2, 1), Vec2::new(LIMIT, -LIMIT));
}

#[test]
fn vector_with_length_keeps_the_direction() {
    let v = Vec2::new(3_000_000_000, 4_000_000_000);
    assert_eq!(v.with_length(500_000_000), Vec2::new(300_000_000, 400_000_000));
    assert_eq!(v.with_length(-500_000_000), Vec2::new(-300_000_000, -400_000_000));
    assert_eq!(v.with_length(0), Vec2::zero());
    let w = Vec2::new(-6, 8);
    assert_eq!(w.with_length(5), Vec2::new(-3, 4));
    assert_eq!(w.with_length(1), Vec2::new(0, 0));
}

#[test]
fn vector_without_length_has_no_direction() {
    assert_eq!(Vec2::zero().with_length(1_000_000), Vec2::zero());
}

#[test]
fn vector_with_length_uses_the_rounded_length() {
    // The length of (1, 1) rounds down to 1, so each coordinate is scaled
    // by the whole target.
    assert_eq!(Vec2::new(1, 1).with_length(10), Vec2::new(10, 10));
}
