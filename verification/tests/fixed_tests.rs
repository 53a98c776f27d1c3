use spool::fixed::{int_sqrt, magnitude, mul_div, sat_add, sat_sub, weighted_mean, LIMIT, ONE};

#[test]
fn sums_inside_the_range_are_exact() {
    assert_eq!(sat_add(3, 4), 7);
    assert_eq!(sat_add(-3, 4), 1);
    assert_eq!(sat_sub(3, 4), -1);
    assert_eq!(sat_sub(-3, -4), 1);
    assert_eq!(sat_add(LIMIT - 1, 1), LIMIT);
    assert_eq!(sat_sub(-LIMIT + 1, 1), -LIMIT);
}

#[test]
fn sums_saturate_at_the_limit() {
    assert_eq!(sat_add(LIMIT, 1), LIMIT);
    assert_eq!(sat_add(LIMIT, LIMIT), LIMIT);
    assert_eq!(sat_add(-LIMIT, -1), -LIMIT);
    assert_eq!(sat_sub(-LIMIT, 1), -LIMIT);
    assert_eq!(sat_sub(LIMIT, -LIMIT), LIMIT);
    assert_eq!(sat_add(i64::MAX, i64::MAX), LIMIT);
    assert_eq!(sat_add(i64::MIN, i64::MIN), -LIMIT);
    assert_eq!(sat_sub(i64::MIN, i64::MAX), -LIMIT);
}

#[test]
fn magnitude_covers_the_whole_type() {
    assert_eq!(magnitude(0), 0);
    assert_eq!(magnitude(5), 5);
    assert_eq!(magnitude(-5), 5);
    assert_eq!(magnitude(i64::MAX), 9_223_372_036_854_775_807);
    assert_eq!(magnitude(i64::MIN), 9_223_372_036_854_775_808);
}

#[test]
fn quotients_round_toward_zero() {
    assert_eq!(mul_div(7, 1, 2), 3);
    assert_eq!(mul_div(-7, 1, 2), -3);
    assert_eq!(mul_div(7, -1, 2), -3);
    assert_eq!(mul_div(-7, -1, 2), 3);
    assert_eq!(mul_div(1, 1, 2), 0);
    assert_eq!(mul_div(-1, 1, 2), 0);
    assert_eq!(mul_div(0, -5, 3), 0);
    assert_eq!(mul_div(-5, 0, 3), 0);
}

#[test]
fn products_are_taken_before_the_division() {
    assert_eq!(mul_div(1_000_000, 999_400_000, ONE as u64), 999_400);
    assert_eq!(mul_div(-2_000_000, 999_400_000, ONE as u64), -1_998_800);
    assert_eq!(mul_div(30_001, 999_600_000, ONE as u64), 29_988);
    assert_eq!(mul_div(LIMIT, LIMIT, LIMIT as u64), LIMIT);
    assert_eq!(mul_div(LIMIT, LIMIT - 1, LIMIT as u64), LIMIT - 1);
}

#[test]
fn quotients_saturate_at_the_limit() {
    assert_eq!(mul_div(LIMIT, LIMIT, 1), LIMIT);
    assert_eq!(mul_div(-LIMIT, LIMIT, 1), -LIMIT);
    assert_eq!(mul_div(LIMIT, 2, 1), LIMIT);
    assert_eq!(mul_div(i64::MIN, i64::MIN, 1), LIMIT);
    assert_eq!(mul_div(i64::MIN, i64::MAX, 1), -LIMIT);
    assert_eq!(mul_div(i64::MIN, 1, u64::MAX), 0);
}

#[test]
fn weighted_means_round_toward_zero() {
    assert_eq!(weighted_mean(3, 1, 5, 3, 4), 4);
    assert_eq!(weighted_mean(-3, 1, -5, 3, 4), -4);
    assert_eq!(weighted_mean(10, 1, 20, 1, 2), 15);
    assert_eq!(weighted_mean(10, 1, 20, 1, 4), 7);
    assert_eq!(weighted_mean(1, 1, -1, 1, 2), 0);
    assert_eq!(weighted_mean(0, 5, 0, 7, 12), 0);
}

#[test]
fn weighted_means_saturate_at_the_limit() {
    assert_eq!(weighted_mean(LIMIT, LIMIT, LIMIT, LIMIT, 1), LIMIT);
    assert_eq!(weighted_mean(-LIMIT, LIMIT, -LIMIT, LIMIT, 1), -LIMIT);
    assert_eq!(weighted_mean(LIMIT, LIMIT, LIMIT, LIMIT, 2 * LIMIT), LIMIT);
    assert_eq!(weighted_mean(LIMIT, LIMIT, -LIMIT, LIMIT, 1), 0);
}

#[test]
fn square_roots_round_down() {
    assert_eq!(int_sqrt(0), 0);
    assert_eq!(int_sqrt(1), 1);
    assert_eq!(int_sqrt(2), 1);
    assert_eq!(int_sqrt(3), 1);
    assert_eq!(int_sqrt(4), 2);
    assert_eq!(int_sqrt(8), 2);
    assert_eq!(int_sqrt(9), 3);
    assert_eq!(int_sqrt(15), 3);
    assert_eq!(int_sqrt(16), 4);
    assert_eq!(int_sqrt(24), 4);
    assert_eq!(int_sqrt(25), 5);
}

#[test]
fn square_roots_of_large_numbers() {
    assert_eq!(int_sqrt(1_000_000_000_000_000_000_000_000), 1_000_000_000_000);
    assert_eq!(int_sqrt(999_999_999_999_999_999_999_999), 999_999_999_999);
    assert_eq!(int_sqrt(u128::MAX), 18_446_744_073_709_551_615);
    assert_eq!(int_sqrt(1u128 << 126), 1u64 << 63);
    assert_eq!(int_sqrt((1u128 << 126) - 1), (1u64 << 63) - 1);
}

#[test]
fn square_root_is_the_largest_whose_square_fits() {
    let mut n: u128 = 0;
    while n < 5000 {
        let r = int_sqrt(n) as u128;
        assert!(r * r <= n);
        assert!(n < (r + 1) * (r + 1));
        n += 1;
    }
}
