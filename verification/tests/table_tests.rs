use spool::table::{
    coin_reward, enemies_for_round, hole, max_speed, sliding_coefficient, start_mass,
    COIN_PRICE, COIN_RADIUS, ENEMY_ROUND, HOLE_COUNT, HOLE_RADIUS, LEVELS, MAX_POS_TRY,
    WORLD_HEIGHT, WORLD_WIDTH,
};
use spool::vec2::Vec2;

#[test]
fn enemy_schedule_follows_the_table() {
    let expected: [usize; 20] = [1, 0, 1, 0, 1, 2, 1, 0, 3, 1, 0, 2, 0, 1, 2, 0, 1, 2, 3, 1];
    assert_eq!(ENEMY_ROUND, expected);
    for round in 0..20 {
        assert_eq!(enemies_for_round(round), expected[round]);
    }
}

#[test]
fn enemy_schedule_wraps_after_the_last_round() {
    assert_eq!(enemies_for_round(20), 1);
    assert_eq!(enemies_for_round(21), 0);
    assert_eq!(enemies_for_round(28), 3);
    assert_eq!(enemies_for_round(39), 1);
    assert_eq!(enemies_for_round(40), 1);
    assert_eq!(enemies_for_round(20 * 1000 + 5), 2);
}

#[test]
fn coin_reward_by_level() {
    assert_eq!(COIN_PRICE, 100);
    assert_eq!(coin_reward(0), 100);
    assert_eq!(coin_reward(1), 200);
    assert_eq!(coin_reward(2), 500);
    assert_eq!(coin_reward(3), 1000);
    assert_eq!(coin_reward(4), 2500);
}

#[test]
fn friction_by_level() {
    assert_eq!(sliding_coefficient(0), 999_400_000);
    assert_eq!(sliding_coefficient(1), 999_450_000);
    assert_eq!(sliding_coefficient(2), 999_500_000);
    assert_eq!(sliding_coefficient(3), 999_550_000);
    assert_eq!(sliding_coefficient(4), 999_600_000);
}

#[test]
fn launch_speed_by_level() {
    assert_eq!(max_speed(0), 10_000_000);
    assert_eq!(max_speed(1), 10_000_000);
    assert_eq!(max_speed(2), 20_000_000);
    assert_eq!(max_speed(3), 30_000_000);
    assert_eq!(max_speed(4), 40_000_000);
}

#[test]
fn starting_mass_by_level() {
    assert_eq!(start_mass(0), 300_000_000);
    assert_eq!(start_mass(1), 500_000_000);
    assert_eq!(start_mass(2), 1_000_000_000);
    assert_eq!(start_mass(3), 1_500_000_000);
    assert_eq!(start_mass(4), 3_000_000_000);
}

#[test]
fn pockets_are_the_corners_and_the_middle_of_the_long_rails() {
    assert_eq!(HOLE_COUNT, 6);
    assert_eq!(hole(0), Vec2::new(HOLE_RADIUS, HOLE_RADIUS));
    assert_eq!(hole(1), Vec2::new(HOLE_RADIUS, WORLD_HEIGHT - HOLE_RADIUS));
    assert_eq!(hole(2), Vec2::new(WORLD_WIDTH / 2, HOLE_RADIUS));
    assert_eq!(hole(3), Vec2::new(WORLD_WIDTH / 2, WORLD_HEIGHT - HOLE_RADIUS));
    assert_eq!(hole(4), Vec2::new(WORLD_WIDTH - HOLE_RADIUS, HOLE_RADIUS));
    assert_eq!(hole(5), Vec2::new(WORLD_WIDTH - HOLE_RADIUS, WORLD_HEIGHT - HOLE_RADIUS));
}

#[test]
fn table_constants() {
    assert_eq!(WORLD_WIDTH, 1_926_000_000);
    assert_eq!(WORLD_HEIGHT, 1_010_000_000);
    assert_eq!(HOLE_RADIUS, 38_000_000);
    assert_eq!(COIN_RADIUS, 10_000_000);
    assert_eq!(MAX_POS_TRY, 100);
    assert_eq!(LEVELS, 5);
}
