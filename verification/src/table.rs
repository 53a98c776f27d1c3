//! The table's geometry and the fixed scaling tables of the game.

use vstd::prelude::*;
use crate::fixed::Fixed;
use crate::vec2::Vec2;

verus! {

/// Width of the playing surface.
pub const WORLD_WIDTH: Fixed = 1_926_000_000;

/// Height of the playing surface.
pub const WORLD_HEIGHT: Fixed = 1_010_000_000;

/// A ball whose centre is closer than this to a pocket falls into it.
pub const HOLE_RADIUS: Fixed = 38_000_000;

/// Number of pockets.
pub const HOLE_COUNT: usize = 6;

/// The three columns of pockets: the left rail, the middle, the right rail.
pub const HOLE_XS: [Fixed; 3] = [38_000_000, 963_000_000, 1_888_000_000];

/// The two rows of pockets: the near and the far long rail.
pub const HOLE_YS: [Fixed; 2] = [38_000_000, 972_000_000];

/// The pocket with index `k`: the four corners and the middle of the two
/// long rails, column by column.
pub open spec fn spec_hole(k: int) -> Vec2 {
    Vec2 { x: HOLE_XS[k / 2], y: HOLE_YS[k % 2] }
}

/// Radius of a coin.
pub const COIN_RADIUS: Fixed = 10_000_000;

/// What a coin is worth before the profitability multiplier.
pub const COIN_PRICE: u64 = 100;

/// Share of an overlap that a bounce turns into speed.
pub const COLLISION_SMOOTHNESS: Fixed = 30_000_000;

/// Number of positions that a placement search draws before it gives up.
pub const MAX_POS_TRY: u32 = 100;

/// A ball slower than this is at rest.
pub const REST_SPEED: Fixed = 30_000;

/// Radius of the ball that the player starts with.
pub const PLAYER_START_SIZE: Fixed = 50_000_000;

/// Radius of an enemy ball.
pub const ENEMY_BALL_SIZE: Fixed = 35_000_000;

/// Mass of an enemy ball.
pub const ENEMY_MASS: Fixed = 150_000_000;

/// Rounds that a new enemy ball survives.
pub const ENEMY_TIMER: usize = 5;

/// Number of levels of each upgrade.
pub const LEVELS: usize = 5;

/// Speed of a launch per unit of aim, by level.
pub const MAX_SPEED_SCALING: [Fixed; 5] = [
    10_000_000,
    10_000_000,
    20_000_000,
    30_000_000,
    40_000_000,
];

/// Mass of the starting ball, by level.
pub const START_MASS_SCALING: [Fixed; 5] = [
    300_000_000,
    500_000_000,
    1_000_000_000,
    1_500_000_000,
    3_000_000_000,
];

/// Multiplier of a coin's price, by level.
pub const PROFITABILITY_SCALING: [u64; 5] = [1, 2, 5, 10, 25];

/// Share of its speed that a ball keeps from one tick to the next, by level.
pub const SLIDING_SCALING: [Fixed; 5] = [
    999_400_000,
    999_450_000,
    999_500_000,
    999_550_000,
    999_600_000,
];

/// Number of rounds after which the enemy schedule starts over.
pub const ENEMY_ROUNDS: usize = 20;

/// Enemy balls that enter at the end of each round.
pub const ENEMY_ROUND: [usize; 20] = [1, 0, 1, 0, 1, 2, 1, 0, 3, 1, 0, 2, 0, 1, 2, 0, 1, 2, 3, 1];

/// Most coins that one round brings.
pub const MAX_COINS_PER_ROUND: u32 = 5;

/// Enemy balls that enter at the end of round `round`; the schedule wraps.
pub open spec fn spec_enemies_for_round(round: int) -> int {
    ENEMY_ROUND[round % 20] as int
}

/// What one coin pays at profitability level `level`.
pub open spec fn spec_coin_reward(level: int) -> int {
    COIN_PRICE * PROFITABILITY_SCALING[level]
}

/// Enemy balls that enter at the end of round `round`; the schedule wraps.
pub fn enemies_for_round(round: usize) -> (n: usize)
    ensures
        n == spec_enemies_for_round(round as int),
        n <= 3,
{
    ENEMY_ROUND[round % ENEMY_ROUNDS]
}

/// What one coin pays at profitability level `level`.
pub fn coin_reward(level: usize) -> (reward: u64)
    requires
        level < LEVELS,
    ensures
        reward == spec_coin_reward(level as int),
        0 < reward <= 2500,
{
    COIN_PRICE * PROFITABILITY_SCALING[level]
}

/// The friction coefficient at sliding level `level`.
pub fn sliding_coefficient(level: usize) -> (friction: Fixed)
    requires
        level < LEVELS,
    ensures
        friction == SLIDING_SCALING[level as int],
        0 < friction < crate::fixed::ONE,
{
    SLIDING_SCALING[level]
}

/// The launch speed per unit of aim at speed level `level`.
pub fn max_speed(level: usize) -> (cap: Fixed)
    requires
        level < LEVELS,
    ensures
        cap == MAX_SPEED_SCALING[level as int],
        0 < cap <= 40_000_000,
{
    MAX_SPEED_SCALING[level]
}

/// The mass of the starting ball at mass level `level`.
pub fn start_mass(level: usize) -> (mass: Fixed)
    requires
        level < LEVELS,
    ensures
        mass == START_MASS_SCALING[level as int],
        0 < mass <= 3_000_000_000,
{
    START_MASS_SCALING[level]
}

/// The pocket with index `k`.
pub fn hole(k: usize) -> (h: Vec2)
    requires
        k < HOLE_COUNT,
    ensures
        h == spec_hole(k as int),
        h.wf(),
{
    Vec2 { x: HOLE_XS[k / 2], y: HOLE_YS[k % 2] }
}

} // verus!
