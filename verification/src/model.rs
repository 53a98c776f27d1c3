//! The game as mathematics: the state of a world and what a tick, the end of
//! a round and a launch make of it.

use vstd::prelude::*;
use crate::entity::{Ball, BallType, EnemyData};
use crate::fixed::ONE;
use crate::physics::Contact;
use crate::rng::{draw_of, next_state, spread};
use crate::sounds::Sounds;
use crate::table::{
    spec_coin_reward, spec_enemies_for_round, COIN_RADIUS, ENEMY_BALL_SIZE, ENEMY_MASS,
    ENEMY_TIMER, HOLE_RADIUS, LEVELS, MAX_COINS_PER_ROUND, MAX_POS_TRY, MAX_SPEED_SCALING,
    PLAYER_START_SIZE, SLIDING_SCALING, START_MASS_SCALING, WORLD_HEIGHT, WORLD_WIDTH,
};
use crate::vec2::Vec2;

verus! {

/// The state of a world.
pub struct WorldState {
    pub balls: Seq<Ball>,
    pub coins: Seq<Vec2>,
    pub money: int,
    pub round: int,
    pub game_over: bool,
    pub max_speed_level: int,
    pub profitability_level: int,
    pub sliding_level: int,
    /// State of the random source.
    pub rng: u64,
}

impl WorldState {
    /// Every ball and every coin is well formed, the levels index the
    /// scaling tables, and the counters fit their machine types.
    pub open spec fn wf(self) -> bool {
        &&& forall|i: int| 0 <= i < self.balls.len() ==> (#[trigger] self.balls[i]).wf()
        &&& forall|i: int| 0 <= i < self.coins.len() ==> (#[trigger] self.coins[i]).wf()
        &&& 0 <= self.money <= u64::MAX
        &&& 0 <= self.round <= usize::MAX
        &&& 0 <= self.max_speed_level < LEVELS
        &&& 0 <= self.profitability_level < LEVELS
        &&& 0 <= self.sliding_level < LEVELS
    }
}

/// The world at the start of a game: the player's ball in the middle of the
/// table and an enemy ball near each of two opposite corners.
pub open spec fn initial_state(
    max_speed_level: int,
    profitability_level: int,
    start_mass_level: int,
    sliding_level: int,
    seed: u64,
) -> WorldState {
    WorldState {
        balls: seq![
            Ball {
                mass: START_MASS_SCALING[start_mass_level],
                position: Vec2 { x: (WORLD_WIDTH / 2) as i64, y: (WORLD_HEIGHT / 2) as i64 },
                speed: Vec2::spec_zero(),
                friction_coeff: SLIDING_SCALING[sliding_level],
                radius: PLAYER_START_SIZE,
                letypedelaboule: BallType::Player,
            },
            new_enemy(
                Vec2 {
                    x: (WORLD_WIDTH - 2 * HOLE_RADIUS) as i64,
                    y: (WORLD_HEIGHT - 2 * HOLE_RADIUS) as i64,
                },
                sliding_level,
            ),
            new_enemy(
                Vec2 { x: (2 * HOLE_RADIUS) as i64, y: (2 * HOLE_RADIUS) as i64 },
                sliding_level,
            ),
        ],
        coins: Seq::empty(),
        money: 0,
        round: 0,
        game_over: false,
        max_speed_level,
        profitability_level,
        sliding_level,
        rng: seed,
    }
}

/// The items of `items` from index `from` on that `removed` does not mark,
/// in their order.
pub open spec fn kept<T>(items: Seq<T>, removed: Seq<bool>, from: int) -> Seq<T>
    decreases items.len() - from,
{
    if from < 0 || from >= items.len() {
        Seq::empty()
    } else if removed[from] {
        kept(items, removed, from + 1)
    } else {
        seq![items[from]] + kept(items, removed, from + 1)
    }
}

/// The number of marks in `removed` from index `from` on.
pub open spec fn marked(removed: Seq<bool>, from: int) -> nat
    decreases removed.len() - from,
{
    if from < 0 || from >= removed.len() {
        0
    } else if removed[from] {
        1 + marked(removed, from + 1)
    } else {
        marked(removed, from + 1)
    }
}

/// Whether a ball of `balls` is faster than the speed of rest.
pub open spec fn any_moving(balls: Seq<Ball>) -> bool {
    exists|i: int| 0 <= i < balls.len() && (#[trigger] balls[i]).spec_is_moving()
}

/// Whether a ball of `balls` is the player's.
pub open spec fn any_player(balls: Seq<Ball>) -> bool {
    exists|i: int| 0 <= i < balls.len() && (#[trigger] balls[i]).spec_is_player()
}

/// What the pass of a tick over the balls has gathered so far.
pub struct Pass {
    /// The balls, each one at its place.
    pub balls: Seq<Ball>,
    /// The balls that leave at the end of the tick.
    pub removed: Seq<bool>,
    /// The balls that merges have made, in the order of the merges.
    pub born: Seq<Ball>,
    /// The coins that leave at the end of the tick.
    pub taken: Seq<bool>,
    /// How many times a ball has picked up a coin.
    pub pickups: nat,
    pub sounds: Set<Sounds>,
}

/// The pass before any ball has had its turn.
pub open spec fn pass_start(balls: Seq<Ball>, coins: Seq<Vec2>) -> Pass {
    Pass {
        balls,
        removed: Seq::new(balls.len(), |i: int| false),
        born: Seq::empty(),
        taken: Seq::new(coins.len(), |i: int| false),
        pickups: 0,
        sounds: Set::empty(),
    }
}

/// Ball `i` moves, is kept on the table, and leaves if it is in a pocket.
pub open spec fn after_move(p: Pass, i: int) -> Pass {
    let moved = p.balls[i].spec_integrated();
    let ball = moved.spec_bordered();
    let railed = if moved.spec_hits_border() {
        p.sounds.insert(Sounds::Border)
    } else {
        p.sounds
    };
    if ball.spec_in_hole() {
        Pass {
            balls: p.balls.update(i, ball),
            removed: p.removed.update(i, true),
            sounds: railed.insert(Sounds::Falling),
            ..p
        }
    } else {
        Pass { balls: p.balls.update(i, ball), sounds: railed, ..p }
    }
}

/// Ball `i` is tested against ball `j`.
pub open spec fn after_pair(p: Pass, i: int, j: int) -> Pass {
    match p.balls[i].spec_contact(p.balls[j]) {
        Contact::Apart => p,
        Contact::Merge(ball) => Pass {
            removed: p.removed.update(i, true).update(j, true),
            born: p.born.push(ball),
            sounds: p.sounds.insert(Sounds::SlimeSlime),
            ..p
        },
        Contact::Bounce(first, second, sound) => Pass {
            balls: p.balls.update(i, first).update(j, second),
            sounds: p.sounds.insert(sound),
            ..p
        },
    }
}

/// Ball `i` is tested against the balls from `i + 1` up to, not including,
/// `j`, in this order.
pub open spec fn after_pairs(p: Pass, i: int, j: int) -> Pass
    decreases j - i,
{
    if j <= i + 1 {
        p
    } else {
        after_pair(after_pairs(p, i, j - 1), i, j - 1)
    }
}

/// Ball `i` is tested against coin `c`.
pub open spec fn after_coin(p: Pass, i: int, c: int, coins: Seq<Vec2>) -> Pass {
    if p.balls[i].spec_touches_coin(coins[c]) {
        Pass {
            taken: p.taken.update(c, true),
            pickups: p.pickups + 1,
            sounds: p.sounds.insert(Sounds::Coin),
            ..p
        }
    } else {
        p
    }
}

/// Ball `i` is tested against the first `c` coins.
pub open spec fn after_coins(p: Pass, i: int, c: int, coins: Seq<Vec2>) -> Pass
    decreases c,
{
    if c <= 0 {
        p
    } else {
        after_coin(after_coins(p, i, c - 1, coins), i, c - 1, coins)
    }
}

/// The turn of ball `i`: it moves, then meets every ball behind it, then
/// every coin.
pub open spec fn after_turn(p: Pass, i: int, coins: Seq<Vec2>) -> Pass {
    after_coins(
        after_pairs(after_move(p, i), i, p.balls.len() as int),
        i,
        coins.len() as int,
        coins,
    )
}

/// The first `i` balls have had their turn.
pub open spec fn after_turns(p: Pass, i: int, coins: Seq<Vec2>) -> Pass
    decreases i,
{
    if i <= 0 {
        p
    } else {
        after_turn(after_turns(p, i - 1, coins), i - 1, coins)
    }
}

/// The pass of a tick: every ball has had its turn.
pub open spec fn tick_pass(balls: Seq<Ball>, coins: Seq<Vec2>) -> Pass {
    after_turns(pass_start(balls, coins), balls.len() as int, coins)
}

/// `money` and what `pickups` coins pay at `level`, as far as the counter
/// goes.
pub open spec fn credited(money: int, pickups: nat, level: int) -> int {
    let sum = money + pickups * spec_coin_reward(level);
    if sum > u64::MAX {
        u64::MAX as int
    } else {
        sum
    }
}

/// What a tick makes of a world and what it reports.
pub struct TickOutcome {
    pub world: WorldState,
    /// Whether a ball is still moving.
    pub moving: bool,
    pub sounds: Set<Sounds>,
}

/// A tick. Every ball has its turn; then the marked coins and balls leave
/// and the merged balls join at the end; then, if no ball is moving any
/// more and none is the player's, the game is over.
pub open spec fn tick_step(w: WorldState) -> TickOutcome {
    let pass = tick_pass(w.balls, w.coins);
    let balls = kept(pass.balls, pass.removed, 0) + pass.born;
    let moving = any_moving(balls);
    TickOutcome {
        world: WorldState {
            balls,
            coins: kept(w.coins, pass.taken, 0),
            money: credited(w.money, pass.pickups, w.profitability_level),
            game_over: w.game_over || (!moving && !any_player(balls)),
            ..w
        },
        moving,
        sounds: pass.sounds,
    }
}

/// Where a search for a free place has ended.
pub struct Placement {
    /// The last position drawn.
    pub position: Vec2,
    /// State of the random source after the search.
    pub rng: u64,
    /// Whether `position` is free.
    pub found: bool,
    /// How many positions were drawn.
    pub attempts: nat,
}

/// Whether a disc of radius `radius` at `position` overlaps no ball.
pub open spec fn is_free(balls: Seq<Ball>, position: Vec2, radius: int) -> bool {
    forall|i: int|
        0 <= i < balls.len() ==> (#[trigger] balls[i]).position.spec_distance_squared(position)
            >= (balls[i].radius + radius) * (balls[i].radius + radius)
}

/// The position that two draws give to a disc of radius `radius`: it keeps
/// the disc away from the rails by the radius of a pocket.
pub open spec fn candidate(rng: u64, radius: int) -> Vec2 {
    let first = next_state(rng);
    let second = next_state(first);
    Vec2 {
        x: spread(draw_of(first), HOLE_RADIUS + radius, WORLD_WIDTH - HOLE_RADIUS - radius) as i64,
        y: spread(
            draw_of(second),
            HOLE_RADIUS + radius,
            WORLD_HEIGHT - HOLE_RADIUS - radius,
        ) as i64,
    }
}

/// The search for a free place: positions are drawn until one is free or
/// `tries` of them have been drawn. `last` is the position drawn before.
pub open spec fn placement(balls: Seq<Ball>, rng: u64, radius: int, tries: nat, last: Vec2)
    -> Placement
    decreases tries,
{
    if tries == 0 {
        Placement { position: last, rng, found: false, attempts: 0 }
    } else {
        let position = candidate(rng, radius);
        let next = next_state(next_state(rng));
        if is_free(balls, position, radius) {
            Placement { position, rng: next, found: true, attempts: 1 }
        } else {
            let rest = placement(balls, next, radius, (tries - 1) as nat, position);
            Placement { attempts: rest.attempts + 1, ..rest }
        }
    }
}

/// The search that the game makes for a disc of radius `radius`.
pub open spec fn free_place(balls: Seq<Ball>, rng: u64, radius: int) -> Placement {
    placement(balls, rng, radius, MAX_POS_TRY as nat, Vec2::spec_zero())
}

/// One more coin. Where no free place is found the game is over, and the
/// coin lies at the last position drawn.
pub open spec fn with_coin(w: WorldState) -> WorldState {
    let place = free_place(w.balls, w.rng, COIN_RADIUS as int);
    WorldState {
        coins: w.coins.push(place.position),
        rng: place.rng,
        game_over: w.game_over || !place.found,
        ..w
    }
}

/// `count` more coins.
pub open spec fn with_coins(w: WorldState, count: nat) -> WorldState
    decreases count,
{
    if count == 0 {
        w
    } else {
        with_coin(with_coins(w, (count - 1) as nat))
    }
}

/// The number of coins that the draw of `rng` brings: from 1 to
/// `MAX_COINS_PER_ROUND`.
pub open spec fn coin_count(rng: u64) -> nat {
    (1 + draw_of(rng) % MAX_COINS_PER_ROUND) as nat
}

/// A new enemy ball at `position`.
pub open spec fn new_enemy(position: Vec2, sliding_level: int) -> Ball {
    Ball {
        mass: ENEMY_MASS,
        position,
        speed: Vec2::spec_zero(),
        friction_coeff: SLIDING_SCALING[sliding_level],
        radius: ENEMY_BALL_SIZE,
        letypedelaboule: BallType::Enemy(EnemyData { timer: ENEMY_TIMER }),
    }
}

/// One more enemy ball. Where no free place is found the game is over, and
/// the ball lies at the last position drawn.
pub open spec fn with_enemy(w: WorldState) -> WorldState {
    let place = free_place(w.balls, w.rng, ENEMY_BALL_SIZE as int);
    WorldState {
        balls: w.balls.push(new_enemy(place.position, w.sliding_level)),
        rng: place.rng,
        game_over: w.game_over || !place.found,
        ..w
    }
}

/// `count` more enemy balls.
pub open spec fn with_enemies(w: WorldState, count: nat) -> WorldState
    decreases count,
{
    if count == 0 {
        w
    } else {
        with_enemy(with_enemies(w, (count - 1) as nat))
    }
}

/// The ball at the end of a round: it rests, and an enemy ball has one
/// round less to live.
pub open spec fn aged(ball: Ball) -> Ball {
    Ball {
        speed: Vec2::spec_zero(),
        letypedelaboule: match ball.letypedelaboule {
            BallType::Player => BallType::Player,
            BallType::Enemy(data) => BallType::Enemy(
                EnemyData {
                    timer: if data.timer > 0 {
                        (data.timer - 1) as usize
                    } else {
                        0
                    },
                },
            ),
        },
        ..ball
    }
}

/// Whether the ball is an enemy ball whose time is up.
pub open spec fn expired(ball: Ball) -> bool {
    ball.letypedelaboule matches BallType::Enemy(data) && data.timer < 1
}

/// Whether the time of a ball of `balls` is up.
pub open spec fn any_expired(balls: Seq<Ball>) -> bool {
    exists|i: int| 0 <= i < balls.len() && expired(#[trigger] balls[i])
}

/// Every ball rests and every enemy ball has one round less to live; the
/// game is over if the time of one is up.
pub open spec fn with_aged_balls(w: WorldState) -> WorldState {
    let balls = Seq::new(w.balls.len(), |i: int| aged(w.balls[i]));
    WorldState { balls, game_over: w.game_over || any_expired(balls), ..w }
}

/// The end of a round: coins appear, the balls age, the enemy balls that
/// the schedule gives to the round appear, and the next round begins.
pub open spec fn spawn_step(w: WorldState) -> WorldState {
    let drawn = next_state(w.rng);
    let coined = with_coins(WorldState { rng: drawn, ..w }, coin_count(drawn));
    let manned = with_enemies(with_aged_balls(coined), spec_enemies_for_round(w.round) as nat);
    WorldState {
        round: if w.round < usize::MAX {
            w.round + 1
        } else {
            w.round
        },
        ..manned
    }
}

/// The speed that the aim `aim` gives at speed level `level`.
pub open spec fn launch_velocity(aim: Vec2, level: int) -> Vec2 {
    aim.spec_scale(MAX_SPEED_SCALING[level] as int, ONE as int)
}

/// The marks of the balls that `moves` launches.
pub open spec fn launched(len: nat, moves: Map<usize, Vec2>) -> Seq<bool> {
    Seq::new(len, |i: int| moves.contains_key(i as usize))
}

/// The fragments of the first `upto` balls, by index of the ball that they
/// come from.
pub open spec fn fragments(balls: Seq<Ball>, moves: Map<usize, Vec2>, level: int, upto: int)
    -> Seq<Ball>
    decreases upto,
{
    if upto <= 0 {
        Seq::empty()
    } else {
        let before = fragments(balls, moves, level, upto - 1);
        let i = upto - 1;
        if moves.contains_key(i as usize) {
            let pair = balls[i].spec_split(launch_velocity(moves[i as usize], level));
            before.push(pair.0).push(pair.1)
        } else {
            before
        }
    }
}

/// A launch: each ball that `moves` names leaves, and its two fragments
/// join at the end.
pub open spec fn launch_step(w: WorldState, moves: Map<usize, Vec2>) -> WorldState {
    WorldState {
        balls: kept(w.balls, launched(w.balls.len(), moves), 0) + fragments(
            w.balls,
            moves,
            w.max_speed_level,
            w.balls.len() as int,
        ),
        ..w
    }
}

} // verus!
