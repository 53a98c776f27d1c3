//! The world: the balls and coins on the table, the money, the round, and
//! the three things that happen to them.
//!
//! A tick moves the balls, lets them meet each other, the rails, the
//! pockets and the coins. The end of a round brings coins and enemy balls.
//! A launch splits balls of the player in two. Coins are the only income: a
//! ball that falls into a pocket leaves the table and pays nothing.

use std::collections::BTreeMap;
use vstd::prelude::*;
use crate::entity::{Ball, BallType, EnemyData};
use crate::fixed::{lemma_product_bound, Fixed, LIMIT, ONE};
use crate::laws::{lemma_game_over_is_final, lemma_tick_counts};
use crate::marks::{lemma_kept_all, no_marks, remove_marked};
use crate::model::{
    after_coins, after_move, after_pairs, after_turns, aged, any_moving, candidate, coin_count,
    credited, expired, fragments, free_place, initial_state, is_free, kept, launch_step,
    launched, marked, pass_start, placement, spawn_step, tick_pass, tick_step, with_aged_balls,
    with_coins, with_enemies, Placement, WorldState,
};
use crate::physics::Contact;
use crate::rng::{next_state, Rng};
use crate::sounds::{SoundSet, Sounds};
use crate::table::{
    coin_reward, enemies_for_round, max_speed, sliding_coefficient, spec_coin_reward,
    spec_enemies_for_round, start_mass, COIN_RADIUS, ENEMY_BALL_SIZE, ENEMY_MASS, ENEMY_TIMER,
    HOLE_RADIUS, LEVELS, MAX_COINS_PER_ROUND, MAX_POS_TRY, MAX_SPEED_SCALING, PLAYER_START_SIZE,
    WORLD_HEIGHT, WORLD_WIDTH,
};
use crate::vec2::Vec2;

verus! {

/// A game in progress.
pub struct World {
    pub balls: Vec<Ball>,
    pub money: u64,
    pub round: usize,
    pub coins: Vec<Vec2>,
    game_over: bool,
    max_speed_level: usize,
    profitability_level: usize,
    sliding_level: usize,
    rng: Rng,
}

impl View for World {
    type V = WorldState;

    closed spec fn view(&self) -> WorldState {
        WorldState {
            balls: self.balls@,
            coins: self.coins@,
            money: self.money as int,
            round: self.round as int,
            game_over: self.game_over,
            max_speed_level: self.max_speed_level as int,
            profitability_level: self.profitability_level as int,
            sliding_level: self.sliding_level as int,
            rng: self.rng.state,
        }
    }
}

impl World {
    /// The world is well formed: see `WorldState::wf`.
    pub open spec fn wf(&self) -> bool {
        self@.wf()
    }

    /// A new game. `seed` starts the random source that places coins and
    /// enemy balls.
    pub fn new(
        max_speed_level: usize,
        profitability_level: usize,
        start_mass_level: usize,
        sliding_level: usize,
        seed: u64,
    ) -> (world: World)
        requires
            max_speed_level < LEVELS,
            profitability_level < LEVELS,
            start_mass_level < LEVELS,
            sliding_level < LEVELS,
        ensures
            world@ == initial_state(
                max_speed_level as int,
                profitability_level as int,
                start_mass_level as int,
                sliding_level as int,
                seed,
            ),
            world.wf(),
    {
        let mut new_world = World {
            balls: Vec::new(),
            money: 0,
            round: 0,
            game_over: false,
            max_speed_level,
            profitability_level,
            sliding_level,
            coins: Vec::new(),
            rng: Rng::new(seed),
        };
        new_world.add_ball(
            Vec2::new(WORLD_WIDTH / 2, WORLD_HEIGHT / 2),
            PLAYER_START_SIZE,
            start_mass(start_mass_level),
            sliding_coefficient(sliding_level),
            BallType::Player,
        );
        new_world.add_ball(
            Vec2::new(WORLD_WIDTH - 2 * HOLE_RADIUS, WORLD_HEIGHT - 2 * HOLE_RADIUS),
            ENEMY_BALL_SIZE,
            ENEMY_MASS,
            sliding_coefficient(sliding_level),
            BallType::Enemy(EnemyData { timer: ENEMY_TIMER }),
        );
        new_world.add_ball(
            Vec2::new(2 * HOLE_RADIUS, 2 * HOLE_RADIUS),
            ENEMY_BALL_SIZE,
            ENEMY_MASS,
            sliding_coefficient(sliding_level),
            BallType::Enemy(EnemyData { timer: ENEMY_TIMER }),
        );
        assert(new_world@.balls =~= initial_state(
            max_speed_level as int,
            profitability_level as int,
            start_mass_level as int,
            sliding_level as int,
            seed,
        ).balls);
        new_world
    }

    /// Whether the world is well formed, as every other method asks.
    pub fn is_valid(&self) -> (ok: bool)
        ensures
            ok == self.wf(),
    {
        if self.max_speed_level >= LEVELS || self.profitability_level >= LEVELS
            || self.sliding_level >= LEVELS {
            return false;
        }
        let n: usize = self.balls.len();
        let mut index: usize = 0;
        while index < n
            invariant
                index <= n,
                n == self.balls.len(),
                forall|i: int| 0 <= i < index ==> (#[trigger] self@.balls[i]).wf(),
            decreases n - index,
        {
            if !self.balls[index].is_valid() {
                assert(!self@.balls[index as int].wf());
                return false;
            }
            index += 1;
        }
        let m: usize = self.coins.len();
        let mut index: usize = 0;
        while index < m
            invariant
                index <= m,
                m == self.coins.len(),
                forall|i: int| 0 <= i < index ==> (#[trigger] self@.coins[i]).wf(),
            decreases m - index,
        {
            if !self.coins[index].is_valid() {
                assert(!self@.coins[index as int].wf());
                return false;
            }
            index += 1;
        }
        true
    }

    /// The number of balls on the table.
    pub fn ball_count(&self) -> (count: usize)
        ensures
            count == self@.balls.len(),
    {
        self.balls.len()
    }

    /// The ball with index `index`.
    pub fn ball(&self, index: usize) -> (ball: Ball)
        requires
            index < self@.balls.len(),
        ensures
            ball == self@.balls[index as int],
    {
        self.balls[index]
    }

    /// The number of the round.
    pub fn round_number(&self) -> (round: usize)
        ensures
            round == self@.round,
    {
        self.round
    }

    /// Takes the money out of the world.
    pub fn take_money(&mut self) -> (money: u64)
        ensures
            money == old(self)@.money,
            final(self)@ == (WorldState { money: 0, ..old(self)@ }),
    {
        let money: u64 = self.money;
        self.money = 0;
        money
    }

    /// Whether the game is over.
    pub fn is_game_over(&self) -> (over: bool)
        ensures
            over == self@.game_over,
    {
        self.game_over
    }

    /// Puts a ball at rest at the end of the collection.
    pub fn add_ball(
        &mut self,
        position: Vec2,
        radius: Fixed,
        mass: Fixed,
        friction_coeff: Fixed,
        letypedelaboule: BallType,
    )
        ensures
            final(self)@ == (WorldState {
                balls: old(self)@.balls.push(
                    Ball {
                        mass,
                        position,
                        speed: Vec2::spec_zero(),
                        friction_coeff,
                        radius,
                        letypedelaboule,
                    },
                ),
                ..old(self)@
            }),
    {
        let new_ball = Ball {
            position,
            radius,
            mass,
            speed: Vec2::zero(),
            friction_coeff,
            letypedelaboule,
        };
        self.balls.push(new_ball);
    }

    /// Whether `ball` is in a pocket.
    pub fn in_hole(&self, ball: &Ball) -> (fallen: bool)
        requires
            ball.wf(),
        ensures
            fallen == ball.spec_in_hole(),
    {
        ball.in_hole()
    }

    /// Keeps `ball` on the table: where it reaches over a rail it is put
    /// back against the rail, its speed across the rail is reversed, and the
    /// rail is heard.
    pub fn check_border(ball: &mut Ball, sounds: &mut SoundSet)
        requires
            old(ball).wf(),
        ensures
            *final(ball) == old(ball).spec_bordered(),
            final(ball).wf(),
            final(sounds)@ == if old(ball).spec_hits_border() {
                old(sounds)@.insert(Sounds::Border)
            } else {
                old(sounds)@
            },
    {
        if ball.position.x - ball.radius < 0 {
            ball.position.x = ball.radius;
            ball.speed.x = -ball.speed.x;
            sounds.insert(Sounds::Border);
        } else if ball.position.x + ball.radius > WORLD_WIDTH {
            ball.position.x = WORLD_WIDTH - ball.radius;
            ball.speed.x = -ball.speed.x;
            sounds.insert(Sounds::Border);
        }
        if ball.position.y - ball.radius < 0 {
            ball.position.y = ball.radius;
            ball.speed.y = -ball.speed.y;
            sounds.insert(Sounds::Border);
        } else if ball.position.y + ball.radius > WORLD_HEIGHT {
            ball.position.y = WORLD_HEIGHT - ball.radius;
            ball.speed.y = -ball.speed.y;
            sounds.insert(Sounds::Border);
        }
        assert(final(sounds)@ =~= if old(ball).spec_hits_border() {
            old(sounds)@.insert(Sounds::Border)
        } else {
            old(sounds)@
        });
    }

    /// Tests ball `a` against ball `b`. Two player balls that overlap are
    /// left as they are, and the result holds their indices, the smaller
    /// first, and the ball that they become. Any other two balls that
    /// overlap bounce off each other. Whatever happens is heard.
    pub fn collide(&mut self, a: usize, b: usize, sounds: &mut SoundSet) -> (merge: Option<
        (usize, usize, Ball),
    >)
        requires
            old(self).wf(),
            a < old(self)@.balls.len(),
            b < old(self)@.balls.len(),
            a != b,
        ensures
            final(self).wf(),
            match old(self)@.balls[a as int].spec_contact(old(self)@.balls[b as int]) {
                Contact::Apart => {
                    &&& merge is None
                    &&& final(self)@ == old(self)@
                    &&& final(sounds)@ == old(sounds)@
                },
                Contact::Merge(ball) => {
                    &&& merge == Some(
                        (
                            if a < b {
                                a
                            } else {
                                b
                            },
                            if a < b {
                                b
                            } else {
                                a
                            },
                            ball,
                        ),
                    )
                    &&& ball.wf()
                    &&& final(self)@ == old(self)@
                    &&& final(sounds)@ == old(sounds)@.insert(Sounds::SlimeSlime)
                },
                Contact::Bounce(first, second, sound) => {
                    &&& merge is None
                    &&& final(self)@ == (WorldState {
                        balls: old(self)@.balls.update(a as int, first).update(b as int, second),
                        ..old(self)@
                    })
                    &&& final(sounds)@ == old(sounds)@.insert(sound)
                },
            },
    {
        let ball_a: Ball = self.balls[a];
        let ball_b: Ball = self.balls[b];
        match ball_a.contact(&ball_b) {
            Contact::Apart => None,
            Contact::Merge(new_ball) => {
                sounds.insert(Sounds::SlimeSlime);
                let smaller: usize = if a < b {
                    a
                } else {
                    b
                };
                let bigger: usize = if a < b {
                    b
                } else {
                    a
                };
                Some((smaller, bigger, new_ball))
            },
            Contact::Bounce(first, second, sound) => {
                self.balls[a] = first;
                self.balls[b] = second;
                sounds.insert(sound);
                None
            },
        }
    }

    /// Advances the game by one tick and reports whether a ball is still
    /// moving and what was heard. Each ball in turn moves by its speed, is
    /// slowed by friction and kept on the table by the rails; it is marked if
    /// it lies in a pocket; it is tested once against every ball behind it;
    /// and, if it is the player's, it picks up the coins that it overlaps,
    /// each of which pays. Then the marked coins and balls leave, the last
    /// first, and the balls that merges have made join at the end. While a
    /// ball is moving the game is never declared over; once all rest, it is
    /// over if no ball is the player's.
    pub fn tick(&mut self) -> (report: (bool, SoundSet))
        requires
            old(self).wf(),
        ensures
            final(self).wf(),
            final(self)@ == tick_step(old(self)@).world,
            report.0 == tick_step(old(self)@).moving,
            report.1@ == tick_step(old(self)@).sounds,
            old(self)@.game_over ==> final(self)@.game_over,
            final(self)@.balls.len() == old(self)@.balls.len() - marked(
                tick_pass(old(self)@.balls, old(self)@.coins).removed,
                0,
            ) + tick_pass(old(self)@.balls, old(self)@.coins).born.len(),
    {
        let ghost before = self@;
        proof {
            lemma_tick_counts(before);
        }
        let ghost start = pass_start(before.balls, before.coins);
        let n: usize = self.balls.len();
        let m: usize = self.coins.len();
        let reward: u64 = coin_reward(self.profitability_level);
        let mut removed: Vec<bool> = no_marks(n);
        let mut born: Vec<Ball> = Vec::new();
        let mut taken: Vec<bool> = no_marks(m);
        let mut sounds: SoundSet = SoundSet::new();
        let ghost mut pickups: nat = 0;
        let mut i: usize = 0;
        while i < n
            invariant
                i <= n,
                n == self.balls.len(),
                m == self.coins.len(),
                before.wf(),
                self.wf(),
                self@ == (WorldState { balls: self.balls@, money: self.money as int, ..before }),
                reward == spec_coin_reward(before.profitability_level),
                self.money == credited(before.money, pickups, before.profitability_level),
                forall|k: int| 0 <= k < born.len() ==> (#[trigger] born[k]).wf(),
                start == pass_start(before.balls, before.coins),
                ({
                    let p = after_turns(start, i as int, before.coins);
                    &&& self.balls@ == p.balls
                    &&& removed@ == p.removed
                    &&& born@ == p.born
                    &&& taken@ == p.taken
                    &&& pickups == p.pickups
                    &&& sounds@ == p.sounds
                }),
                removed.len() == n,
                taken.len() == m,
            decreases n - i,
        {
            let ghost turn_start = after_move(after_turns(start, i as int, before.coins), i as int);
            let ghost prior = self@.balls;
            let mut ball: Ball = self.balls[i];
            assert(prior[i as int].wf());
            ball.integrate();
            Self::check_border(&mut ball, &mut sounds);
            self.balls[i] = ball;
            if self.in_hole(&ball) {
                removed[i] = true;
                sounds.insert(Sounds::Falling);
            }
            assert(self.wf()) by {
                assert forall|k: int| 0 <= k < self@.balls.len() implies (
                #[trigger] self@.balls[k]).wf() by {
                    if k != i {
                        assert(self@.balls[k] == prior[k]);
                    }
                }
            }
            let mut j: usize = i + 1;
            while j < n
                invariant
                    i < j <= n,
                    n == self.balls.len(),
                    before.wf(),
                    self.wf(),
                    self@ == (WorldState {
                        balls: self.balls@,
                        money: self.money as int,
                        ..before
                    }),
                    self.money == credited(before.money, pickups, before.profitability_level),
                    forall|k: int| 0 <= k < born.len() ==> (#[trigger] born[k]).wf(),
                    ({
                        let p = after_pairs(turn_start, i as int, j as int);
                        &&& self.balls@ == p.balls
                        &&& removed@ == p.removed
                        &&& born@ == p.born
                        &&& taken@ == p.taken
                        &&& pickups == p.pickups
                        &&& sounds@ == p.sounds
                    }),
                    removed.len() == n,
                decreases n - j,
            {
                if let Some((a, b, new_ball)) = self.collide(i, j, &mut sounds) {
                    removed[a] = true;
                    removed[b] = true;
                    born.push(new_ball);
                }
                j += 1;
            }
            let ghost paired = after_pairs(turn_start, i as int, n as int);
            let mut c: usize = 0;
            while c < m
                invariant
                    c <= m,
                    i < n,
                    n == self.balls.len(),
                    m == self.coins.len(),
                    before.wf(),
                    self.wf(),
                    self@ == (WorldState {
                        balls: self.balls@,
                        money: self.money as int,
                        ..before
                    }),
                    reward == spec_coin_reward(before.profitability_level),
                    self.money == credited(before.money, pickups, before.profitability_level),
                    ({
                        let p = after_coins(paired, i as int, c as int, before.coins);
                        &&& self.balls@ == p.balls
                        &&& removed@ == p.removed
                        &&& born@ == p.born
                        &&& taken@ == p.taken
                        &&& pickups == p.pickups
                        &&& sounds@ == p.sounds
                    }),
                    taken.len() == m,
                decreases m - c,
            {
                assert(self@.balls[i as int].wf());
                assert(self@.coins[c as int].wf());
                if self.balls[i].touches_coin(self.coins[c]) {
                    taken[c] = true;
                    sounds.insert(Sounds::Coin);
                    self.money = self.money.saturating_add(reward);
                    proof {
                        assert((pickups + 1) * reward == pickups * reward + reward)
                            by (nonlinear_arith);
                        pickups = pickups + 1;
                    }
                }
                c += 1;
            }
            i += 1;
        }
        let ghost pass = after_turns(start, n as int, before.coins);
        let ghost outcome = tick_step(before);
        proof {
            assert forall|k: int| 0 <= k < pass.balls.len() implies (
            #[trigger] pass.balls[k]).wf() by {
                assert(self@.balls[k].wf());
            }
            lemma_kept_all(pass.balls, pass.removed, 0, |b: Ball| b.wf());
            lemma_kept_all(before.coins, pass.taken, 0, |v: Vec2| v.wf());
        }
        remove_marked(&mut self.coins, &taken);
        remove_marked(&mut self.balls, &removed);
        self.balls.append(&mut born);
        assert(outcome.moving == any_moving(self@.balls));
        let count: usize = self.balls.len();
        let mut k: usize = 0;
        while k < count
            invariant
                k <= count,
                count == self.balls.len(),
                self.wf(),
                self@ == (WorldState { game_over: before.game_over, ..outcome.world }),
                before == old(self)@,
                outcome == tick_step(before),
                outcome.moving == any_moving(self@.balls),
                sounds@ == outcome.sounds,
                forall|t: int| 0 <= t < k ==> !(#[trigger] self.balls@[t]).spec_is_moving(),
            decreases count - k,
        {
            if self.balls[k].is_moving() {
                assert(self@.balls[k as int].spec_is_moving());
                assert(any_moving(self@.balls));
                proof {
                    lemma_tick_counts(before);
                }
                return (true, sounds);
            }
            k += 1;
        }
        let mut player_ball: bool = false;
        let mut k: usize = 0;
        while k < count
            invariant
                k <= count,
                count == self.balls.len(),
                self.wf(),
                self@ == (WorldState { game_over: before.game_over, ..outcome.world }),
                player_ball == exists|t: int|
                    0 <= t < k && (#[trigger] self.balls@[t]).spec_is_player(),
            decreases count - k,
        {
            if self.balls[k].is_player() {
                player_ball = true;
            }
            k += 1;
        }
        self.game_over = self.game_over || !player_ball;
        (false, sounds)
    }

    /// Whether a disc of radius `radius` at `position` overlaps no ball.
    pub fn place_is_free(&self, position: Vec2, radius: Fixed) -> (free: bool)
        requires
            self.wf(),
            position.wf(),
            0 <= radius <= LIMIT,
        ensures
            free == is_free(self@.balls, position, radius as int),
    {
        let n: usize = self.balls.len();
        let mut index: usize = 0;
        while index < n
            invariant
                index <= n,
                n == self.balls.len(),
                self.wf(),
                position.wf(),
                0 <= radius <= LIMIT,
                forall|i: int|
                    0 <= i < index ==> (#[trigger] self@.balls[i]).position.spec_distance_squared(
                        position,
                    ) >= (self@.balls[i].radius + radius) * (self@.balls[i].radius + radius),
            decreases n - index,
        {
            let ball: Ball = self.balls[index];
            assert(self@.balls[index as int].wf());
            let d2: u128 = ball.position.distance_squared(position);
            let reach: u128 = (ball.radius + radius) as u128;
            proof {
                lemma_product_bound(reach as int, reach as int, 2 * LIMIT, 2 * LIMIT);
            }
            if d2 < reach * reach {
                return false;
            }
            index += 1;
        }
        true
    }

    /// Draws a position for a disc of radius `radius` and tells whether the
    /// disc overlaps no ball there.
    pub fn draw_place(&mut self, radius: Fixed) -> (drawn: (Vec2, bool))
        requires
            old(self).wf(),
            0 <= radius,
            2 * (HOLE_RADIUS + radius) < WORLD_HEIGHT,
        ensures
            final(self).wf(),
            drawn.0.wf(),
            drawn.0 == candidate(old(self)@.rng, radius as int),
            drawn.1 == is_free(old(self)@.balls, drawn.0, radius as int),
            final(self)@ == (WorldState {
                rng: next_state(next_state(old(self)@.rng)),
                ..old(self)@
            }),
    {
        let x1: Fixed = HOLE_RADIUS + radius;
        let x2: Fixed = WORLD_WIDTH - HOLE_RADIUS - radius;
        let y1: Fixed = HOLE_RADIUS + radius;
        let y2: Fixed = WORLD_HEIGHT - HOLE_RADIUS - radius;
        let x: Fixed = self.rng.rand_range(x1, x2);
        let y: Fixed = self.rng.rand_range(y1, y2);
        let new_pos: Vec2 = Vec2::new(x, y);
        let free: bool = self.place_is_free(new_pos, radius);
        (new_pos, free)
    }

    /// Looks for a place where a disc of radius `radius` overlaps no ball:
    /// draws positions until one is free or `MAX_POS_TRY` of them have been
    /// drawn. Where none is free the game is over, and the result is the last
    /// position drawn.
    pub fn get_free_pos(&mut self, radius: Fixed) -> (position: Vec2)
        requires
            old(self).wf(),
            0 <= radius,
            2 * (HOLE_RADIUS + radius) < WORLD_HEIGHT,
        ensures
            final(self).wf(),
            position.wf(),
            ({
                let place = free_place(old(self)@.balls, old(self)@.rng, radius as int);
                &&& position == place.position
                &&& final(self)@ == (WorldState {
                    rng: place.rng,
                    game_over: old(self)@.game_over || !place.found,
                    ..old(self)@
                })
            }),
    {
        let ghost before = self@;
        let ghost total = free_place(before.balls, before.rng, radius as int);
        let mut found: bool = false;
        let mut count: u32 = 0;
        let mut new_pos: Vec2 = Vec2::zero();
        while !found && count < MAX_POS_TRY
            invariant
                count <= MAX_POS_TRY,
                self.wf(),
                new_pos.wf(),
                0 <= radius,
                2 * (HOLE_RADIUS + radius) < WORLD_HEIGHT,
                self@ == (WorldState { rng: self@.rng, ..before }),
                found ==> total == (Placement {
                    position: new_pos,
                    rng: self@.rng,
                    found: true,
                    attempts: count as nat,
                }),
                !found ==> ({
                    let rest = placement(
                        before.balls,
                        self@.rng,
                        radius as int,
                        (MAX_POS_TRY - count) as nat,
                        new_pos,
                    );
                    total == (Placement { attempts: (rest.attempts + count) as nat, ..rest })
                }),
            decreases MAX_POS_TRY - count,
        {
            let ghost tries = (MAX_POS_TRY - count) as nat;
            let ghost rng = self@.rng;
            let ghost last = new_pos;
            let (drawn, free) = self.draw_place(radius);
            proof {
                let position = candidate(rng, radius as int);
                let next = next_state(next_state(rng));
                let rest = placement(before.balls, rng, radius as int, tries, last);
                if is_free(before.balls, position, radius as int) {
                    assert(rest == (Placement { position, rng: next, found: true, attempts: 1 }));
                } else {
                    let further = placement(
                        before.balls,
                        next,
                        radius as int,
                        (tries - 1) as nat,
                        position,
                    );
                    assert(rest == (Placement {
                        attempts: further.attempts + 1,
                        ..further
                    }));
                }
            }
            new_pos = drawn;
            found = free;
            count += 1;
        }
        if !found {
            self.game_over = true;
        }
        new_pos
    }

    /// Puts from 1 to `MAX_COINS_PER_ROUND` coins on the table, each at a
    /// place that `get_free_pos` gives.
    pub fn spawn_coins(&mut self)
        requires
            old(self).wf(),
        ensures
            final(self).wf(),
            final(self)@ == with_coins(
                WorldState { rng: next_state(old(self)@.rng), ..old(self)@ },
                coin_count(next_state(old(self)@.rng)),
            ),
            final(self)@.balls == old(self)@.balls,
            final(self)@.round == old(self)@.round,
    {
        let ghost before = self@;
        let coin_number: u32 = 1 + self.rng.rand() % MAX_COINS_PER_ROUND;
        let ghost drawn = self@;
        let mut placed: u32 = 0;
        while placed < coin_number
            invariant
                placed <= coin_number,
                self.wf(),
                self@ == with_coins(drawn, placed as nat),
                self@.balls == drawn.balls,
                self@.round == drawn.round,
            decreases coin_number - placed,
        {
            let coin_pos: Vec2 = self.get_free_pos(COIN_RADIUS);
            self.coins.push(coin_pos);
            placed += 1;
        }
    }

    /// Puts on the table the enemy balls that the schedule gives to the
    /// round, each at a place that `get_free_pos` gives.
    pub fn spawn_enemies(&mut self)
        requires
            old(self).wf(),
        ensures
            final(self).wf(),
            final(self)@ == with_enemies(
                old(self)@,
                spec_enemies_for_round(old(self)@.round) as nat,
            ),
            final(self)@.round == old(self)@.round,
    {
        let ghost before = self@;
        let number: usize = enemies_for_round(self.round);
        let mut placed: usize = 0;
        while placed < number
            invariant
                placed <= number,
                self.wf(),
                self@ == with_enemies(before, placed as nat),
                self@.round == before.round,
            decreases number - placed,
        {
            let new_friction_coeff: Fixed = sliding_coefficient(self.sliding_level);
            let new_pos: Vec2 = self.get_free_pos(ENEMY_BALL_SIZE);
            self.add_ball(
                new_pos,
                ENEMY_BALL_SIZE,
                ENEMY_MASS,
                new_friction_coeff,
                BallType::Enemy(EnemyData { timer: ENEMY_TIMER }),
            );
            placed += 1;
        }
    }

    /// Brings every ball to rest and takes a round off the time of every
    /// enemy ball; the game is over if the time of one is up.
    pub fn age_balls(&mut self)
        requires
            old(self).wf(),
        ensures
            final(self).wf(),
            final(self)@ == with_aged_balls(old(self)@),
    {
        let ghost before = self@;
        let n: usize = self.balls.len();
        let mut late: bool = false;
        let mut index: usize = 0;
        while index < n
            invariant
                index <= n,
                n == self.balls.len(),
                n == before.balls.len(),
                before.wf(),
                self.wf(),
                self@ == (WorldState { balls: self@.balls, ..before }),
                forall|i: int|
                    0 <= i < index ==> #[trigger] self@.balls[i] == aged(before.balls[i]),
                forall|i: int| index <= i < n ==> #[trigger] self@.balls[i] == before.balls[i],
                late == exists|i: int| 0 <= i < index && expired(#[trigger] self@.balls[i]),
            decreases n - index,
        {
            let ghost prior = self@.balls;
            let mut ball: Ball = self.balls[index];
            match ball.letypedelaboule {
                BallType::Player => {},
                BallType::Enemy(enemy_data) => {
                    let timer: usize = if enemy_data.timer > 0 {
                        enemy_data.timer - 1
                    } else {
                        0
                    };
                    ball.letypedelaboule = BallType::Enemy(EnemyData { timer });
                    if timer < 1 {
                        late = true;
                    }
                },
            }
            ball.speed = Vec2::zero();
            self.balls[index] = ball;
            proof {
                assert(prior[index as int].wf());
                assert(ball == aged(prior[index as int]));
                assert(self@.balls == prior.update(index as int, ball));
                assert forall|i: int| 0 <= i < self@.balls.len() implies (
                #[trigger] self@.balls[i]).wf() by {
                    if i != index {
                        assert(self@.balls[i] == prior[i]);
                    }
                }
                if late {
                    if expired(ball) {
                        assert(expired(self@.balls[index as int]));
                    } else {
                        let w = choose|i: int| 0 <= i < index && expired(#[trigger] prior[i]);
                        assert(self@.balls[w] == prior[w]);
                        assert(expired(self@.balls[w]));
                    }
                } else {
                    assert forall|i: int| 0 <= i < index + 1 implies !expired(
                        #[trigger] self@.balls[i],
                    ) by {
                        if i != index {
                            assert(self@.balls[i] == prior[i]);
                        }
                    }
                }
            }
            index += 1;
        }
        if late {
            self.game_over = true;
        }
        proof {
            assert(self@.balls =~= with_aged_balls(before).balls);
        }
    }

    /// Ends a round: coins appear; every ball comes to rest and every enemy
    /// ball loses a round of its time, and the game is over if the time of
    /// one is up; the enemy balls of the round appear; the round counter
    /// moves on.
    pub fn spawn_round(&mut self)
        requires
            old(self).wf(),
        ensures
            final(self).wf(),
            final(self)@ == spawn_step(old(self)@),
            old(self)@.game_over ==> final(self)@.game_over,
    {
        let ghost before = self@;
        proof {
            if before.game_over {
                lemma_game_over_is_final(before, Map::empty());
            }
        }
        self.spawn_coins();
        let ghost coined = self@;
        self.age_balls();
        let ghost rested = self@;
        assert(rested.round == before.round);
        self.spawn_enemies();
        let ghost manned = self@;
        assert(manned == with_enemies(rested, spec_enemies_for_round(before.round) as nat));
        assert(manned.wf());
        if self.round < usize::MAX {
            self.round += 1;
        }
        proof {
            assert forall|k: int| 0 <= k < self@.balls.len() implies (
            #[trigger] self@.balls[k]).wf() by {
                assert(manned.balls[k].wf());
            }
            assert forall|k: int| 0 <= k < self@.coins.len() implies (
            #[trigger] self@.coins[k]).wf() by {
                assert(manned.coins[k].wf());
            }
        }
    }

    /// Launches the balls that `velocities` names. The aim of each is scaled
    /// to a speed by the speed level; the ball is replaced by two fragments
    /// that fly apart at that speed. The fragments join the collection at the
    /// end, by index of the ball that they come from.
    pub fn launch_round(&mut self, velocities: BTreeMap<usize, Vec2>)
        requires
            old(self).wf(),
            forall|index: usize|
                velocities@.contains_key(index) ==> index < old(self)@.balls.len(),
        ensures
            final(self).wf(),
            final(self)@ == launch_step(old(self)@, velocities@),
            final(self)@.game_over == old(self)@.game_over,
    {
        let ghost before = self@;
        let n: usize = self.balls.len();
        let cap: Fixed = max_speed(self.max_speed_level);
        let mut marks: Vec<bool> = Vec::new();
        let mut new_balls: Vec<Ball> = Vec::new();
        let mut index: usize = 0;
        while index < n
            invariant
                index <= n,
                n == self.balls.len(),
                self.wf(),
                self@ == before,
                cap == MAX_SPEED_SCALING[before.max_speed_level],
                marks@ == launched(index as nat, velocities@),
                new_balls@ == fragments(
                    before.balls,
                    velocities@,
                    before.max_speed_level,
                    index as int,
                ),
                forall|k: int| 0 <= k < new_balls.len() ==> (#[trigger] new_balls[k]).wf(),
            decreases n - index,
        {
            match velocities.get(&index) {
                Some(aim) => {
                    let velocity: Vec2 = aim.scale(cap, ONE as u64);
                    assert(self@.balls[index as int].wf());
                    let (ball1, ball2) = self.balls[index].split(velocity);
                    new_balls.push(ball1);
                    new_balls.push(ball2);
                    marks.push(true);
                },
                None => {
                    marks.push(false);
                },
            }
            index += 1;
            assert(marks@ =~= launched(index as nat, velocities@));
        }
        proof {
            lemma_kept_all(before.balls, marks@, 0, |b: Ball| b.wf());
        }
        let ghost made = new_balls@;
        assert(before.wf());
        remove_marked(&mut self.balls, &marks);
        self.balls.append(&mut new_balls);
        proof {
            let rest = kept(before.balls, marks@, 0);
            assert(self@.coins == before.coins);
            assert forall|k: int| 0 <= k < self@.coins.len() implies (
            #[trigger] self@.coins[k]).wf() by {
                assert(before.coins[k].wf());
            }
            assert(self@.balls == rest + made);
            assert forall|k: int| 0 <= k < self@.balls.len() implies (
            #[trigger] self@.balls[k]).wf() by {
                if k < rest.len() {
                    assert(self@.balls[k] == rest[k]);
                } else {
                    assert(self@.balls[k] == made[k - rest.len()]);
                }
            }
        }
    }
}

} // verus!
