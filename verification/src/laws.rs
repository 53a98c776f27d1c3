//! What holds of every game.

use vstd::prelude::*;
use crate::entity::Ball;
use crate::fixed::{
    is_sqrt_of, isqrt, lemma_isqrt_is_sqrt, lemma_scaled_shrinks, LIMIT, ONE,
};
use crate::model::{
    after_coins, after_move, after_pairs, after_turns, any_player, candidate, coin_count,
    free_place, kept,
    launch_step, marked, pass_start, placement, spawn_step, tick_pass, tick_step,
    with_aged_balls, with_coins, with_enemies, Pass, WorldState,
};
use crate::physics::Contact;
use crate::rng::next_state;
use crate::sounds::Sounds;
use crate::table::{spec_enemies_for_round, MAX_POS_TRY, REST_SPEED, WORLD_HEIGHT};
use crate::vec2::Vec2;

verus! {

/// A magnitude that does not grow has a square that does not grow.
proof fn lemma_square_monotonic(a: int, b: int)
    by (nonlinear_arith)
    requires
        (0 <= a <= b) || (b <= a <= 0),
    ensures
        a * a <= b * b,
{
}

/// The opposite of a number has the same square.
proof fn lemma_square_of_opposite(a: int)
    by (nonlinear_arith)
    ensures
        (-a) * (-a) == a * a,
{
}

/// Friction never speeds a ball up: after its part of a tick, a ball that
/// met no other ball is no faster than before, whether or not it bounced
/// off a rail.
pub proof fn lemma_step_never_speeds_up(ball: Ball)
    requires
        ball.wf(),
    ensures
        ball.spec_stepped().speed.spec_length_squared() <= ball.speed.spec_length_squared(),
{
    let slowed = ball.spec_integrated();
    let kept = slowed.spec_bordered();
    lemma_scaled_shrinks(ball.speed.x as int, ball.friction_coeff as int, ONE as int);
    lemma_scaled_shrinks(ball.speed.y as int, ball.friction_coeff as int, ONE as int);
    lemma_square_monotonic(slowed.speed.x as int, ball.speed.x as int);
    lemma_square_monotonic(slowed.speed.y as int, ball.speed.y as int);
    lemma_square_of_opposite(slowed.speed.x as int);
    lemma_square_of_opposite(slowed.speed.y as int);
    assert(kept.speed.x == slowed.speed.x || kept.speed.x == -slowed.speed.x);
    assert(kept.speed.y == slowed.speed.y || kept.speed.y == -slowed.speed.y);
    assert(kept.speed.x * kept.speed.x == slowed.speed.x * slowed.speed.x);
    assert(kept.speed.y * kept.speed.y == slowed.speed.y * slowed.speed.y);
}

/// A merge conserves mass: as long as the sum is a mass that can be stored,
/// the ball that two balls become has exactly the mass of the two together.
pub proof fn lemma_merge_conserves_mass(first: Ball, second: Ball)
    requires
        first.wf(),
        second.wf(),
        first.mass + second.mass <= LIMIT,
    ensures
        first.spec_merged(second).mass == first.mass + second.mass,
        first.spec_contact(second) matches Contact::Merge(ball) ==> ball.mass == first.mass
            + second.mass,
{
}

/// A launch conserves mass: the two fragments of a ball of even mass have
/// exactly half its mass each.
pub proof fn lemma_split_conserves_mass(ball: Ball, velocity: Vec2)
    requires
        ball.wf(),
        ball.mass % 2 == 0,
    ensures
        ball.spec_split(velocity).0.mass == ball.mass / 2,
        ball.spec_split(velocity).1.mass == ball.mass / 2,
        ball.spec_split(velocity).0.mass + ball.spec_split(velocity).1.mass == ball.mass,
{
}

/// The fragments of a ball of odd mass lose one step of mass between them,
/// except that no fragment is lighter than one step.
pub proof fn lemma_split_of_odd_mass(ball: Ball, velocity: Vec2)
    requires
        ball.wf(),
        ball.mass % 2 == 1,
        ball.mass >= 3,
    ensures
        ball.spec_split(velocity).0.mass + ball.spec_split(velocity).1.mass == ball.mass - 1,
{
}

/// A merge keeps the area: the square of the radius of the merged ball is
/// the sum of the squares of the two radii, up to the rounding of the
/// root, as long as the root is a radius that can be stored.
pub proof fn lemma_merge_keeps_area(first: Ball, second: Ball)
    requires
        first.wf(),
        second.wf(),
        first.radius * first.radius + second.radius * second.radius <= LIMIT * LIMIT,
    ensures
        is_sqrt_of(
            first.spec_merged(second).radius as int,
            first.radius * first.radius + second.radius * second.radius,
        ),
{
    let area = first.radius * first.radius + second.radius * second.radius;
    assert(first.radius * first.radius >= 1) by (nonlinear_arith)
        requires
            first.radius >= 1,
    ;
    assert(second.radius * second.radius >= 1) by (nonlinear_arith)
        requires
            second.radius >= 1,
    ;
    lemma_isqrt_is_sqrt(area);
    let root = isqrt(area);
    assert(1 <= root <= LIMIT) by (nonlinear_arith)
        requires
            is_sqrt_of(root, area),
            2 <= area <= LIMIT * LIMIT,
            LIMIT > 0,
    ;
}

/// A launch keeps the area: twice the square of the radius of a fragment
/// is the square of the radius of the ball, up to the rounding of the
/// root, unless the ball is too small to be halved.
pub proof fn lemma_split_keeps_area(ball: Ball, velocity: Vec2)
    requires
        ball.wf(),
        ball.radius >= 2,
    ensures
        is_sqrt_of(ball.spec_split(velocity).0.radius as int, ball.radius * ball.radius / 2),
        ball.spec_split(velocity).1.radius == ball.spec_split(velocity).0.radius,
        2 * (ball.spec_split(velocity).0.radius * ball.spec_split(velocity).0.radius)
            <= ball.radius * ball.radius,
{
    let square = ball.radius * ball.radius;
    assert(4 <= square <= LIMIT * LIMIT) by (nonlinear_arith)
        requires
            2 <= ball.radius <= LIMIT,
            square == ball.radius * ball.radius,
    ;
    let area = square / 2;
    lemma_isqrt_is_sqrt(area);
    let root = isqrt(area);
    assert(1 <= root <= LIMIT) by (nonlinear_arith)
        requires
            is_sqrt_of(root, area),
            2 <= area <= LIMIT * LIMIT,
            LIMIT > 0,
    ;
}

/// The rails keep a ball on the table: a ball that is not wider than the
/// table reaches over no rail after its part of a tick.
pub proof fn lemma_rails_keep_ball_on_table(ball: Ball)
    requires
        ball.wf(),
        2 * ball.radius <= WORLD_HEIGHT,
    ensures
        !ball.spec_stepped().spec_hits_border(),
{
}

/// Whether the pass holds a mark for each of `balls` balls and `coins`
/// coins.
pub open spec fn pass_fits(p: Pass, balls: nat, coins: nat) -> bool {
    &&& p.balls.len() == balls
    &&& p.removed.len() == balls
    &&& p.taken.len() == coins
}

/// Testing a ball against the balls behind it changes no length.
pub proof fn lemma_after_pairs_fits(p: Pass, i: int, j: int, coins: nat)
    requires
        pass_fits(p, p.balls.len(), coins),
        0 <= i < p.balls.len(),
        j <= p.balls.len(),
    ensures
        pass_fits(after_pairs(p, i, j), p.balls.len(), coins),
    decreases j - i,
{
    if j > i + 1 {
        lemma_after_pairs_fits(p, i, j - 1, coins);
    }
}

/// Testing a ball against the coins changes no length.
pub proof fn lemma_after_coins_fits(p: Pass, i: int, c: int, coins: Seq<Vec2>)
    requires
        pass_fits(p, p.balls.len(), coins.len()),
        c <= coins.len(),
    ensures
        pass_fits(after_coins(p, i, c, coins), p.balls.len(), coins.len()),
    decreases c,
{
    if c > 0 {
        lemma_after_coins_fits(p, i, c - 1, coins);
    }
}

/// The turns of the balls change no length.
pub proof fn lemma_after_turns_fits(p: Pass, i: int, coins: Seq<Vec2>)
    requires
        pass_fits(p, p.balls.len(), coins.len()),
        i <= p.balls.len(),
    ensures
        pass_fits(after_turns(p, i, coins), p.balls.len(), coins.len()),
    decreases i,
{
    if i > 0 {
        lemma_after_turns_fits(p, i - 1, coins);
        let before = after_turns(p, i - 1, coins);
        let moved = after_move(before, i - 1);
        lemma_after_pairs_fits(moved, i - 1, moved.balls.len() as int, coins.len());
        let paired = after_pairs(moved, i - 1, moved.balls.len() as int);
        lemma_after_coins_fits(paired, i - 1, coins.len() as int, coins);
    }
}

/// As many items are kept as are not marked.
pub proof fn lemma_kept_len<T>(items: Seq<T>, removed: Seq<bool>, from: int)
    requires
        0 <= from <= items.len(),
        removed.len() == items.len(),
    ensures
        kept(items, removed, from).len() == items.len() - from - marked(removed, from),
    decreases items.len() - from,
{
    if from < items.len() {
        lemma_kept_len(items, removed, from + 1);
    }
}

/// Removal comes before addition, and both are exact: after a tick the
/// world holds as many balls as before, less those that the tick marked,
/// plus those that merges made; and as many coins as before, less those
/// that were picked up.
pub proof fn lemma_tick_counts(w: WorldState)
    ensures
        tick_step(w).world.balls.len() == w.balls.len() - marked(
            tick_pass(w.balls, w.coins).removed,
            0,
        ) + tick_pass(w.balls, w.coins).born.len(),
        tick_step(w).world.coins.len() == w.coins.len() - marked(
            tick_pass(w.balls, w.coins).taken,
            0,
        ),
{
    let start = pass_start(w.balls, w.coins);
    lemma_after_turns_fits(start, w.balls.len() as int, w.coins);
    let pass = tick_pass(w.balls, w.coins);
    lemma_kept_len(pass.balls, pass.removed, 0);
    lemma_kept_len(w.coins, pass.taken, 0);
}

/// More coins never reopen a game.
pub proof fn lemma_with_coins_keeps_game_over(w: WorldState, count: nat)
    requires
        w.game_over,
    ensures
        with_coins(w, count).game_over,
    decreases count,
{
    if count > 0 {
        lemma_with_coins_keeps_game_over(w, (count - 1) as nat);
    }
}

/// More enemy balls never reopen a game.
pub proof fn lemma_with_enemies_keeps_game_over(w: WorldState, count: nat)
    requires
        w.game_over,
    ensures
        with_enemies(w, count).game_over,
    decreases count,
{
    if count > 0 {
        lemma_with_enemies_keeps_game_over(w, (count - 1) as nat);
    }
}

/// A game that is over stays over: no tick, no end of a round and no launch
/// reopens it.
pub proof fn lemma_game_over_is_final(w: WorldState, moves: Map<usize, Vec2>)
    requires
        w.game_over,
    ensures
        tick_step(w).world.game_over,
        spawn_step(w).game_over,
        launch_step(w, moves).game_over,
{
    let drawn = next_state(w.rng);
    let first = WorldState { rng: drawn, ..w };
    let count = coin_count(drawn);
    lemma_with_coins_keeps_game_over(first, count);
    let coined = with_coins(first, count);
    let rested = with_aged_balls(coined);
    lemma_with_enemies_keeps_game_over(
        rested,
        spec_enemies_for_round(w.round) as nat,
    );
}

/// More coins leave the round as it is.
pub proof fn lemma_with_coins_keeps_round(w: WorldState, count: nat)
    ensures
        with_coins(w, count).round == w.round,
    decreases count,
{
    if count > 0 {
        lemma_with_coins_keeps_round(w, (count - 1) as nat);
    }
}

/// More enemy balls leave the round as it is.
pub proof fn lemma_with_enemies_keeps_round(w: WorldState, count: nat)
    ensures
        with_enemies(w, count).round == w.round,
    decreases count,
{
    if count > 0 {
        lemma_with_enemies_keeps_round(w, (count - 1) as nat);
    }
}

/// What can happen to a world.
pub enum Step {
    Tick,
    /// The end of a round.
    Round,
    Launch(Map<usize, Vec2>),
}

/// The world after `step`.
pub open spec fn after_step(w: WorldState, step: Step) -> WorldState {
    match step {
        Step::Tick => tick_step(w).world,
        Step::Round => spawn_step(w),
        Step::Launch(moves) => launch_step(w, moves),
    }
}

/// The world after `steps`, one after the other.
pub open spec fn after_steps(w: WorldState, steps: Seq<Step>) -> WorldState
    decreases steps.len(),
{
    if steps.len() == 0 {
        w
    } else {
        after_step(after_steps(w, steps.drop_last()), steps.last())
    }
}

/// Once a game is over, nothing that happens to the world reopens it,
/// however long it goes on.
pub proof fn lemma_game_over_forever(w: WorldState, steps: Seq<Step>)
    requires
        w.game_over,
    ensures
        after_steps(w, steps).game_over,
    decreases steps.len(),
{
    if steps.len() > 0 {
        lemma_game_over_forever(w, steps.drop_last());
        let before = after_steps(w, steps.drop_last());
        match steps.last() {
            Step::Tick => lemma_game_over_is_final(before, Map::empty()),
            Step::Round => lemma_game_over_is_final(before, Map::empty()),
            Step::Launch(moves) => lemma_game_over_is_final(before, moves),
        }
    }
}

/// The round never goes back: a tick and a launch leave it, and the end of
/// a round moves it on by one until the counter is full.
pub proof fn lemma_round_never_falls(w: WorldState, steps: Seq<Step>)
    ensures
        after_steps(w, steps).round >= w.round,
        tick_step(w).world.round == w.round,
        spawn_step(w).round == if w.round < usize::MAX {
            w.round + 1
        } else {
            w.round
        },
    decreases steps.len(),
{
    if steps.len() > 0 {
        lemma_round_never_falls(w, steps.drop_last());
        let before = after_steps(w, steps.drop_last());
        match steps.last() {
            Step::Round => {
                lemma_round_never_falls(before, Seq::empty());
            },
            _ => {},
        }
    }
    let drawn = next_state(w.rng);
    let first = WorldState { rng: drawn, ..w };
    lemma_with_coins_keeps_round(first, coin_count(drawn));
    let rested = with_aged_balls(with_coins(first, coin_count(drawn)));
    lemma_with_enemies_keeps_round(rested, spec_enemies_for_round(w.round) as nat);
}

/// A search for a free place draws no more positions than it may.
pub proof fn lemma_placement_is_bounded(
    balls: Seq<Ball>,
    rng: u64,
    radius: int,
    tries: nat,
    last: Vec2,
)
    ensures
        placement(balls, rng, radius, tries, last).attempts <= tries,
        !placement(balls, rng, radius, tries, last).found ==> placement(
            balls,
            rng,
            radius,
            tries,
            last,
        ).attempts == tries,
    decreases tries,
{
    if tries > 0 {
        let position = candidate(rng, radius);
        let next = next_state(next_state(rng));
        lemma_placement_is_bounded(balls, next, radius, (tries - 1) as nat, position);
    }
}

/// The search that the game makes ends after at most `MAX_POS_TRY` draws,
/// however crowded the table is.
pub proof fn lemma_free_place_is_bounded(balls: Seq<Ball>, rng: u64, radius: int)
    ensures
        free_place(balls, rng, radius).attempts <= MAX_POS_TRY,
{
    lemma_placement_is_bounded(balls, rng, radius, MAX_POS_TRY as nat, Vec2::spec_zero());
}

/// Whether ball `i`, once it has moved, overlaps ball `j`, which has not.
pub open spec fn meets(balls: Seq<Ball>, i: int, j: int) -> bool {
    balls[i].spec_stepped().spec_overlaps(balls[j])
}

/// Whether a tick brings no two of the balls into contact: no ball, once
/// it has moved, overlaps a ball behind it.
pub open spec fn collision_free(balls: Seq<Ball>) -> bool {
    forall|i: int, j: int| 0 <= i < j < balls.len() ==> !#[trigger] meets(balls, i, j)
}

/// The balls when the first `i` of them have moved and none has met another.
pub open spec fn stepped_upto(balls: Seq<Ball>, i: int) -> Seq<Ball> {
    Seq::new(
        balls.len(),
        |k: int|
            if k < i {
                balls[k].spec_stepped()
            } else {
                balls[k]
            },
    )
}

/// The marks when the first `i` balls have moved and none has met another:
/// a ball leaves if it has moved into a pocket.
pub open spec fn fallen_upto(balls: Seq<Ball>, i: int) -> Seq<bool> {
    Seq::new(balls.len(), |k: int| k < i && balls[k].spec_stepped().spec_in_hole())
}

/// Testing a ball against balls that it does not overlap changes nothing.
proof fn lemma_quiet_pairs(p: Pass, i: int, j: int)
    requires
        forall|t: int| i < t < j ==> !p.balls[i].spec_overlaps(#[trigger] p.balls[t]),
    ensures
        after_pairs(p, i, j) == p,
    decreases j - i,
{
    if j > i + 1 {
        lemma_quiet_pairs(p, i, j - 1);
    }
}

/// Coins change neither the balls nor their marks.
proof fn lemma_coins_leave_balls(p: Pass, i: int, c: int, coins: Seq<Vec2>)
    ensures
        after_coins(p, i, c, coins).balls == p.balls,
        after_coins(p, i, c, coins).removed == p.removed,
        after_coins(p, i, c, coins).born == p.born,
    decreases c,
{
    if c > 0 {
        lemma_coins_leave_balls(p, i, c - 1, coins);
    }
}

/// Where a tick brings no two balls into contact, the first `i` turns only
/// move the first `i` balls.
proof fn lemma_quiet_turns(balls: Seq<Ball>, coins: Seq<Vec2>, i: int)
    requires
        collision_free(balls),
        0 <= i <= balls.len(),
    ensures
        after_turns(pass_start(balls, coins), i, coins).balls == stepped_upto(balls, i),
        after_turns(pass_start(balls, coins), i, coins).removed == fallen_upto(balls, i),
        after_turns(pass_start(balls, coins), i, coins).born == Seq::<Ball>::empty(),
    decreases i,
{
    let start = pass_start(balls, coins);
    if i > 0 {
        lemma_quiet_turns(balls, coins, i - 1);
        let before = after_turns(start, i - 1, coins);
        let moved = after_move(before, i - 1);
        assert(moved.balls =~= stepped_upto(balls, i));
        assert(moved.removed =~= fallen_upto(balls, i));
        assert forall|t: int| i - 1 < t < balls.len() implies !moved.balls[i - 1].spec_overlaps(
            #[trigger] moved.balls[t],
        ) by {
            assert(!meets(balls, i - 1, t));
        }
        lemma_quiet_pairs(moved, i - 1, balls.len() as int);
        lemma_coins_leave_balls(moved, i - 1, coins.len() as int, coins);
    } else {
        assert(start.balls =~= stepped_upto(balls, 0));
        assert(start.removed =~= fallen_upto(balls, 0));
    }
}

/// Without contact a tick only moves the balls: each one moves by its
/// speed, is slowed by friction and kept on the table, and is then no
/// faster than before; those that moved into a pocket leave, and no ball
/// is made.
pub proof fn lemma_quiet_tick(w: WorldState)
    requires
        w.wf(),
        collision_free(w.balls),
    ensures
        tick_pass(w.balls, w.coins).balls == stepped_upto(w.balls, w.balls.len() as int),
        tick_pass(w.balls, w.coins).removed == fallen_upto(w.balls, w.balls.len() as int),
        tick_step(w).world.balls == kept(
            stepped_upto(w.balls, w.balls.len() as int),
            fallen_upto(w.balls, w.balls.len() as int),
            0,
        ),
        forall|k: int|
            0 <= k < w.balls.len() ==> (#[trigger] tick_pass(
                w.balls,
                w.coins,
            ).balls[k]).speed.spec_length_squared() <= w.balls[k].speed.spec_length_squared(),
{
    lemma_quiet_turns(w.balls, w.coins, w.balls.len() as int);
    let pass = tick_pass(w.balls, w.coins);
    assert(kept(pass.balls, pass.removed, 0) + pass.born =~= kept(pass.balls, pass.removed, 0));
    assert forall|k: int| 0 <= k < w.balls.len() implies (
    #[trigger] pass.balls[k]).speed.spec_length_squared()
        <= w.balls[k].speed.spec_length_squared() by {
        lemma_step_never_speeds_up(w.balls[k]);
    }
}

/// Whether the ball rests clear of the rails and of the pockets.
pub open spec fn rests_inside(ball: Ball) -> bool {
    &&& ball.speed == Vec2::spec_zero()
    &&& !ball.spec_hits_border()
    &&& !ball.spec_in_hole()
}

/// Whether nothing is about to happen in the world: every ball rests clear
/// of the rails and the pockets, no two balls overlap, and no ball of the
/// player overlaps a coin.
pub open spec fn still(w: WorldState) -> bool {
    &&& forall|i: int| 0 <= i < w.balls.len() ==> rests_inside(#[trigger] w.balls[i])
    &&& forall|i: int, j: int|
        0 <= i < j < w.balls.len() ==> !(#[trigger] w.balls[i]).spec_overlaps(
            #[trigger] w.balls[j],
        )
    &&& forall|i: int, c: int|
        0 <= i < w.balls.len() && 0 <= c < w.coins.len() ==> !(
        #[trigger] w.balls[i]).spec_touches_coin(#[trigger] w.coins[c])
}

/// A ball at rest clear of the rails is where it was after its part of a
/// tick.
pub proof fn lemma_rest_is_kept(ball: Ball)
    requires
        ball.wf(),
        ball.speed == Vec2::spec_zero(),
        !ball.spec_hits_border(),
    ensures
        ball.spec_stepped() == ball,
        !ball.spec_integrated().spec_hits_border(),
{
}

/// Testing a ball against coins that it does not touch changes nothing.
proof fn lemma_quiet_coins(p: Pass, i: int, c: int, coins: Seq<Vec2>)
    requires
        c <= coins.len(),
        forall|t: int| 0 <= t < c ==> !p.balls[i].spec_touches_coin(#[trigger] coins[t]),
    ensures
        after_coins(p, i, c, coins) == p,
    decreases c,
{
    if c > 0 {
        lemma_quiet_coins(p, i, c - 1, coins);
    }
}

/// In a still world no ball's turn changes anything.
proof fn lemma_still_turns(w: WorldState, i: int)
    requires
        w.wf(),
        still(w),
        0 <= i <= w.balls.len(),
    ensures
        after_turns(pass_start(w.balls, w.coins), i, w.coins) == pass_start(w.balls, w.coins),
    decreases i,
{
    let start = pass_start(w.balls, w.coins);
    if i > 0 {
        lemma_still_turns(w, i - 1);
        lemma_rest_is_kept(w.balls[i - 1]);
        let moved = after_move(start, i - 1);
        assert(moved.balls =~= start.balls);
        assert(moved == start);
        lemma_quiet_pairs(start, i - 1, w.balls.len() as int);
        lemma_quiet_coins(start, i - 1, w.coins.len() as int, w.coins);
    }
}

/// Where nothing is marked everything is kept.
pub proof fn lemma_kept_without_marks<T>(items: Seq<T>, from: int)
    requires
        0 <= from <= items.len(),
    ensures
        kept(items, Seq::new(items.len(), |i: int| false), from) == items.skip(from),
    decreases items.len() - from,
{
    let marks = Seq::new(items.len(), |i: int| false);
    if from < items.len() {
        lemma_kept_without_marks(items, from + 1);
        assert(seq![items[from]] + items.skip(from + 1) =~= items.skip(from));
    } else {
        assert(items.skip(from) =~= Seq::<T>::empty());
    }
}

/// A tick of a still world changes nothing, reports no motion and lets
/// nothing hear; it only ends the game where no ball is the player's.
pub proof fn lemma_still_world_stays(w: WorldState)
    requires
        w.wf(),
        still(w),
    ensures
        tick_step(w).world.balls == w.balls,
        tick_step(w).world.coins == w.coins,
        tick_step(w).world.money == w.money,
        tick_step(w).world.round == w.round,
        tick_step(w).world.game_over == (w.game_over || !any_player(w.balls)),
        !tick_step(w).moving,
        tick_step(w).sounds == Set::<Sounds>::empty(),
{
    lemma_still_turns(w, w.balls.len() as int);
    lemma_kept_without_marks(w.balls, 0);
    lemma_kept_without_marks(w.coins, 0);
    assert(w.balls.skip(0) =~= w.balls);
    assert(w.coins.skip(0) =~= w.coins);
    assert(w.balls + Seq::<Ball>::empty() =~= w.balls);
    assert forall|k: int| 0 <= k < w.balls.len() implies !(
    #[trigger] w.balls[k]).spec_is_moving() by {
        assert(rests_inside(w.balls[k]));
        assert(REST_SPEED * REST_SPEED >= 0) by (nonlinear_arith);
        let speed = w.balls[k].speed;
        assert(speed.x * speed.x + speed.y * speed.y == 0) by (nonlinear_arith)
            requires
                speed.x == 0,
                speed.y == 0,
        ;
    }
}

} // verus!
