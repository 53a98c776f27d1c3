//! Well-formedness is kept: what a tick, the end of a round and a launch
//! make of a well-formed world is a well-formed world.

use vstd::prelude::*;
use crate::entity::Ball;
use crate::laws::{
    after_steps, lemma_with_coins_keeps_round, lemma_with_enemies_keeps_round, Step,
};
use crate::marks::lemma_kept_all;
use crate::model::{
    after_coins, after_move, after_pair, after_pairs, after_turns, aged, candidate, coin_count,
    fragments, free_place, is_free, kept, launch_step, launch_velocity, launched, new_enemy,
    pass_start, placement,
    spawn_step, tick_pass, tick_step, with_aged_balls, with_coin, with_coins, with_enemies,
    with_enemy, Pass, WorldState,
};
use crate::physics::Contact;
use crate::rng::{draw_of, lemma_spread_bounds, next_state};
use crate::table::{
    spec_coin_reward, spec_enemies_for_round, COIN_RADIUS, ENEMY_BALL_SIZE, HOLE_RADIUS, LEVELS,
    MAX_POS_TRY, WORLD_HEIGHT, WORLD_WIDTH,
};
use crate::vec2::Vec2;

verus! {

/// Whether every ball of the pass, those on the table and those made by
/// merges, is well formed.
pub open spec fn pass_wf(p: Pass) -> bool {
    &&& forall|k: int| 0 <= k < p.balls.len() ==> (#[trigger] p.balls[k]).wf()
    &&& forall|k: int| 0 <= k < p.born.len() ==> (#[trigger] p.born[k]).wf()
}

/// A well-formed ball stays well formed through its part of a tick.
pub proof fn lemma_stepped_wf(ball: Ball)
    requires
        ball.wf(),
    ensures
        ball.spec_integrated().wf(),
        ball.spec_stepped().wf(),
{
}

/// What comes of the contact of two well-formed balls is well formed.
pub proof fn lemma_contact_wf(first: Ball, second: Ball)
    requires
        first.wf(),
        second.wf(),
    ensures
        first.spec_merged(second).wf(),
        first.spec_bounced(second).0.wf(),
        first.spec_bounced(second).1.wf(),
{
}

/// The fragments of a well-formed ball are well formed.
pub proof fn lemma_split_wf(ball: Ball, velocity: Vec2)
    requires
        ball.wf(),
        velocity.wf(),
    ensures
        ball.spec_split(velocity).0.wf(),
        ball.spec_split(velocity).1.wf(),
{
}

proof fn lemma_after_move_wf(p: Pass, i: int)
    requires
        pass_wf(p),
        0 <= i < p.balls.len(),
    ensures
        pass_wf(after_move(p, i)),
        after_move(p, i).balls.len() == p.balls.len(),
{
    lemma_stepped_wf(p.balls[i]);
    let q = after_move(p, i);
    assert forall|k: int| 0 <= k < q.balls.len() implies (#[trigger] q.balls[k]).wf() by {
        if k != i {
            assert(q.balls[k] == p.balls[k]);
        }
    }
}

proof fn lemma_after_pair_wf(p: Pass, i: int, j: int)
    requires
        pass_wf(p),
        0 <= i < p.balls.len(),
        0 <= j < p.balls.len(),
    ensures
        pass_wf(after_pair(p, i, j)),
        after_pair(p, i, j).balls.len() == p.balls.len(),
{
    lemma_contact_wf(p.balls[i], p.balls[j]);
    let q = after_pair(p, i, j);
    match p.balls[i].spec_contact(p.balls[j]) {
        Contact::Apart => {},
        Contact::Merge(ball) => {
            assert forall|k: int| 0 <= k < q.born.len() implies (#[trigger] q.born[k]).wf() by {
                if k < p.born.len() {
                    assert(q.born[k] == p.born[k]);
                }
            }
        },
        Contact::Bounce(first, second, sound) => {
            assert forall|k: int| 0 <= k < q.balls.len() implies (#[trigger] q.balls[k]).wf() by {
                if k != i && k != j {
                    assert(q.balls[k] == p.balls[k]);
                }
            }
        },
    }
}

proof fn lemma_after_pairs_wf(p: Pass, i: int, j: int)
    requires
        pass_wf(p),
        0 <= i < p.balls.len(),
        j <= p.balls.len(),
    ensures
        pass_wf(after_pairs(p, i, j)),
        after_pairs(p, i, j).balls.len() == p.balls.len(),
    decreases j - i,
{
    if j > i + 1 {
        lemma_after_pairs_wf(p, i, j - 1);
        lemma_after_pair_wf(after_pairs(p, i, j - 1), i, j - 1);
    }
}

proof fn lemma_after_coins_wf(p: Pass, i: int, c: int, coins: Seq<Vec2>)
    requires
        pass_wf(p),
    ensures
        pass_wf(after_coins(p, i, c, coins)),
        after_coins(p, i, c, coins).balls.len() == p.balls.len(),
    decreases c,
{
    if c > 0 {
        lemma_after_coins_wf(p, i, c - 1, coins);
    }
}

proof fn lemma_after_turns_wf(p: Pass, i: int, coins: Seq<Vec2>)
    requires
        pass_wf(p),
        i <= p.balls.len(),
    ensures
        pass_wf(after_turns(p, i, coins)),
        after_turns(p, i, coins).balls.len() == p.balls.len(),
    decreases i,
{
    if i > 0 {
        lemma_after_turns_wf(p, i - 1, coins);
        let before = after_turns(p, i - 1, coins);
        lemma_after_move_wf(before, i - 1);
        let moved = after_move(before, i - 1);
        lemma_after_pairs_wf(moved, i - 1, moved.balls.len() as int);
        let paired = after_pairs(moved, i - 1, moved.balls.len() as int);
        lemma_after_coins_wf(paired, i - 1, coins.len() as int, coins);
    }
}

/// A tick keeps a world well formed.
pub proof fn lemma_tick_keeps_wf(w: WorldState)
    requires
        w.wf(),
    ensures
        tick_step(w).world.wf(),
{
    let start = pass_start(w.balls, w.coins);
    lemma_after_turns_wf(start, w.balls.len() as int, w.coins);
    let pass = tick_pass(w.balls, w.coins);
    lemma_kept_all(pass.balls, pass.removed, 0, |b: Ball| b.wf());
    lemma_kept_all(w.coins, pass.taken, 0, |v: Vec2| v.wf());
    let rest = kept(pass.balls, pass.removed, 0);
    let balls = tick_step(w).world.balls;
    assert forall|k: int| 0 <= k < balls.len() implies (#[trigger] balls[k]).wf() by {
        if k < rest.len() {
            assert(balls[k] == rest[k]);
        } else {
            assert(balls[k] == pass.born[k - rest.len()]);
        }
    }
    assert(0 <= pass.pickups * spec_coin_reward(w.profitability_level))
        by (nonlinear_arith)
        requires
            0 <= pass.pickups,
            0 <= spec_coin_reward(w.profitability_level),
    ;
}

/// A position drawn for a disc that fits between the pockets is on the
/// table.
pub proof fn lemma_candidate_wf(rng: u64, radius: int)
    requires
        0 <= radius,
        2 * (HOLE_RADIUS + radius) < WORLD_HEIGHT,
    ensures
        candidate(rng, radius).wf(),
        HOLE_RADIUS + radius <= candidate(rng, radius).x < WORLD_WIDTH - HOLE_RADIUS - radius,
        HOLE_RADIUS + radius <= candidate(rng, radius).y < WORLD_HEIGHT - HOLE_RADIUS - radius,
{
    let first = next_state(rng);
    let second = next_state(first);
    lemma_spread_bounds(draw_of(first), HOLE_RADIUS + radius, WORLD_WIDTH - HOLE_RADIUS - radius);
    lemma_spread_bounds(
        draw_of(second),
        HOLE_RADIUS + radius,
        WORLD_HEIGHT - HOLE_RADIUS - radius,
    );
}

/// The place that a search ends at is on the table, and where the search
/// says that it is free no ball reaches it.
pub proof fn lemma_placement_wf(balls: Seq<Ball>, rng: u64, radius: int, tries: nat, last: Vec2)
    requires
        0 <= radius,
        2 * (HOLE_RADIUS + radius) < WORLD_HEIGHT,
        last.wf(),
    ensures
        placement(balls, rng, radius, tries, last).position.wf(),
        placement(balls, rng, radius, tries, last).found ==> is_free(
            balls,
            placement(balls, rng, radius, tries, last).position,
            radius,
        ),
    decreases tries,
{
    if tries > 0 {
        lemma_candidate_wf(rng, radius);
        lemma_placement_wf(
            balls,
            next_state(next_state(rng)),
            radius,
            (tries - 1) as nat,
            candidate(rng, radius),
        );
    }
}

proof fn lemma_with_coins_wf(w: WorldState, count: nat)
    requires
        w.wf(),
    ensures
        with_coins(w, count).wf(),
    decreases count,
{
    if count > 0 {
        lemma_with_coins_wf(w, (count - 1) as nat);
        let before = with_coins(w, (count - 1) as nat);
        lemma_placement_wf(
            before.balls,
            before.rng,
            COIN_RADIUS as int,
            MAX_POS_TRY as nat,
            Vec2::spec_zero(),
        );
        let after = with_coin(before);
        assert forall|k: int| 0 <= k < after.coins.len() implies (
        #[trigger] after.coins[k]).wf() by {
            if k < before.coins.len() {
                assert(after.coins[k] == before.coins[k]);
            }
        }
    }
}

proof fn lemma_with_enemies_wf(w: WorldState, count: nat)
    requires
        w.wf(),
    ensures
        with_enemies(w, count).wf(),
    decreases count,
{
    if count > 0 {
        lemma_with_enemies_wf(w, (count - 1) as nat);
        let before = with_enemies(w, (count - 1) as nat);
        lemma_placement_wf(
            before.balls,
            before.rng,
            ENEMY_BALL_SIZE as int,
            MAX_POS_TRY as nat,
            Vec2::spec_zero(),
        );
        let after = with_enemy(before);
        let place = free_place(before.balls, before.rng, ENEMY_BALL_SIZE as int);
        assert(new_enemy(place.position, before.sliding_level).wf());
        assert forall|k: int| 0 <= k < after.balls.len() implies (
        #[trigger] after.balls[k]).wf() by {
            if k < before.balls.len() {
                assert(after.balls[k] == before.balls[k]);
            }
        }
    }
}

/// The end of a round keeps a world well formed.
pub proof fn lemma_round_keeps_wf(w: WorldState)
    requires
        w.wf(),
    ensures
        spawn_step(w).wf(),
{
    let drawn = next_state(w.rng);
    let first = WorldState { rng: drawn, ..w };
    lemma_with_coins_wf(first, coin_count(drawn));
    lemma_with_coins_keeps_round(first, coin_count(drawn));
    let coined = with_coins(first, coin_count(drawn));
    let rested = with_aged_balls(coined);
    assert forall|k: int| 0 <= k < rested.balls.len() implies (#[trigger] rested.balls[k]).wf() by {
        assert(coined.balls[k].wf());
        assert(rested.balls[k] == aged(coined.balls[k]));
    }
    lemma_with_enemies_wf(rested, spec_enemies_for_round(w.round) as nat);
    lemma_with_enemies_keeps_round(rested, spec_enemies_for_round(w.round) as nat);
}

proof fn lemma_fragments_wf(balls: Seq<Ball>, moves: Map<usize, Vec2>, level: int, upto: int)
    requires
        forall|k: int| 0 <= k < balls.len() ==> (#[trigger] balls[k]).wf(),
        upto <= balls.len(),
        0 <= level < LEVELS,
    ensures
        forall|k: int|
            0 <= k < fragments(balls, moves, level, upto).len() ==> (#[trigger] fragments(
                balls,
                moves,
                level,
                upto,
            )[k]).wf(),
    decreases upto,
{
    let all = fragments(balls, moves, level, upto);
    if upto > 0 {
        lemma_fragments_wf(balls, moves, level, upto - 1);
        let before = fragments(balls, moves, level, upto - 1);
        let i = upto - 1;
        if moves.contains_key(i as usize) {
            let velocity = launch_velocity(moves[i as usize], level);
            assert(velocity.wf());
            lemma_split_wf(balls[i], velocity);
            let pair = balls[i].spec_split(velocity);
            assert(all == before.push(pair.0).push(pair.1));
            assert forall|k: int| 0 <= k < all.len() implies (#[trigger] all[k]).wf() by {
                if k < before.len() {
                    assert(all[k] == before[k]);
                } else if k == before.len() {
                    assert(all[k] == pair.0);
                } else {
                    assert(all[k] == pair.1);
                }
            }
        } else {
            assert(all == before);
            assert forall|k: int| 0 <= k < all.len() implies (#[trigger] all[k]).wf() by {
                assert(before[k].wf());
            }
        }
    } else {
        assert(all.len() == 0);
    }
}

/// A launch keeps a world well formed, whatever the aims.
pub proof fn lemma_launch_keeps_wf(w: WorldState, moves: Map<usize, Vec2>)
    requires
        w.wf(),
    ensures
        launch_step(w, moves).wf(),
{
    let marks = launched(w.balls.len(), moves);
    lemma_kept_all(w.balls, marks, 0, |b: Ball| b.wf());
    lemma_fragments_wf(w.balls, moves, w.max_speed_level, w.balls.len() as int);
    let rest = kept(w.balls, marks, 0);
    let made = fragments(w.balls, moves, w.max_speed_level, w.balls.len() as int);
    let balls = launch_step(w, moves).balls;
    assert forall|k: int| 0 <= k < balls.len() implies (#[trigger] balls[k]).wf() by {
        if k < rest.len() {
            assert(balls[k] == rest[k]);
        } else {
            assert(balls[k] == made[k - rest.len()]);
        }
    }
}

/// Whatever happens to a well-formed world, and however long, it stays
/// well formed: every ball keeps a positive mass and radius and a friction
/// coefficient below one.
pub proof fn lemma_steps_keep_wf(w: WorldState, steps: Seq<Step>)
    requires
        w.wf(),
    ensures
        after_steps(w, steps).wf(),
    decreases steps.len(),
{
    if steps.len() > 0 {
        lemma_steps_keep_wf(w, steps.drop_last());
        let before = after_steps(w, steps.drop_last());
        match steps.last() {
            Step::Tick => lemma_tick_keeps_wf(before),
            Step::Round => lemma_round_keeps_wf(before),
            Step::Launch(moves) => lemma_launch_keeps_wf(before, moves),
        }
    }
}

} // verus!
