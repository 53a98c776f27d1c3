//! The course of a game: the menus, the aiming, the rounds and the shop
//! between two games.

use std::collections::BTreeMap;
use vstd::prelude::*;
use crate::fixed::{lemma_product_bound, Fixed, LIMIT};
use crate::model::{initial_state, launch_step, spawn_step, tick_step, WorldState};
use crate::sounds::{SoundSet, Sounds};
use crate::vec2::Vec2;
use crate::world::World;

verus! {

/// Where a game stands.
#[derive(Clone, Copy, Debug, PartialEq, Eq, Structural)]
pub enum GameState {
    /// Balls are moving.
    Running,
    /// The player aims.
    Playing,
    GameOver,
    /// The player spends the money of the games so far.
    Shopping,
    Menu,
    /// The first page of the tutorial.
    Tuto1,
    /// The second page of the tutorial.
    Tuto2,
}

/// What the shop sells.
#[derive(Clone, Copy, Debug, PartialEq, Eq, Structural)]
pub enum Upgrade {
    AimAssist,
    MaxSpeed,
    Profitability,
    StartMass,
    Sliding,
}

/// What is heard when the player acts.
#[derive(Clone, Copy, Debug, PartialEq, Eq, Structural)]
pub enum Cue {
    /// Balls were launched.
    Shot,
    /// A page was turned or an upgrade was bought.
    Button,
}

/// Prices of the levels of the launch speed.
pub const PRICE_MAX_SPEED: [u64; 4] = [500, 1500, 3000, 5000];

/// Prices of the levels of the starting mass.
pub const PRICE_START_MASS: [u64; 4] = [500, 1500, 3000, 5000];

/// Prices of the levels of the aim assist.
pub const PRICE_AIM_ASSIST: [u64; 3] = [500, 1500, 3000];

/// Prices of the levels of the profitability.
pub const PRICE_PROFITABILITY: [u64; 2] = [500, 1500];

/// Prices of the levels of the sliding.
pub const PRICE_SLIDING: [u64; 4] = [500, 1500, 3000, 5000];

/// The longest aim.
pub const MAX_AIM: Fixed = 150_000_000;

/// How far from the ball the pointer may go before the ball is let go.
pub const AIM_REACH: Fixed = 200_000_000;

/// The highest level of an upgrade: the number of its prices.
pub open spec fn top_level(upgrade: Upgrade) -> int {
    match upgrade {
        Upgrade::AimAssist => 3,
        Upgrade::MaxSpeed => 4,
        Upgrade::Profitability => 2,
        Upgrade::StartMass => 4,
        Upgrade::Sliding => 4,
    }
}

/// What the step from level `level` to the next costs.
pub open spec fn price(upgrade: Upgrade, level: int) -> int {
    match upgrade {
        Upgrade::AimAssist => PRICE_AIM_ASSIST[level] as int,
        Upgrade::MaxSpeed => PRICE_MAX_SPEED[level] as int,
        Upgrade::Profitability => PRICE_PROFITABILITY[level] as int,
        Upgrade::StartMass => PRICE_START_MASS[level] as int,
        Upgrade::Sliding => PRICE_SLIDING[level] as int,
    }
}

/// The state of a game.
pub struct GameView {
    pub world: WorldState,
    pub state: GameState,
    /// The aims that the player has set, by index of the ball.
    pub moves: Map<usize, Vec2>,
    /// The ball that the player holds.
    pub selected: Option<usize>,
    /// The money of the games so far.
    pub total_money: int,
    pub max_speed_level: int,
    pub start_mass_level: int,
    pub aim_assist_level: int,
    pub profitability_level: int,
    pub sliding_level: int,
    /// The highest round that a game has reached.
    pub best_round: int,
}

impl GameView {
    /// The level of `upgrade`.
    pub open spec fn level(self, upgrade: Upgrade) -> int {
        match upgrade {
            Upgrade::AimAssist => self.aim_assist_level,
            Upgrade::MaxSpeed => self.max_speed_level,
            Upgrade::Profitability => self.profitability_level,
            Upgrade::StartMass => self.start_mass_level,
            Upgrade::Sliding => self.sliding_level,
        }
    }

    /// The game with `upgrade` at level `level`.
    pub open spec fn with_level(self, upgrade: Upgrade, level: int) -> GameView {
        match upgrade {
            Upgrade::AimAssist => GameView { aim_assist_level: level, ..self },
            Upgrade::MaxSpeed => GameView { max_speed_level: level, ..self },
            Upgrade::Profitability => GameView { profitability_level: level, ..self },
            Upgrade::StartMass => GameView { start_mass_level: level, ..self },
            Upgrade::Sliding => GameView { sliding_level: level, ..self },
        }
    }

    /// The world is well formed, no level is above its top, every aim and
    /// the held ball belong to a ball on the table, and there are aims and
    /// a held ball only while the player aims.
    pub open spec fn wf(self) -> bool {
        &&& self.world.wf()
        &&& 0 <= self.total_money <= u64::MAX
        &&& 0 <= self.best_round <= usize::MAX
        &&& 0 <= self.aim_assist_level <= top_level(Upgrade::AimAssist)
        &&& 0 <= self.max_speed_level <= top_level(Upgrade::MaxSpeed)
        &&& 0 <= self.profitability_level <= top_level(Upgrade::Profitability)
        &&& 0 <= self.start_mass_level <= top_level(Upgrade::StartMass)
        &&& 0 <= self.sliding_level <= top_level(Upgrade::Sliding)
        &&& forall|index: usize|
            self.moves.contains_key(index) ==> index < self.world.balls.len()
        &&& self.selected matches Some(index) ==> index < self.world.balls.len()
        &&& self.state != GameState::Playing ==> self.moves == Map::<usize, Vec2>::empty()
            && self.selected is None
    }
}

/// `a + b`, as far as the counter goes.
pub open spec fn capped_sum(a: int, b: int) -> int {
    if a + b > u64::MAX {
        u64::MAX as int
    } else {
        a + b
    }
}

/// The game before the first key is pressed: the menu, a new world, no
/// money and no upgrade.
pub open spec fn new_game(seed: u64) -> GameView {
    GameView {
        world: initial_state(0, 0, 0, 0, seed),
        state: GameState::Menu,
        moves: Map::empty(),
        selected: None,
        total_money: 0,
        max_speed_level: 0,
        start_mass_level: 0,
        aim_assist_level: 0,
        profitability_level: 0,
        sliding_level: 0,
        best_round: 0,
    }
}

/// The game once a settled or lost world has been looked at: a lost game
/// hands its money over and is remembered by its round.
pub open spec fn closed_if_over(g: GameView) -> GameView {
    if g.world.game_over {
        GameView {
            world: WorldState { money: 0, ..g.world },
            state: GameState::GameOver,
            total_money: capped_sum(g.total_money, g.world.money),
            best_round: if g.best_round < g.world.round {
                g.world.round
            } else {
                g.best_round
            },
            ..g
        }
    } else {
        g
    }
}

/// One tick of the clock. While balls are running the world ticks; when
/// the balls have settled the round ends and the player aims again; when
/// the game is lost it is over. In any other state nothing happens.
pub open spec fn game_tick_step(g: GameView) -> (GameView, Set<Sounds>) {
    if g.state == GameState::Running {
        let outcome = tick_step(g.world);
        let next = if outcome.moving {
            GameView { world: outcome.world, ..g }
        } else {
            GameView { world: spawn_step(outcome.world), state: GameState::Playing, ..g }
        };
        (closed_if_over(next), outcome.sounds)
    } else {
        (g, Set::empty())
    }
}

/// The space key. It launches the balls that have an aim, leaves the end
/// of a game for the shop, leaves the shop for a new game with the levels
/// bought, and turns the pages of the menu and the tutorial.
pub open spec fn space_step(g: GameView, seed: u64) -> (GameView, Option<Cue>) {
    match g.state {
        GameState::Playing => if g.moves == Map::<usize, Vec2>::empty() {
            (g, None)
        } else {
            (
                GameView {
                    world: launch_step(g.world, g.moves),
                    state: GameState::Running,
                    moves: Map::empty(),
                    selected: None,
                    ..g
                },
                Some(Cue::Shot),
            )
        },
        GameState::Running => (g, None),
        GameState::GameOver => (GameView { state: GameState::Shopping, ..g }, None),
        GameState::Shopping => (
            GameView {
                world: initial_state(
                    g.max_speed_level,
                    g.profitability_level,
                    g.start_mass_level,
                    g.sliding_level,
                    seed,
                ),
                state: GameState::Playing,
                ..g
            },
            None,
        ),
        GameState::Menu => (GameView { state: GameState::Tuto1, ..g }, Some(Cue::Button)),
        GameState::Tuto1 => (GameView { state: GameState::Tuto2, ..g }, Some(Cue::Button)),
        GameState::Tuto2 => (GameView { state: GameState::Playing, ..g }, Some(Cue::Button)),
    }
}

/// The escape key: it leaves the tutorial for the game.
pub open spec fn escape_step(g: GameView) -> (GameView, Option<Cue>) {
    if g.state == GameState::Tuto1 || g.state == GameState::Tuto2 {
        (GameView { state: GameState::Playing, ..g }, Some(Cue::Button))
    } else {
        (g, None)
    }
}

/// Whether the pointer at `pointer` is on ball `index`, a ball of the
/// player.
pub open spec fn points_at(w: WorldState, pointer: Vec2, index: int) -> bool {
    &&& w.balls[index].spec_is_player()
    &&& w.balls[index].position.spec_distance_squared(pointer) < w.balls[index].radius
        * w.balls[index].radius
}

/// The ball that the player holds after a press at `pointer`, the first
/// `upto` balls considered: the last of them that the pointer is on, or
/// else the ball held before.
pub open spec fn picked(w: WorldState, pointer: Vec2, upto: int, held: Option<usize>) -> Option<
    usize,
>
    decreases upto,
{
    if upto <= 0 {
        held
    } else if points_at(w, pointer, upto - 1) {
        Some((upto - 1) as usize)
    } else {
        picked(w, pointer, upto - 1, held)
    }
}

/// A press of the pointer at `pointer`: while the player aims, it takes
/// hold of the ball under the pointer.
pub open spec fn press_step(g: GameView, pointer: Vec2) -> GameView {
    if g.state == GameState::Playing {
        GameView {
            selected: picked(
                g.world,
                pointer.spec_clamped(),
                g.world.balls.len() as int,
                g.selected,
            ),
            ..g
        }
    } else {
        g
    }
}

/// The aim that a pointer at `pointer` gives to a ball at `position`: the
/// way from the ball to the pointer, cut to `MAX_AIM`.
pub open spec fn aim_vector(position: Vec2, pointer: Vec2) -> Vec2 {
    let pull = pointer.spec_delta(position);
    if pull.spec_length_squared() > MAX_AIM * MAX_AIM {
        pull.spec_with_length(MAX_AIM as int)
    } else {
        pull
    }
}

/// Whether a pointer at `pointer` is too far from a ball at `position` to
/// hold it.
pub open spec fn out_of_reach(position: Vec2, pointer: Vec2) -> bool {
    pointer.spec_delta(position).spec_length_squared() > AIM_REACH * AIM_REACH
}

/// The pointer is at `pointer`, and its button is down or has been
/// released. While the player holds a ball this gives the aim of the
/// ball. The ball is let go when the pointer is out of reach or the button
/// is released; a release sets the aim.
pub open spec fn drag_step(g: GameView, pointer: Vec2, released: bool) -> (GameView, Option<
    Vec2,
>) {
    if g.state == GameState::Playing && g.selected is Some {
        let index = g.selected->0;
        let position = g.world.balls[index as int].position;
        let aim = aim_vector(position, pointer.spec_clamped());
        (
            GameView {
                selected: if released || out_of_reach(position, pointer.spec_clamped()) {
                    None
                } else {
                    g.selected
                },
                moves: if released {
                    g.moves.insert(index, aim)
                } else {
                    g.moves
                },
                ..g
            },
            Some(aim),
        )
    } else {
        (g, None)
    }
}

/// A press of the buy button of `upgrade`. In the shop, an upgrade that
/// is not at its top and that the money pays for goes up one level.
pub open spec fn buy_step(g: GameView, upgrade: Upgrade) -> (GameView, Option<Cue>) {
    let level = g.level(upgrade);
    if g.state == GameState::Shopping && level < top_level(upgrade) && g.total_money >= price(
        upgrade,
        level,
    ) {
        (
            GameView { total_money: g.total_money - price(upgrade, level), ..g }.with_level(
                upgrade,
                level + 1,
            ),
            Some(Cue::Button),
        )
    } else {
        (g, None)
    }
}

/// The aims that `slots` holds: slot `index` is the aim of ball `index`.
pub open spec fn aims(slots: Seq<Option<Vec2>>) -> Map<usize, Vec2> {
    Map::new(
        |index: usize| index < slots.len() && slots[index as int] is Some,
        |index: usize| slots[index as int]->0,
    )
}

/// `count` slots, none of them with an aim.
pub fn no_aims(count: usize) -> (slots: Vec<Option<Vec2>>)
    ensures
        slots.len() == count,
        aims(slots@) == Map::<usize, Vec2>::empty(),
        forall|index: int| 0 <= index < count ==> slots[index] is None,
{
    let mut slots: Vec<Option<Vec2>> = Vec::new();
    let mut index: usize = 0;
    while index < count
        invariant
            index <= count,
            slots.len() == index,
            forall|i: int| 0 <= i < index ==> slots[i] is None,
        decreases count - index,
    {
        slots.push(None);
        index += 1;
    }
    assert(aims(slots@) =~= Map::<usize, Vec2>::empty());
    slots
}

/// A game and what surrounds it.
pub struct Game {
    world: World,
    state: GameState,
    /// The aim of each ball while the player aims; empty otherwise.
    moves: Vec<Option<Vec2>>,
    selected: Option<usize>,
    total_money: u64,
    max_speed_level: usize,
    start_mass_level: usize,
    aim_assist_level: usize,
    profitability_level: usize,
    sliding_level: usize,
    best_round: usize,
}

impl View for Game {
    type V = GameView;

    closed spec fn view(&self) -> GameView {
        GameView {
            world: self.world@,
            state: self.state,
            moves: aims(self.moves@),
            selected: self.selected,
            total_money: self.total_money as int,
            max_speed_level: self.max_speed_level as int,
            start_mass_level: self.start_mass_level as int,
            aim_assist_level: self.aim_assist_level as int,
            profitability_level: self.profitability_level as int,
            sliding_level: self.sliding_level as int,
            best_round: self.best_round as int,
        }
    }
}

impl Game {
    /// The game is well formed (see `GameView::wf`) and holds a slot for
    /// the aim of each ball while the player aims, and none otherwise.
    pub closed spec fn wf(&self) -> bool {
        &&& self@.wf()
        &&& self.state == GameState::Playing ==> self.moves.len() == self.world@.balls.len()
        &&& self.state != GameState::Playing ==> self.moves.len() == 0
        &&& forall|index: int|
            0 <= index < self.moves.len() ==> ((#[trigger] self.moves[index]) matches Some(aim)
                ==> aim.wf())
    }

    /// A well-formed game has a well-formed state.
    pub proof fn lemma_wf(&self)
        requires
            self.wf(),
        ensures
            self@.wf(),
    {
    }

    /// A game at its menu. `seed` starts the random source of the first
    /// world.
    pub fn new(seed: u64) -> (game: Game)
        ensures
            game@ == new_game(seed),
            game.wf(),
    {
        let game = Game {
            world: World::new(0, 0, 0, 0, seed),
            state: GameState::Menu,
            moves: Vec::new(),
            selected: None,
            total_money: 0,
            max_speed_level: 0,
            start_mass_level: 0,
            aim_assist_level: 0,
            profitability_level: 0,
            sliding_level: 0,
            best_round: 0,
        };
        assert(aims(game.moves@) =~= Map::<usize, Vec2>::empty());
        game
    }

    /// Whether the game is well formed, as every other method asks.
    pub fn is_valid(&self) -> (ok: bool)
        ensures
            ok == self.wf(),
    {
        if !self.world.is_valid() || self.aim_assist_level > 3 || self.max_speed_level > 4
            || self.profitability_level > 2 || self.start_mass_level > 4 || self.sliding_level
            > 4 {
            return false;
        }
        let count: usize = self.world.ball_count();
        let playing: bool = match self.state {
            GameState::Playing => true,
            _ => false,
        };
        if playing && self.moves.len() != count {
            return false;
        }
        if !playing && (self.moves.len() != 0 || self.selected.is_some()) {
            return false;
        }
        match self.selected {
            Some(index) => {
                if index >= count {
                    return false;
                }
            },
            None => {},
        }
        let mut index: usize = 0;
        while index < self.moves.len()
            invariant
                index <= self.moves.len(),
                forall|i: int|
                    0 <= i < index ==> ((#[trigger] self.moves[i]) matches Some(aim)
                        ==> aim.wf()),
            decreases self.moves.len() - index,
        {
            match self.moves[index] {
                Some(aim) => {
                    if !aim.is_valid() {
                        return false;
                    }
                },
                None => {},
            }
            index += 1;
        }
        proof {
            if !playing {
                assert(aims(self.moves@) =~= Map::<usize, Vec2>::empty());
            }
        }
        true
    }

    /// The world of the game.
    pub fn world(&self) -> (world: &World)
        requires
            self.wf(),
        ensures
            world@ == self@.world,
            world.wf(),
    {
        &self.world
    }

    /// Where the game stands.
    pub fn state(&self) -> (state: GameState)
        ensures
            state == self@.state,
    {
        self.state
    }

    /// The aim that the player has set for ball `index`, if any.
    pub fn aim(&self, index: usize) -> (aim: Option<Vec2>)
        ensures
            aim == if self@.moves.contains_key(index) {
                Some(self@.moves[index])
            } else {
                None
            },
    {
        if index < self.moves.len() {
            self.moves[index]
        } else {
            None
        }
    }

    /// The ball that the player holds.
    pub fn selected(&self) -> (selected: Option<usize>)
        ensures
            selected == self@.selected,
    {
        self.selected
    }

    /// The money of the games so far.
    pub fn total_money(&self) -> (money: u64)
        ensures
            money == self@.total_money,
    {
        self.total_money
    }

    /// The highest round that a game has reached.
    pub fn best_round(&self) -> (round: usize)
        ensures
            round == self@.best_round,
    {
        self.best_round
    }

    /// The level of `upgrade`.
    pub fn level(&self, upgrade: Upgrade) -> (level: usize)
        ensures
            level == self@.level(upgrade),
    {
        match upgrade {
            Upgrade::AimAssist => self.aim_assist_level,
            Upgrade::MaxSpeed => self.max_speed_level,
            Upgrade::Profitability => self.profitability_level,
            Upgrade::StartMass => self.start_mass_level,
            Upgrade::Sliding => self.sliding_level,
        }
    }

    /// Lets the player aim: every ball gets an empty slot for its aim.
    fn start_aiming(&mut self)
        requires
            old(self)@.wf(),
            old(self).state != GameState::Playing,
            old(self).moves.len() == 0,
        ensures
            final(self)@ == (GameView { state: GameState::Playing, ..old(self)@ }),
            final(self).wf(),
    {
        self.moves = no_aims(self.world.ball_count());
        self.state = GameState::Playing;
        assert(aims(old(self).moves@) =~= Map::<usize, Vec2>::empty());
    }

    /// The aims as the map that a launch takes.
    fn aims_of_round(&self) -> (moves: BTreeMap<usize, Vec2>)
        ensures
            moves@ == aims(self.moves@),
    {
        let mut moves: BTreeMap<usize, Vec2> = BTreeMap::new();
        let mut index: usize = 0;
        assert(aims(self.moves@.take(0)) =~= Map::<usize, Vec2>::empty());
        while index < self.moves.len()
            invariant
                index <= self.moves.len(),
                moves@ == aims(self.moves@.take(index as int)),
            decreases self.moves.len() - index,
        {
            match self.moves[index] {
                Some(aim) => {
                    moves.insert(index, aim);
                },
                None => {},
            }
            index += 1;
            assert(moves@ =~= aims(self.moves@.take(index as int)));
        }
        assert(self.moves@.take(index as int) =~= self.moves@);
        moves
    }

    /// One tick of the clock: see `game_tick_step`. The result is what the
    /// world let hear.
    pub fn game_tick(&mut self) -> (sounds: SoundSet)
        requires
            old(self).wf(),
        ensures
            final(self).wf(),
            final(self)@ == game_tick_step(old(self)@).0,
            sounds@ == game_tick_step(old(self)@).1,
    {
        match self.state {
            GameState::Running => {
                let (run, sounds) = self.world.tick();
                if !run {
                    self.world.spawn_round();
                    self.start_aiming();
                }
                if self.world.is_game_over() {
                    let round: usize = self.world.round_number();
                    let money: u64 = self.world.take_money();
                    self.total_money = self.total_money.saturating_add(money);
                    if self.best_round < round {
                        self.best_round = round;
                    }
                    self.moves = Vec::new();
                    self.selected = None;
                    self.state = GameState::GameOver;
                    assert(aims(self.moves@) =~= Map::<usize, Vec2>::empty());
                }
                sounds
            },
            _ => SoundSet::new(),
        }
    }

    /// The space key: see `space_step`. `seed` starts the random source of
    /// the world, should a new game begin.
    pub fn press_space(&mut self, seed: u64) -> (cue: Option<Cue>)
        requires
            old(self).wf(),
        ensures
            final(self).wf(),
            final(self)@ == space_step(old(self)@, seed).0,
            cue == space_step(old(self)@, seed).1,
    {
        match self.state {
            GameState::Playing => {
                let moves: BTreeMap<usize, Vec2> = self.aims_of_round();
                if moves.is_empty() {
                    assert(moves@ =~= Map::<usize, Vec2>::empty());
                    None
                } else {
                    self.selected = None;
                    self.moves = Vec::new();
                    assert(aims(self.moves@) =~= Map::<usize, Vec2>::empty());
                    self.world.launch_round(moves);
                    self.state = GameState::Running;
                    Some(Cue::Shot)
                }
            },
            GameState::Running => None,
            GameState::GameOver => {
                self.state = GameState::Shopping;
                None
            },
            GameState::Shopping => {
                self.world = World::new(
                    self.max_speed_level,
                    self.profitability_level,
                    self.start_mass_level,
                    self.sliding_level,
                    seed,
                );
                self.start_aiming();
                None
            },
            GameState::Menu => {
                self.state = GameState::Tuto1;
                Some(Cue::Button)
            },
            GameState::Tuto1 => {
                self.state = GameState::Tuto2;
                Some(Cue::Button)
            },
            GameState::Tuto2 => {
                self.start_aiming();
                Some(Cue::Button)
            },
        }
    }

    /// The escape key: see `escape_step`.
    pub fn press_escape(&mut self) -> (cue: Option<Cue>)
        requires
            old(self).wf(),
        ensures
            final(self).wf(),
            final(self)@ == escape_step(old(self)@).0,
            cue == escape_step(old(self)@).1,
    {
        match self.state {
            GameState::Tuto1 | GameState::Tuto2 => {
                self.start_aiming();
                Some(Cue::Button)
            },
            _ => None,
        }
    }

    /// A press of the pointer at `pointer`: see `press_step`.
    pub fn press(&mut self, pointer: Vec2)
        requires
            old(self).wf(),
        ensures
            final(self).wf(),
            final(self)@ == press_step(old(self)@, pointer),
    {
        match self.state {
            GameState::Playing => {
                let target: Vec2 = pointer.clamped();
                let count: usize = self.world.ball_count();
                let ghost before = self@;
                let mut held: Option<usize> = self.selected;
                let mut index: usize = 0;
                while index < count
                    invariant
                        index <= count,
                        count == self.world@.balls.len(),
                        self.world.wf(),
                        target.wf(),
                        before.world == self.world@,
                        held == picked(before.world, target, index as int, before.selected),
                        held matches Some(i) ==> i < count,
                        before.selected matches Some(i) ==> i < count,
                    decreases count - index,
                {
                    let ball = self.world.ball(index);
                    assert(self.world@.balls[index as int].wf());
                    if ball.is_player() {
                        let d2: u128 = ball.position.distance_squared(target);
                        let reach: u128 = ball.radius as u128;
                        proof {
                            lemma_product_bound(
                                reach as int,
                                reach as int,
                                LIMIT as int,
                                LIMIT as int,
                            );
                        }
                        if d2 < reach * reach {
                            held = Some(index);
                        }
                    }
                    index += 1;
                }
                self.selected = held;
            },
            _ => {},
        }
    }

    /// The pointer is at `pointer`, with its button down or just released:
    /// see `drag_step`. The result is the aim of the held ball.
    pub fn drag(&mut self, pointer: Vec2, released: bool) -> (aim: Option<Vec2>)
        requires
            old(self).wf(),
        ensures
            final(self).wf(),
            final(self)@ == drag_step(old(self)@, pointer, released).0,
            aim == drag_step(old(self)@, pointer, released).1,
    {
        match (self.state, self.selected) {
            (GameState::Playing, Some(index)) => {
                let target: Vec2 = pointer.clamped();
                let ball = self.world.ball(index);
                assert(self.world@.balls[index as int].wf());
                let pull: Vec2 = target.delta(ball.position);
                let length: u128 = pull.length_squared();
                let aim: Vec2 = if length > (MAX_AIM as u128) * (MAX_AIM as u128) {
                    pull.with_length(MAX_AIM)
                } else {
                    pull
                };
                proof {
                    if length <= MAX_AIM * MAX_AIM {
                        assert(-MAX_AIM <= pull.x <= MAX_AIM && -MAX_AIM <= pull.y <= MAX_AIM)
                            by (nonlinear_arith)
                            requires
                                pull.x * pull.x + pull.y * pull.y <= MAX_AIM * MAX_AIM,
                                MAX_AIM == 150_000_000,
                        ;
                    }
                }
                if released || length > (AIM_REACH as u128) * (AIM_REACH as u128) {
                    self.selected = None;
                }
                if released {
                    let ghost slots = self.moves@;
                    self.moves[index] = Some(aim);
                    assert(aims(self.moves@) =~= aims(slots).insert(index, aim));
                }
                Some(aim)
            },
            _ => None,
        }
    }

    /// A press of the buy button of `upgrade`: see `buy_step`.
    pub fn buy(&mut self, upgrade: Upgrade) -> (cue: Option<Cue>)
        requires
            old(self).wf(),
        ensures
            final(self).wf(),
            final(self)@ == buy_step(old(self)@, upgrade).0,
            cue == buy_step(old(self)@, upgrade).1,
    {
        match self.state {
            GameState::Shopping => {},
            _ => {
                return None;
            },
        }
        let level: usize = self.level(upgrade);
        match upgrade {
            Upgrade::AimAssist => {
                if level < 3 && self.total_money >= PRICE_AIM_ASSIST[level] {
                    self.total_money -= PRICE_AIM_ASSIST[level];
                    self.aim_assist_level = level + 1;
                    return Some(Cue::Button);
                }
            },
            Upgrade::MaxSpeed => {
                if level < 4 && self.total_money >= PRICE_MAX_SPEED[level] {
                    self.total_money -= PRICE_MAX_SPEED[level];
                    self.max_speed_level = level + 1;
                    return Some(Cue::Button);
                }
            },
            Upgrade::Profitability => {
                if level < 2 && self.total_money >= PRICE_PROFITABILITY[level] {
                    self.total_money -= PRICE_PROFITABILITY[level];
                    self.profitability_level = level + 1;
                    return Some(Cue::Button);
                }
            },
            Upgrade::StartMass => {
                if level < 4 && self.total_money >= PRICE_START_MASS[level] {
                    self.total_money -= PRICE_START_MASS[level];
                    self.start_mass_level = level + 1;
                    return Some(Cue::Button);
                }
            },
            Upgrade::Sliding => {
                if level < 4 && self.total_money >= PRICE_SLIDING[level] {
                    self.total_money -= PRICE_SLIDING[level];
                    self.sliding_level = level + 1;
                    return Some(Cue::Button);
                }
            },
        }
        None
    }
}

} // verus!
