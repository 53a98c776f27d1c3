//! The balls on the table.

use vstd::prelude::*;
use crate::fixed::{Fixed, LIMIT, ONE};
use crate::vec2::Vec2;

verus! {

/// What an enemy ball carries besides its body.
#[derive(Clone, Copy, Debug, PartialEq, Eq, Structural)]
pub struct EnemyData {
    /// Rounds left before the ball ends the game.
    pub timer: usize,
}

/// The two kinds of ball.
#[derive(Clone, Copy, Debug, PartialEq, Eq, Structural)]
pub enum BallType {
    Player,
    Enemy(EnemyData),
}

/// A disc on the table.
#[derive(Clone, Copy, Debug, PartialEq, Eq, Structural)]
pub struct Ball {
    pub mass: Fixed,
    pub position: Vec2,
    /// Displacement per tick.
    pub speed: Vec2,
    /// Share of its speed that the ball keeps from one tick to the next.
    pub friction_coeff: Fixed,
    pub radius: Fixed,
    pub letypedelaboule: BallType,
}

impl Ball {
    /// Mass and radius are positive, the friction coefficient lies strictly
    /// between zero and one, and every quantity is within range.
    pub open spec fn wf(self) -> bool {
        &&& 1 <= self.mass <= LIMIT
        &&& 1 <= self.radius <= LIMIT
        &&& 0 < self.friction_coeff < ONE
        &&& self.position.wf()
        &&& self.speed.wf()
    }

    /// Whether the ball is the player's.
    pub open spec fn spec_is_player(self) -> bool {
        self.letypedelaboule is Player
    }

    pub fn new(
        mass: Fixed,
        position: Vec2,
        speed: Vec2,
        friction_coeff: Fixed,
        radius: Fixed,
        letypedelaboule: BallType,
    ) -> (ball: Ball)
        ensures
            ball == (Ball { mass, position, speed, friction_coeff, radius, letypedelaboule }),
    {
        Ball { mass, position, speed, friction_coeff, radius, letypedelaboule }
    }

    /// Whether the ball is well formed.
    pub fn is_valid(&self) -> (ok: bool)
        ensures
            ok == self.wf(),
    {
        1 <= self.mass && self.mass <= LIMIT && 1 <= self.radius && self.radius <= LIMIT && 0
            < self.friction_coeff && self.friction_coeff < ONE && self.position.is_valid()
            && self.speed.is_valid()
    }

    /// Whether the ball is the player's.
    pub fn is_player(&self) -> (player: bool)
        ensures
            player == self.spec_is_player(),
    {
        match self.letypedelaboule {
            BallType::Player => true,
            BallType::Enemy(_) => false,
        }
    }
}

} // verus!
