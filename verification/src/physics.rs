//! What one ball does in a tick, and what two balls do to each other.

use vstd::prelude::*;
use crate::entity::{Ball, BallType};
use crate::fixed::{
    blend, clamp_positive, int_sqrt, is_sqrt_of, isqrt, lemma_product_bound, mul_div, scaled,
    weighted_mean, Fixed, LIMIT, ONE,
};
use crate::sounds::Sounds;
use crate::table::{
    hole, spec_hole, COIN_RADIUS, COLLISION_SMOOTHNESS, HOLE_COUNT, HOLE_RADIUS, REST_SPEED,
    WORLD_HEIGHT, WORLD_WIDTH,
};
use crate::vec2::Vec2;

verus! {

/// Whether a disc of radius `r` centred at coordinate `p` reaches over one
/// of the two rails at `0` and at `extent`.
pub open spec fn crosses_rail(p: int, r: int, extent: int) -> bool {
    p - r < 0 || p + r > extent
}

/// Coordinate and speed along one axis after the rails have been applied:
/// a disc that reaches over a rail is put back against it and its speed
/// along the axis is reversed.
pub open spec fn reflected(p: int, v: int, r: int, extent: int) -> (int, int) {
    if p - r < 0 {
        (r, -v)
    } else if p + r > extent {
        (extent - r, -v)
    } else {
        (p, v)
    }
}

/// The integer half of a mass, which stays a mass.
pub open spec fn half_mass(mass: int) -> int {
    clamp_positive(mass / 2)
}

/// The radius of a disc of half the area.
pub open spec fn half_area_radius(radius: int) -> int {
    clamp_positive(isqrt(radius * radius / 2))
}

/// The radius of a disc whose area is that of two discs together.
pub open spec fn joint_radius(ra: int, rb: int) -> int {
    clamp_positive(isqrt(ra * ra + rb * rb))
}

/// What comes of testing two balls against each other.
#[derive(Clone, Copy, Debug, PartialEq, Eq, Structural)]
pub enum Contact {
    /// The discs do not overlap.
    Apart,
    /// Two player balls overlap: the ball that they become.
    Merge(Ball),
    /// Any other two balls overlap: the first and the second ball with their
    /// new speeds, and what the bounce sounds like.
    Bounce(Ball, Ball, Sounds),
}

impl Ball {
    /// The ball after it has moved by its speed and friction has slowed it.
    pub open spec fn spec_integrated(self) -> Ball {
        Ball {
            position: self.position.spec_plus(self.speed),
            speed: self.speed.spec_scale(self.friction_coeff as int, ONE as int),
            ..self
        }
    }

    /// Whether the ball reaches over a rail.
    pub open spec fn spec_hits_border(self) -> bool {
        ||| crosses_rail(self.position.x as int, self.radius as int, WORLD_WIDTH as int)
        ||| crosses_rail(self.position.y as int, self.radius as int, WORLD_HEIGHT as int)
    }

    /// The ball after the rails have been applied on both axes.
    pub open spec fn spec_bordered(self) -> Ball {
        let (px, vx) = reflected(
            self.position.x as int,
            self.speed.x as int,
            self.radius as int,
            WORLD_WIDTH as int,
        );
        let (py, vy) = reflected(
            self.position.y as int,
            self.speed.y as int,
            self.radius as int,
            WORLD_HEIGHT as int,
        );
        Ball {
            position: Vec2 { x: px as i64, y: py as i64 },
            speed: Vec2 { x: vx as i64, y: vy as i64 },
            ..self
        }
    }

    /// The ball after its part of a tick: moved, slowed, kept on the table.
    pub open spec fn spec_stepped(self) -> Ball {
        self.spec_integrated().spec_bordered()
    }

    /// Whether the centre of the ball is closer than `HOLE_RADIUS` to a
    /// pocket.
    pub open spec fn spec_in_hole(self) -> bool {
        exists|k: int|
            0 <= k < HOLE_COUNT && #[trigger] self.position.spec_distance_squared(spec_hole(k))
                < HOLE_RADIUS * HOLE_RADIUS
    }

    /// Whether the two discs overlap: the distance of their centres is less
    /// than the sum of their radii.
    pub open spec fn spec_overlaps(self, other: Ball) -> bool {
        self.position.spec_distance_squared(other.position) < (self.radius + other.radius) * (
        self.radius + other.radius)
    }

    /// By how much the two discs overlap: the sum of the radii less the
    /// distance of the centres, rounded down.
    pub open spec fn spec_overlap(self, other: Ball) -> int {
        self.radius + other.radius - isqrt(self.position.spec_distance_squared(other.position))
    }

    /// The one ball that two player balls become: the masses add up, the
    /// centre is the centre of mass, the area is the sum of the areas. The
    /// speed along x is the mean of the speeds weighted by mass; along y it
    /// is half of that mean, so that merging damps the motion across the
    /// table.
    pub open spec fn spec_merged(self, other: Ball) -> Ball {
        let total = self.mass + other.mass;
        Ball {
            mass: clamp_positive(total) as i64,
            position: Vec2 {
                x: blend(
                    self.position.x as int,
                    self.mass as int,
                    other.position.x as int,
                    other.mass as int,
                    total,
                ) as i64,
                y: blend(
                    self.position.y as int,
                    self.mass as int,
                    other.position.y as int,
                    other.mass as int,
                    total,
                ) as i64,
            },
            speed: Vec2 {
                x: blend(
                    self.speed.x as int,
                    self.mass as int,
                    other.speed.x as int,
                    other.mass as int,
                    total,
                ) as i64,
                y: blend(
                    self.speed.y as int,
                    self.mass as int,
                    other.speed.y as int,
                    other.mass as int,
                    2 * total,
                ) as i64,
            },
            friction_coeff: self.friction_coeff,
            radius: joint_radius(self.radius as int, other.radius as int) as i64,
            letypedelaboule: BallType::Player,
        }
    }

    /// The push that a bounce gives: it points from `other` to `self`, and
    /// its length is the overlap times `COLLISION_SMOOTHNESS`.
    pub open spec fn spec_push(self, other: Ball) -> Vec2 {
        self.position.spec_delta(other.position).spec_with_length(
            scaled(self.spec_overlap(other), COLLISION_SMOOTHNESS as int, ONE as int),
        )
    }

    /// The two balls after they have bounced off each other: each gets the
    /// push, away from the other, times the other's mass over its own.
    pub open spec fn spec_bounced(self, other: Ball) -> (Ball, Ball) {
        let push = self.spec_push(other);
        (
            Ball {
                speed: self.speed.spec_plus(push.spec_scale(other.mass as int, self.mass as int)),
                ..self
            },
            Ball {
                speed: other.speed.spec_minus(
                    push.spec_scale(self.mass as int, other.mass as int),
                ),
                ..other
            },
        )
    }

    /// What comes of testing `self` against `other`: nothing where the discs
    /// are apart, a merge of two player balls, a bounce of any other two.
    /// Two enemy balls sound alike whatever their timers.
    pub open spec fn spec_contact(self, other: Ball) -> Contact {
        if !self.spec_overlaps(other) {
            Contact::Apart
        } else if self.spec_is_player() && other.spec_is_player() {
            Contact::Merge(self.spec_merged(other))
        } else {
            let (first, second) = self.spec_bounced(other);
            Contact::Bounce(
                first,
                second,
                if self.spec_is_player() == other.spec_is_player() {
                    Sounds::EnemyEnemy
                } else {
                    Sounds::SlimeEnemy
                },
            )
        }
    }

    /// Whether the ball is the player's and overlaps a coin at `coin`.
    pub open spec fn spec_touches_coin(self, coin: Vec2) -> bool {
        &&& self.spec_is_player()
        &&& self.position.spec_distance_squared(coin) < (self.radius + COIN_RADIUS) * (self.radius
            + COIN_RADIUS)
    }

    /// Whether the ball is faster than `REST_SPEED`.
    pub open spec fn spec_is_moving(self) -> bool {
        self.speed.spec_length_squared() > REST_SPEED * REST_SPEED
    }

    /// The two fragments of a launch with speed `velocity`: each has half
    /// the mass and half the area; they sit on either side of the centre,
    /// one radius of theirs away along `velocity`, and fly apart.
    pub open spec fn spec_split(self, velocity: Vec2) -> (Ball, Ball) {
        let mass = half_mass(self.mass as int) as i64;
        let radius = half_area_radius(self.radius as int) as i64;
        let offset = velocity.spec_with_length(radius as int);
        (
            Ball {
                mass,
                position: self.position.spec_plus(offset),
                speed: velocity,
                friction_coeff: self.friction_coeff,
                radius,
                letypedelaboule: self.letypedelaboule,
            },
            Ball {
                mass,
                position: self.position.spec_minus(offset),
                speed: velocity.spec_negated(),
                friction_coeff: self.friction_coeff,
                radius,
                letypedelaboule: self.letypedelaboule,
            },
        )
    }

    /// Moves the ball by its speed and lets friction slow it.
    pub fn integrate(&mut self)
        requires
            old(self).wf(),
        ensures
            *final(self) == old(self).spec_integrated(),
            final(self).wf(),
    {
        self.position = self.position.plus(self.speed);
        self.speed = self.speed.scale(self.friction_coeff, ONE as u64);
    }

    /// Whether the centre of the ball is closer than `HOLE_RADIUS` to a
    /// pocket.
    pub fn in_hole(&self) -> (fallen: bool)
        requires
            self.wf(),
        ensures
            fallen == self.spec_in_hole(),
    {
        let mut k: usize = 0;
        while k < HOLE_COUNT
            invariant
                k <= HOLE_COUNT,
                self.wf(),
                forall|j: int|
                    0 <= j < k ==> #[trigger] self.position.spec_distance_squared(spec_hole(j))
                        >= HOLE_RADIUS * HOLE_RADIUS,
            decreases HOLE_COUNT - k,
        {
            let d2: u128 = self.position.distance_squared(hole(k));
            if d2 < (HOLE_RADIUS as u128) * (HOLE_RADIUS as u128) {
                return true;
            }
            k += 1;
        }
        false
    }

    /// Whether the two discs overlap.
    pub fn overlaps(&self, other: &Ball) -> (hit: bool)
        requires
            self.wf(),
            other.wf(),
        ensures
            hit == self.spec_overlaps(*other),
    {
        let d2: u128 = self.position.distance_squared(other.position);
        let reach: u128 = (self.radius + other.radius) as u128;
        proof {
            lemma_product_bound(reach as int, reach as int, 2 * LIMIT, 2 * LIMIT);
        }
        d2 < reach * reach
    }

    /// By how much the two discs overlap.
    pub fn overlap(&self, other: &Ball) -> (depth: Fixed)
        requires
            self.wf(),
            other.wf(),
        ensures
            depth == self.spec_overlap(*other),
            -3 * LIMIT <= depth <= 2 * LIMIT,
            self.spec_overlaps(*other) <==> depth > 0,
    {
        let d2: u128 = self.position.distance_squared(other.position);
        let len: u64 = int_sqrt(d2);
        let reach: i64 = self.radius + other.radius;
        proof {
            assert(len <= 3 * LIMIT) by (nonlinear_arith)
                requires
                    len * len <= d2,
                    d2 <= 8 * LIMIT * LIMIT,
                    LIMIT == 1_000_000_000_000,
            ;
            assert(d2 < reach * reach <==> len < reach) by (nonlinear_arith)
                requires
                    is_sqrt_of(len as int, d2 as int),
                    reach >= 0,
            ;
        }
        reach - len as i64
    }

    /// The one ball that `self` and `other` become when they merge.
    pub fn merge(&self, other: &Ball) -> (ball: Ball)
        requires
            self.wf(),
            other.wf(),
        ensures
            ball == self.spec_merged(*other),
            ball.wf(),
    {
        let total: i64 = self.mass + other.mass;
        let mass: i64 = if total > LIMIT {
            LIMIT
        } else {
            total
        };
        proof {
            lemma_product_bound(self.radius as int, self.radius as int, LIMIT as int, LIMIT as int);
            lemma_product_bound(
                other.radius as int,
                other.radius as int,
                LIMIT as int,
                LIMIT as int,
            );
            assert(self.radius * self.radius >= 1) by (nonlinear_arith)
                requires
                    self.radius >= 1,
            ;
            assert(other.radius * other.radius >= 1) by (nonlinear_arith)
                requires
                    other.radius >= 1,
            ;
        }
        let area: u128 = (self.radius as u128) * (self.radius as u128) + (other.radius as u128) * (
        other.radius as u128);
        let root: u64 = int_sqrt(area);
        let radius: i64 = if root > LIMIT as u64 {
            LIMIT
        } else {
            root as i64
        };
        proof {
            assert(root >= 1) by (nonlinear_arith)
                requires
                    is_sqrt_of(root as int, area as int),
                    area >= 2,
            ;
        }
        Ball {
            mass,
            position: Vec2 {
                x: weighted_mean(self.position.x, self.mass, other.position.x, other.mass, total),
                y: weighted_mean(self.position.y, self.mass, other.position.y, other.mass, total),
            },
            speed: Vec2 {
                x: weighted_mean(self.speed.x, self.mass, other.speed.x, other.mass, total),
                y: weighted_mean(self.speed.y, self.mass, other.speed.y, other.mass, 2 * total),
            },
            friction_coeff: self.friction_coeff,
            radius,
            letypedelaboule: BallType::Player,
        }
    }

    /// The two balls after they have bounced off each other.
    pub fn bounce(&self, other: &Ball) -> (pair: (Ball, Ball))
        requires
            self.wf(),
            other.wf(),
        ensures
            pair == self.spec_bounced(*other),
            pair.0.wf(),
            pair.1.wf(),
    {
        let depth: Fixed = self.overlap(other);
        let strength: Fixed = mul_div(depth, COLLISION_SMOOTHNESS, ONE as u64);
        let push: Vec2 = self.position.delta(other.position).with_length(strength);
        let kick_self: Vec2 = push.scale(other.mass, self.mass as u64);
        let kick_other: Vec2 = push.scale(self.mass, other.mass as u64);
        (
            Ball { speed: self.speed.plus(kick_self), ..*self },
            Ball { speed: other.speed.minus(kick_other), ..*other },
        )
    }

    /// Tests `self` against `other`.
    pub fn contact(&self, other: &Ball) -> (outcome: Contact)
        requires
            self.wf(),
            other.wf(),
        ensures
            outcome == self.spec_contact(*other),
            outcome matches Contact::Merge(ball) ==> ball.wf(),
            outcome matches Contact::Bounce(first, second, _) ==> first.wf() && second.wf(),
    {
        if !self.overlaps(other) {
            Contact::Apart
        } else if self.is_player() && other.is_player() {
            Contact::Merge(self.merge(other))
        } else {
            let (first, second) = self.bounce(other);
            let sound: Sounds = if self.is_player() == other.is_player() {
                Sounds::EnemyEnemy
            } else {
                Sounds::SlimeEnemy
            };
            Contact::Bounce(first, second, sound)
        }
    }

    /// Whether the ball is the player's and overlaps a coin at `coin`.
    pub fn touches_coin(&self, coin: Vec2) -> (touched: bool)
        requires
            self.wf(),
            coin.wf(),
        ensures
            touched == self.spec_touches_coin(coin),
    {
        if !self.is_player() {
            return false;
        }
        let d2: u128 = self.position.distance_squared(coin);
        let reach: u128 = (self.radius + COIN_RADIUS) as u128;
        proof {
            lemma_product_bound(reach as int, reach as int, 2 * LIMIT, 2 * LIMIT);
        }
        d2 < reach * reach
    }

    /// Whether the ball is faster than `REST_SPEED`.
    pub fn is_moving(&self) -> (moving: bool)
        ensures
            moving == self.spec_is_moving(),
    {
        self.speed.length_squared() > (REST_SPEED as u128) * (REST_SPEED as u128)
    }

    /// The two fragments of a launch with speed `velocity`.
    pub fn split(&self, velocity: Vec2) -> (pair: (Ball, Ball))
        requires
            self.wf(),
            velocity.wf(),
        ensures
            pair == self.spec_split(velocity),
            pair.0.wf(),
            pair.1.wf(),
    {
        let half: i64 = self.mass / 2;
        let mass: i64 = if half < 1 {
            1
        } else {
            half
        };
        proof {
            lemma_product_bound(self.radius as int, self.radius as int, LIMIT as int, LIMIT as int);
            assert(self.radius * self.radius >= 1) by (nonlinear_arith)
                requires
                    self.radius >= 1,
            ;
        }
        let area: u128 = (self.radius as u128) * (self.radius as u128) / 2;
        let root: u64 = int_sqrt(area);
        proof {
            assert(root <= LIMIT) by (nonlinear_arith)
                requires
                    root * root <= area,
                    area <= LIMIT * LIMIT,
                    LIMIT == 1_000_000_000_000,
            ;
        }
        let radius: i64 = if root < 1 {
            1
        } else {
            root as i64
        };
        let offset: Vec2 = velocity.with_length(radius);
        (
            Ball {
                mass,
                position: self.position.plus(offset),
                speed: velocity,
                friction_coeff: self.friction_coeff,
                radius,
                letypedelaboule: self.letypedelaboule,
            },
            Ball {
                mass,
                position: self.position.minus(offset),
                speed: velocity.negated(),
                friction_coeff: self.friction_coeff,
                radius,
                letypedelaboule: self.letypedelaboule,
            },
        )
    }
}

} // verus!
