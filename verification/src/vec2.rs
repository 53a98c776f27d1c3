//! Two-dimensional fixed-point vectors.

use vstd::prelude::*;
use crate::fixed::{
    clamp, in_range, int_sqrt, isqrt, lemma_product_bound, magnitude, mul_div, sat_add, sat_sub,
    scaled, Fixed, LIMIT,
};

verus! {

/// A point of the table, or a displacement per tick, in fixed-point steps.
#[derive(Clone, Copy, Debug, PartialEq, Eq, Structural)]
pub struct Vec2 {
    pub x: Fixed,
    pub y: Fixed,
}

impl Vec2 {
    /// Both coordinates are within the range of a stored quantity.
    pub open spec fn wf(self) -> bool {
        in_range(self.x as int) && in_range(self.y as int)
    }

    /// The vector with both coordinates zero.
    pub open spec fn spec_zero() -> Vec2 {
        Vec2 { x: 0, y: 0 }
    }

    /// The vector with each coordinate saturated.
    pub open spec fn spec_clamped(self) -> Vec2 {
        Vec2 { x: clamp(self.x as int) as i64, y: clamp(self.y as int) as i64 }
    }

    /// The saturating coordinate-wise sum.
    pub open spec fn spec_plus(self, other: Vec2) -> Vec2 {
        Vec2 { x: clamp(self.x + other.x) as i64, y: clamp(self.y + other.y) as i64 }
    }

    /// The saturating coordinate-wise difference.
    pub open spec fn spec_minus(self, other: Vec2) -> Vec2 {
        Vec2 { x: clamp(self.x - other.x) as i64, y: clamp(self.y - other.y) as i64 }
    }

    /// The saturating opposite vector.
    pub open spec fn spec_negated(self) -> Vec2 {
        Vec2 { x: clamp(-self.x) as i64, y: clamp(-self.y) as i64 }
    }

    /// The exact difference of two well-formed vectors.
    pub open spec fn spec_delta(self, other: Vec2) -> Vec2 {
        Vec2 { x: (self.x - other.x) as i64, y: (self.y - other.y) as i64 }
    }

    /// The squared Euclidean length.
    pub open spec fn spec_length_squared(self) -> int {
        self.x * self.x + self.y * self.y
    }

    /// The Euclidean length, rounded down.
    pub open spec fn spec_length(self) -> int {
        isqrt(self.spec_length_squared())
    }

    /// The squared Euclidean distance to `other`.
    pub open spec fn spec_distance_squared(self, other: Vec2) -> int {
        (self.x - other.x) * (self.x - other.x) + (self.y - other.y) * (self.y - other.y)
    }

    /// Both coordinates multiplied by `num / den`.
    pub open spec fn spec_scale(self, num: int, den: int) -> Vec2 {
        Vec2 {
            x: scaled(self.x as int, num, den) as i64,
            y: scaled(self.y as int, num, den) as i64,
        }
    }

    /// The vector along `self` whose length is `target`; the zero vector
    /// where `self` has no length.
    pub open spec fn spec_with_length(self, target: int) -> Vec2 {
        if self.spec_length() == 0 {
            Vec2::spec_zero()
        } else {
            self.spec_scale(target, self.spec_length())
        }
    }

    pub fn new(x: Fixed, y: Fixed) -> (v: Vec2)
        ensures
            v == (Vec2 { x, y }),
    {
        Vec2 { x, y }
    }

    pub fn zero() -> (v: Vec2)
        ensures
            v == Vec2::spec_zero(),
            v.wf(),
    {
        Vec2 { x: 0, y: 0 }
    }

    /// Whether both coordinates are within the range of a stored quantity.
    pub fn is_valid(&self) -> (ok: bool)
        ensures
            ok == self.wf(),
    {
        -LIMIT <= self.x && self.x <= LIMIT && -LIMIT <= self.y && self.y <= LIMIT
    }

    /// The vector with each coordinate saturated.
    pub fn clamped(self) -> (v: Vec2)
        ensures
            v == self.spec_clamped(),
            v.wf(),
            self.wf() ==> v == self,
    {
        Vec2 { x: sat_add(self.x, 0), y: sat_add(self.y, 0) }
    }

    pub fn plus(self, other: Vec2) -> (v: Vec2)
        ensures
            v == self.spec_plus(other),
            v.wf(),
    {
        Vec2 { x: sat_add(self.x, other.x), y: sat_add(self.y, other.y) }
    }

    pub fn minus(self, other: Vec2) -> (v: Vec2)
        ensures
            v == self.spec_minus(other),
            v.wf(),
    {
        Vec2 { x: sat_sub(self.x, other.x), y: sat_sub(self.y, other.y) }
    }

    pub fn negated(self) -> (v: Vec2)
        ensures
            v == self.spec_negated(),
            v.wf(),
    {
        Vec2 { x: sat_sub(0, self.x), y: sat_sub(0, self.y) }
    }

    pub fn delta(self, other: Vec2) -> (v: Vec2)
        requires
            self.wf(),
            other.wf(),
        ensures
            v == self.spec_delta(other),
            v.x == self.x - other.x,
            v.y == self.y - other.y,
    {
        Vec2 { x: self.x - other.x, y: self.y - other.y }
    }

    pub fn length_squared(self) -> (n: u128)
        ensures
            n == self.spec_length_squared(),
    {
        let ax: u128 = magnitude(self.x);
        let ay: u128 = magnitude(self.y);
        proof {
            lemma_product_bound(
                ax as int,
                ax as int,
                0x8000_0000_0000_0000,
                0x8000_0000_0000_0000,
            );
            lemma_product_bound(
                ay as int,
                ay as int,
                0x8000_0000_0000_0000,
                0x8000_0000_0000_0000,
            );
            assert(ax * ax == self.x * self.x) by (nonlinear_arith)
                requires
                    ax == self.x || ax == -self.x,
            ;
            assert(ay * ay == self.y * self.y) by (nonlinear_arith)
                requires
                    ay == self.y || ay == -self.y,
            ;
        }
        ax * ax + ay * ay
    }

    pub fn length(self) -> (n: u64)
        ensures
            n == self.spec_length(),
    {
        int_sqrt(self.length_squared())
    }

    pub fn distance_squared(self, other: Vec2) -> (n: u128)
        requires
            self.wf(),
            other.wf(),
        ensures
            n == self.spec_distance_squared(other),
            n <= 8 * LIMIT * LIMIT,
    {
        let d: Vec2 = self.delta(other);
        proof {
            lemma_product_bound(d.x as int, d.x as int, 2 * LIMIT, 2 * LIMIT);
            lemma_product_bound(d.y as int, d.y as int, 2 * LIMIT, 2 * LIMIT);
        }
        d.length_squared()
    }

    pub fn scale(self, num: Fixed, den: u64) -> (v: Vec2)
        requires
            den > 0,
        ensures
            v == self.spec_scale(num as int, den as int),
            v.wf(),
    {
        Vec2 { x: mul_div(self.x, num, den), y: mul_div(self.y, num, den) }
    }

    pub fn with_length(self, target: Fixed) -> (v: Vec2)
        ensures
            v == self.spec_with_length(target as int),
            v.wf(),
    {
        let len: u64 = self.length();
        if len == 0 {
            Vec2::zero()
        } else {
            self.scale(target, len)
        }
    }
}

} // verus!
