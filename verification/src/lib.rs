//! A pool table on which slimes merge: the simulation of the game, in
//! fixed-point arithmetic, with its behaviour stated and proved.
//!
//! - `fixed`, `vec2`: saturating fixed-point numbers and vectors.
//! - `table`: the geometry of the table and the scaling tables.
//! - `entity`, `physics`: the balls, and what they do alone and in pairs.
//! - `sounds`, `rng`, `marks`: sound events, the random source, removal.
//! - `model`: the world and its three transitions as mathematics.
//! - `world`: the world that runs, held to the model.
//! - `laws`, `upkeep`: what holds of every world.
//! - `game`: the course of a game around the world.

pub mod fixed;
pub mod vec2;
pub mod table;
pub mod sounds;
pub mod entity;
pub mod physics;
pub mod rng;
pub mod model;
pub mod marks;
pub mod world;
pub mod laws;
pub mod upkeep;
pub mod game;
