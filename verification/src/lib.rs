//! A verified 2D flocking ("boids") simulation kernel.
//!
//! Agents steer by separation, alignment and cohesion forces computed from
//! their neighbors, are repelled from the viewport walls, and are projected
//! into clip-space triangle geometry each frame.  All simulation quantities
//! are fixed-point values (signed integers scaled by [`fx::SCALE`]), so every
//! step of the force model is exact integer arithmetic with proved bounds.

pub mod fx;
pub mod vector;
pub mod boid;
pub mod flock;
pub mod rng;
