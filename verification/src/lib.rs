//! A verified core for a flocking ("boids") simulation: a uniform spatial
//! grid over a toroidal 2D world, and the per-frame pipeline of position
//! integration with wraparound, grid-membership maintenance, neighborhood
//! force accumulation, and velocity integration with speed clamping.
//!
//! All simulation quantities are fixed-point integers (`i64` world units),
//! so every stage is exact and provable; a host loop converts to whatever
//! representation its renderer wants.

pub mod arith;
pub mod components;
pub mod config;
pub mod neighborhood;
pub mod state;
pub mod integrate;
pub mod flocking;
pub mod accel;
pub mod sim;
