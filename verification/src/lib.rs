//! A two-dimensional particle simulation: bodies are spawned with the pointer,
//! launched by a drag gesture, bounce off the walls of the viewport and
//! exchange momentum in elastic collisions.
//!
//! All quantities are fixed-point numbers, so that every rounding is part of
//! the contracts: `fixed` holds the scalars, `vector` the vectors, `particle`
//! the body, `integrator` its motion in one frame, `collision` the collision
//! of two bodies with the laws of momentum and energy, `separation` the law
//! that resolved bodies no longer overlap, `projection` the laws of the
//! velocities after a collision when they are taken apart again, and `model`
//! the state of the simulation with the pointer events and the frame.

pub mod fixed;
pub mod vector;
pub mod particle;
pub mod integrator;
pub mod collision;
pub mod separation;
pub mod projection;
pub mod model;
