//! Fixed-step rigid-body collision and response engine for a small
//! arcade-physics ball game.
//!
//! All scalar quantities are saturating fixed-point numbers: an `i64` counts
//! units of `1/SCALE`, and every arithmetic step clamps its result to
//! `[-FX_MAX, FX_MAX]`.  This keeps every operation total and exactly
//! specified, so the geometry tests, the contact gathering pass and the
//! contact resolution pass can carry full functional contracts.

pub mod fx;
pub mod vec3;
pub mod geom;
pub mod shapes;
pub mod events;
pub mod physics;
pub mod camera_control;
pub mod collision;
pub mod game;
