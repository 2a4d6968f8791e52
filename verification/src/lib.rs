//! A small n-body gravity simulator with a verified integer core.
//!
//! Bodies ("planets") carry a position, a velocity and a positive mass in
//! fixed integer units. The `physics` module advances a `World` of bodies by
//! one time step at a time: it accumulates pairwise gravitational forces from
//! a frozen snapshot of positions, then integrates each body's motion with
//! semi-implicit Euler. All arithmetic is exact integer arithmetic, proved
//! free of overflow within the documented coordinate bounds.

pub mod isqrt;
pub mod laws;
pub mod model;
pub mod physics;
