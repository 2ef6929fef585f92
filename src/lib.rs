//! A flocking simulation over fixed-point coordinates: every agent steers
//! toward the centre of the others, away from close neighbours and toward
//! the others' mean velocity, and the whole flock advances one tick at a time.

pub mod vector;
pub mod flock;
pub mod laws;
pub mod seed;
