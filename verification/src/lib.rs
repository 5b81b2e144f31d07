//! A fixed-point N-body gravitational simulation kernel.
//!
//! Bodies carry position, velocity and mass, all held as integers in
//! sub-units (one unit is `SCALE` sub-units), so every physics step is
//! exact integer arithmetic with stated rounding.  Each simulation step
//! advances positions by velocity, accumulates pairwise gravitational
//! attraction into velocities, and merges overlapping bodies while
//! conserving mass and (up to rounding) momentum.

pub mod body;
pub mod collide;
pub mod gravity;
pub mod math;
pub mod pairs;
pub mod seeder;
pub mod vec3;
pub mod world;
