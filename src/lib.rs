//! Simulation core of a top-down arcade space shooter.
//!
//! All quantities are fixed-point integers: lengths in thousandths of a world
//! unit, times in milliseconds, health in thousandths of a point and fractions
//! in thousandths. Rendering, input, and everything that needs trigonometry
//! or a random direction stay with the host program, which hands the library
//! the resulting vectors.

pub mod fixed;
pub mod products;
mod rng;
pub mod color;
pub mod particles;
pub mod emitters;
pub mod bullets;
pub mod enemies;
pub mod waves;
pub mod player;
pub mod targeting;
pub mod kinematics;
pub mod powerups;
pub mod render;
