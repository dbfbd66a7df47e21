//! Gameplay simulation core of a small 2D arcade shooter.
//!
//! Positions are fixed-point integers in thousandths of a play-area unit and
//! time is counted in milliseconds, so every rule of the simulation is exact.
pub mod collision;
pub mod effects;
pub mod entities;
pub mod geometry;
pub mod movement;
pub mod schedule;
pub mod spawner;
pub mod world;
