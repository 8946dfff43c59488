//! Core of a small arcade game: a player moves along the floor and fires
//! projectiles upward to pop bouncing balls, which split into smaller balls.
//!
//! The library holds the game's rules on integer coordinates: the size table
//! that maps a ball's rank to its diameter and bounce impulse, the motion
//! integrator, the boundary bounce resolver, the projectile lifecycle, the
//! collision-to-split event pipeline, and the player wall clamp. Rendering,
//! window management and raw input polling live outside; the library consumes
//! already-debounced per-tick intents and exposes the entity state for a
//! renderer to draw.

pub mod arrow;
pub mod ball;
pub mod collide;
pub mod config;
pub mod player;
pub mod sides_of_screen;
pub mod size_table;
pub mod world;
