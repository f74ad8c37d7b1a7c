//! A verified core for a Snake game on a toroidal grid.
//!
//! The snake moves one cell per tick, wraps around the grid edges, grows
//! when it eats food, and the game ends on self-collision. All game rules
//! live in [`game`]; food placement draws its randomness through a thin
//! wrapper in [`rng`].

pub mod game;
mod rng;
