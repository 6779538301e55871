//! A two-side naval combat game on a 10×10 grid: the board model, fleet
//! pieces and their placement rule, automated fleet generation, shot
//! resolution and the game's state machine.
//!
//! The central rule is that no two ships occupy or touch each other's
//! cells, diagonals included. Pieces are validated against it before they
//! are committed, both when the human side places its fleet one command at
//! a time and when the automated side's fleet is placed at random.

pub mod board;
pub mod fleet;
pub mod game;
pub mod piece;
pub mod placement;
pub mod preview;
pub mod room;
pub mod shot;
