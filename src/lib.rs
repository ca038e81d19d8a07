//! Procedural generation and state of a sliding-tile colour puzzle.

pub mod chance;
pub mod color;
pub mod css;
pub mod gradient;
pub mod grid;
pub mod puzzle;
pub mod round_trip;
pub mod settings;
pub mod savegame;
