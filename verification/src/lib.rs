//! Frogs and toads on a row of eight cells: the legal moves of a position
//! and the winner under best play by both sides.
//!
//! `position` holds the mathematical model of the game, `bits` ties
//! occupancy masks to sets of cells, `board` holds the executable state and
//! its move generator, and `search` the exhaustive search for the value of a
//! state.

pub mod bits;
pub mod position;
pub mod board;
pub mod search;
