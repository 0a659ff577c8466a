//! Position representation and pseudo-legal move generation for chess.
//!
//! A position is held as bitboards (one 64-bit set of squares per piece and per
//! side) beside a grid of pieces. From a position the generator lists every
//! pseudo-legal move of the side to move, split into quiet moves (to empty
//! squares, castling included) and noisy moves (captures, en passant included).
//!
//! Sliding pieces attack along each ray up to and including the first
//! occupied square: rays are cut at blockers.
use vstd::prelude::*;

pub mod bitboards;
pub mod chess;
mod types;

pub use crate::types::{Board, MoveGen, Side, Variant};
