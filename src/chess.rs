//! The standard chess variant.
pub mod attacks;
pub mod board;
pub mod fen;
pub mod movegen;
pub mod types;
