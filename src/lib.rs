//! A 9x9 grid-logic puzzle engine: cell storage split into 3x3 blocks,
//! uniqueness validation, candidate derivation and one-step deduction.

pub mod block;
pub mod board;
pub mod cursor;
pub mod error;
pub mod grid;
pub mod index;
pub mod laws;
pub mod value;
