//! A 4×4 board of coloured, tiered stacks, and the detection of scoring
//! patterns on it.
//!
//! Cells are named by a column letter `i` to `l` and a row digit `1` to `4`.
//! A stack is a colour and a tier; it may only go on a cell exactly one tier
//! above what is there. Shapes (`Pattern`s) scan a board and return every
//! occurrence as a set of cells, each occurrence once.

pub mod board;
pub mod error;
pub mod mask;
pub mod pattern;
pub mod pieces;
pub mod position;

pub use crate::board::Board;
pub use crate::error::Error;
pub use crate::mask::{Mask, MaskSet};
pub use crate::pattern::{
    AdjacentColors, AdjacentT2, Corner, Diagonal, DiagonalStacks, Line, Orientations, Pattern, Square,
    Surround,
};
pub use crate::pieces::{Color, Height, Stack, Tier, TierLevel};
pub use crate::position::Position;
