//! Renders a grid of grayscale intensities as a grid of characters.
//!
//! The source grid is cut into equal rectangular chunks, one per output
//! character. Each chunk is reduced to the truncated mean of its pixels, and
//! the mean selects a glyph from an ordered ramp.
//!
//! - [`chunk`]: the mean shade of a chunk.
//! - [`ramp`]: the ramp, and the glyph that stands for a shade.
//! - [`grid`]: the text of the grid, assembled chunk by chunk.
//! - [`ascii_raw`]: rendering straight from raw image bytes.
//! - [`pair`]: reading the desired dimensions, written as `80x40`.
//! - [`laws`]: what holds of every rendering.
//! - [`error`]: the ways in which a conversion can fail.

pub mod ascii_raw;
pub mod chunk;
pub mod error;
pub mod grid;
pub mod laws;
pub mod pair;
pub mod ramp;
