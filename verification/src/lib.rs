//! Text that emerges from noise: a grid of glyphs that starts out random and
//! converges, cell by cell, on a target text.

pub mod error;
pub mod matrix;
pub mod model;
pub mod probability;
pub mod random;
pub mod text;
pub mod vocabulary;
