//! Conway's Game of Life on a toroidal grid, with a glyph renderer that maps
//! cell states to terminal characters.

pub mod array;
pub mod life;
pub mod render;
