//! Conway's Game of Life on a toroidal grid.
//!
//! The [`Universe`] is a bounded mutable grid of cells, bit-packed in
//! row-major order, whose edges wrap so that every cell has exactly eight
//! neighbors. A [`Universe::tick`] advances the whole grid one generation
//! under the standard Life rules, double-buffered so that every neighbor
//! count within one tick reads the same prior generation.

pub mod bitset;
pub mod laws;
pub mod universe;

pub use bitset::block_bit;
pub use bitset::fbs_bits;
pub use universe::Universe;