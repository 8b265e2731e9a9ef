//! Bézier entities: curves, rectangular patches and triangular patches.
pub mod bernstein;
pub mod curve;
pub mod grid;
pub mod laws;
pub mod line;
pub mod rectangle;
pub mod triangle;
