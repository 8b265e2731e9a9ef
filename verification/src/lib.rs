//! Approximation of Bézier patches by flat triangles: the interpolation
//! kernel, subdivision of rectangular patches, uniform refinement of a set of
//! patches, and the conversion of refined patches into triangles; besides,
//! the reading of scenes from text.
pub mod bezier;
pub mod builder;
pub mod math;
pub mod model;
pub mod residue;
pub mod subdivision;
pub mod text;
pub mod triangle;
pub mod util;
