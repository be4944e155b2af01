//! Incremental Voronoi diagrams of sites inside a bounded convex region,
//! on fixed-point coordinates.
//!
//! Every coordinate is an `i64` that counts units of 2^-32, so that all
//! predicates (side of a line, segment crossing, angular order) are decided
//! exactly and every constructed point is a stated rounding of the exact one.

pub mod fixed;
pub mod geometry;
pub mod seq_lemmas;
pub mod text;
