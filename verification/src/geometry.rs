//! Planar geometry on fixed-point coordinates.

pub mod distance;
pub mod line;
pub mod polygon;
pub mod rect;
pub mod vec2d;
pub mod voronoi_diagram;
