//! The Voronoi diagram and the elements it is made of.

pub mod assemble;
pub mod id_set;
pub mod region;
pub mod types;
pub mod voronoi_diagram;
pub mod walk;
