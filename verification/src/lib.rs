//! A half-edge mesh topology engine: vertices, directed half-edges, shared
//! edges and triangular faces kept consistent (closed face cycles, symmetric
//! opposite links, two-manifold edges) through incremental construction and
//! removal, together with the polygon triangulation and Wavefront text
//! parsing that feed it.

pub mod half_edge;
pub mod obj_import;
pub mod polygon;
pub mod topology;
pub mod transform;
pub mod triangulation;
pub mod vertex;
pub mod wavefront;
