//! Engineering-visualisation core logic: surface catalogues, TPMS families,
//! mesh connectivity analysis (edges, topology, winding), marching-cubes and
//! marching-squares case tables, and mesh-format detection.
//!
//! Geometry in floating point is handled by the host application; this crate
//! holds the discrete logic that decides *which* triangles, edges and cases are
//! produced, with its behaviour stated in contracts.
pub mod text;
pub mod surface;
pub mod tpms;
pub mod selection;
pub mod pipeline;
pub mod mesh_format;
pub mod mc_tables;
pub mod marching_cubes;
pub mod union_find;
pub mod connectivity;
pub mod adjacency;
pub mod topology;
pub mod winding;
pub mod edges;
pub mod dedup;
pub mod marching_squares;
pub mod boundary;
pub mod clip;
pub mod grid;
pub mod patterns;
pub mod wireframe;
