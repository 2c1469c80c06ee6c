//! Polygonisation backend and post-processing stage configuration.
use vstd::prelude::*;

verus! {

/// Polygonisation backend.
#[derive(Clone, Copy, PartialEq, Eq, Debug)]
pub enum MeshBackend {
    MarchingCubes33,
    DualContouring,
}

/// Dual Contouring: adaptive octree of the given depth.
#[derive(Debug, Clone, Copy, PartialEq, Eq)]
pub struct DualContouring {
    pub depth: u8,
}

/// Marching Cubes 33 on a regular grid of the given resolution.
#[derive(Debug, Clone, Copy, PartialEq, Eq)]
pub struct MarchingCubes33 {
    pub res: usize,
}

/// Post-processing step: recompute smooth per-vertex normals.
#[derive(Debug, Clone, Copy, Default, PartialEq, Eq)]
pub struct GradientNormalRecompute;

/// Post-processing step that does nothing.
#[derive(Debug, Clone, Copy, Default, PartialEq, Eq)]
pub struct NoPost;

/// Serializable polygoniser selection.
#[derive(Debug, Clone, Copy, PartialEq, Eq)]
pub enum PolygonizerConfig {
    DualContouring { depth: u8 },
    MarchingCubes33 { res: usize },
}

impl DualContouring {
    /// Human-readable algorithm name.
    pub fn name(&self) -> (r: &'static str)
        ensures
            r@ == "Dual Contouring"@,
    {
        "Dual Contouring"
    }
}

impl MarchingCubes33 {
    /// Human-readable algorithm name.
    pub fn name(&self) -> (r: &'static str)
        ensures
            r@ == "Marching Cubes 33"@,
    {
        "Marching Cubes 33"
    }
}

impl GradientNormalRecompute {
    /// Human-readable step name.
    pub fn name(&self) -> (r: &'static str)
        ensures
            r@ == "Gradient Normal Recompute"@,
    {
        "Gradient Normal Recompute"
    }
}

impl NoPost {
    /// Human-readable step name.
    pub fn name(&self) -> (r: &'static str)
        ensures
            r@ == "none"@,
    {
        "none"
    }
}

impl MeshBackend {
    /// The polygoniser configuration a backend selects: Dual Contouring keeps
    /// the octree depth, Marching Cubes 33 keeps the grid resolution.
    pub fn polygonizer_config(&self, depth: u8, mc_res: usize) -> (r: PolygonizerConfig)
        ensures
            r == (match *self {
                MeshBackend::DualContouring => PolygonizerConfig::DualContouring { depth },
                MeshBackend::MarchingCubes33 => PolygonizerConfig::MarchingCubes33 { res: mc_res },
            }),
    {
        match self {
            MeshBackend::DualContouring => PolygonizerConfig::DualContouring { depth },
            MeshBackend::MarchingCubes33 => PolygonizerConfig::MarchingCubes33 { res: mc_res },
        }
    }
}

} // verus!
