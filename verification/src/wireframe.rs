//! Wireframe drawing state.
//!
//! Wireframes reuse the mesh pipeline with line polygon mode, so the
//! renderer itself carries no state.
use vstd::prelude::*;

verus! {

/// Draws meshes as wireframes with the shared line pipeline.
#[derive(Debug, Clone, Copy, PartialEq, Eq, Structural)]
pub struct WireframeRenderer;

impl WireframeRenderer {
    /// A wireframe renderer; it needs no state of its own.
    pub fn new() -> (r: Self)
        ensures
            r == WireframeRenderer,
    {
        WireframeRenderer
    }
}

} // verus!
