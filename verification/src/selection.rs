//! Element selection state (which vertex / edge / face is picked).
use vstd::prelude::*;

verus! {

/// Which kind of element is currently selected, and its index into the mesh.
///
/// `Nothing` means no element is selected.
#[derive(Debug, Clone, Copy, PartialEq, Eq, Default)]
pub enum Selection {
    #[default]
    Nothing,
    /// A single vertex; index into the vertex list.
    Vertex(u32),
    /// A single edge; index into the deduplicated edge list.
    Edge(u32),
    /// A single triangle; index into the triangle list.
    Face(u32),
}

impl Selection {
    /// Human-readable kind name (for UI labels).
    pub fn kind(&self) -> (r: &'static str)
        ensures
            r@ == (match *self {
                Selection::Nothing => "none"@,
                Selection::Vertex(_) => "vertex"@,
                Selection::Edge(_) => "edge"@,
                Selection::Face(_) => "face"@,
            }),
    {
        match self {
            Selection::Nothing => "none",
            Selection::Vertex(_) => "vertex",
            Selection::Edge(_) => "edge",
            Selection::Face(_) => "face",
        }
    }

    /// The element index, if any is selected.
    pub fn index(&self) -> (r: Option<u32>)
        ensures
            r == (match *self {
                Selection::Nothing => None,
                Selection::Vertex(i) => Some(i),
                Selection::Edge(i) => Some(i),
                Selection::Face(i) => Some(i),
            }),
    {
        match self {
            Selection::Nothing => None,
            Selection::Vertex(i) => Some(*i),
            Selection::Edge(i) => Some(*i),
            Selection::Face(i) => Some(*i),
        }
    }
}

} // verus!
