//! Primitive and user-defined implicit surfaces.
use vstd::prelude::*;
use crate::text::str_eq;

verus! {

/// Type-safe representation of the supported primitive / custom surfaces.
#[derive(Clone, Debug, PartialEq)]
pub enum SurfaceType {
    Sphere,
    Torus,
    /// User-defined surface (script source).
    Custom(String),
}

/// Internal name of a surface kind.
pub open spec fn spec_surface_name(s: SurfaceType) -> Seq<char> {
    match s {
        SurfaceType::Sphere => "sphere"@,
        SurfaceType::Torus => "torus"@,
        SurfaceType::Custom(_) => "custom"@,
    }
}

/// Display label of a surface kind.
pub open spec fn spec_surface_label(s: SurfaceType) -> Seq<char> {
    match s {
        SurfaceType::Sphere => "Sphere"@,
        SurfaceType::Torus => "Torus"@,
        SurfaceType::Custom(_) => "Custom"@,
    }
}

/// The primitive whose internal name is `name`, if any.
pub open spec fn spec_surface_from_name(name: Seq<char>) -> Option<SurfaceType> {
    if name == "sphere"@ {
        Some(SurfaceType::Sphere)
    } else if name == "torus"@ {
        Some(SurfaceType::Torus)
    } else {
        None
    }
}

impl SurfaceType {
    /// Returns the internal name used by tree construction.
    pub fn name(&self) -> (r: &str)
        ensures
            r@ == spec_surface_name(*self),
    {
        match self {
            SurfaceType::Sphere => "sphere",
            SurfaceType::Torus => "torus",
            SurfaceType::Custom(_) => "custom",
        }
    }

    /// Returns the display label for UI.
    pub fn label(&self) -> (r: &str)
        ensures
            r@ == spec_surface_label(*self),
    {
        match self {
            SurfaceType::Sphere => "Sphere",
            SurfaceType::Torus => "Torus",
            SurfaceType::Custom(_) => "Custom",
        }
    }

    /// True if this is a primitive shape (sphere, torus).
    pub fn is_primitive(&self) -> (r: bool)
        ensures
            r == !(*self is Custom),
    {
        match self {
            SurfaceType::Sphere => true,
            SurfaceType::Torus => true,
            SurfaceType::Custom(_) => false,
        }
    }

    /// Returns all built-in surfaces (excluding Custom).
    pub fn builtin_surfaces() -> (r: Vec<SurfaceType>)
        ensures
            r@ == seq![SurfaceType::Sphere, SurfaceType::Torus],
    {
        vec![SurfaceType::Sphere, SurfaceType::Torus]
    }

    /// Returns all primitive surfaces.
    pub fn primitive_surfaces() -> (r: Vec<SurfaceType>)
        ensures
            r@ == seq![SurfaceType::Sphere, SurfaceType::Torus],
    {
        vec![SurfaceType::Sphere, SurfaceType::Torus]
    }

    /// Parse from internal name string; only the primitives have a name
    /// that parses.
    pub fn from_name(name: &str) -> (r: Option<SurfaceType>)
        ensures
            r == spec_surface_from_name(name@),
    {
        if str_eq(name, "sphere") {
            Some(SurfaceType::Sphere)
        } else if str_eq(name, "torus") {
            Some(SurfaceType::Torus)
        } else {
            None
        }
    }
}

/// Parsing a primitive's own name gives the primitive back.
pub proof fn lemma_primitive_name_roundtrip(s: SurfaceType)
    requires
        !(s is Custom),
    ensures
        spec_surface_from_name(spec_surface_name(s)) == Some(s),
{
    reveal_strlit("sphere");
    reveal_strlit("torus");
    assert(("sphere"@).len() == 6);
    assert(("torus"@).len() == 5);
}

/// A custom surface's name never parses back to a surface.
pub proof fn lemma_custom_name_unparsed(s: SurfaceType)
    requires
        s is Custom,
    ensures
        spec_surface_from_name(spec_surface_name(s)) is None,
{
    reveal_strlit("sphere");
    reveal_strlit("torus");
    reveal_strlit("custom");
    assert(("sphere"@).len() == 6);
    assert(("torus"@).len() == 5);
    assert(("custom"@).len() == 6);
    assert(("custom"@)[0] != ("sphere"@)[0]);
}

} // verus!
