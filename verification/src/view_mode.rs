//! View mode for scene rendering: solid, wireframe, vertex points, or color-map style.

use vstd::prelude::*;

verus! {

/// How scene geometry is drawn.
#[derive(Clone, Copy, Debug, PartialEq, Eq, Structural, Hash)]
pub enum ViewMode {
    /// Filled triangles (default).
    Solid,
    /// Polygon edges only (wireframe). Uses the same vertex data with line polygon mode; not all
    /// backends support line mode and may fall back to solid.
    Wireframe,
    /// Vertices as points. Uses the same vertex data with point list topology.
    VertexPoints,
    /// Vertex colors as-is (current default shading). Reserved for scalar/attribute visualization.
    ColorMap,
    /// Normals visualization: colors by view-space direction; RGB = (dir+1)/2.
    Normals,
}

impl Default for ViewMode {
    fn default() -> (m: Self)
        ensures
            m == ViewMode::Solid,
    {
        ViewMode::Solid
    }
}

/// Short display name of a view mode.
pub open spec fn spec_view_mode_label(mode: ViewMode) -> Seq<char> {
    match mode {
        ViewMode::Solid => "Solid"@,
        ViewMode::Wireframe => "Wireframe"@,
        ViewMode::VertexPoints => "Vertex Points"@,
        ViewMode::ColorMap => "Color Map"@,
        ViewMode::Normals => "Normals"@,
    }
}

/// Short display name for a view mode.
pub fn view_mode_label(mode: ViewMode) -> (r: &'static str)
    ensures
        r@ == spec_view_mode_label(mode),
{
    match mode {
        ViewMode::Solid => "Solid",
        ViewMode::Wireframe => "Wireframe",
        ViewMode::VertexPoints => "Vertex Points",
        ViewMode::ColorMap => "Color Map",
        ViewMode::Normals => "Normals",
    }
}

} // verus!
