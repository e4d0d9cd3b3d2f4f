//! Transform gizmo modes and handle axes.

use vstd::prelude::*;

verus! {

/// Which transform the gizmo edits.
#[derive(Clone, Copy, Debug, PartialEq, Eq, Structural)]
pub enum GizmoMode {
    /// Move along an axis (arrows).
    Translate,
    /// Rotate about an axis (rings).
    Rotate,
    /// Scale along an axis (arrows with box tips).
    Scale,
}

impl Default for GizmoMode {
    fn default() -> (m: Self)
        ensures
            m == GizmoMode::Translate,
    {
        GizmoMode::Translate
    }
}

/// Axis of a gizmo handle.
#[derive(Clone, Copy, Debug, PartialEq, Eq, Structural)]
pub enum GizmoAxis {
    /// X axis (red).
    X,
    /// Y axis (green).
    Y,
    /// Z axis (blue).
    Z,
}

/// Lower-case name of a gizmo mode: "translate", "rotate" or "scale".
pub open spec fn spec_gizmo_mode_name(mode: GizmoMode) -> Seq<char> {
    match mode {
        GizmoMode::Translate => "translate"@,
        GizmoMode::Rotate => "rotate"@,
        GizmoMode::Scale => "scale"@,
    }
}

/// Lower-case name of a gizmo mode, as reported to scripting front ends.
pub fn gizmo_mode_name(mode: GizmoMode) -> (s: String)
    ensures
        s@ == spec_gizmo_mode_name(mode),
{
    match mode {
        GizmoMode::Translate => String::from_str("translate"),
        GizmoMode::Rotate => String::from_str("rotate"),
        GizmoMode::Scale => String::from_str("scale"),
    }
}

} // verus!
