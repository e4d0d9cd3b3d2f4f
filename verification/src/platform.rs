//! Scene presets that start the render loop.

use vstd::prelude::*;

verus! {

/// Initial scene preset when starting the render loop.
#[derive(Clone, Copy, Debug, PartialEq, Eq, Structural)]
pub enum RunDemo {
    /// Default: cube, tetrahedron, cylinder.
    Default,
    /// Curve primitives: line segment, Bezier, Hermite, B-spline.
    Curves,
    /// All 3D primitives: cube, tetrahedron, cylinder, sphere, cone, capsule, line, Bezier,
    /// Hermite, B-spline.
    AllShapes,
    /// 2D-only: two circles, AABB outlines; orthographic camera; per-frame update.
    Aabb2d,
}

impl Default for RunDemo {
    fn default() -> (d: Self)
        ensures
            d == RunDemo::Default,
    {
        RunDemo::Default
    }
}

} // verus!
