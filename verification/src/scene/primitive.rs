//! Primitive shape types: 2D and 3D, kept separate at the type level.

use vstd::prelude::*;

verus! {

/// Point used in curve primitives, held as the IEEE-754 bit patterns of its three `f32`
/// coordinates (`f32::to_bits`). Two points are equal exactly when their bit patterns are, which
/// makes the point usable as a cache key.
#[derive(Clone, Copy, Debug, PartialEq, Eq, Hash)]
pub struct CurvePoint(pub [u32; 3]);

/// 2D primitive shapes. All are generated with z = 0.
#[derive(Clone, Copy, Debug, PartialEq, Eq, Hash)]
pub enum Primitive2D {
    /// Axis-aligned fullscreen quad (-1,-1) to (1,1).
    Quad,
    /// Unit square centered at origin, from -0.5 to 0.5 on x and y.
    Square,
    /// Circle centered at origin; resolution from mesh constants.
    Circle,
    /// Ellipse centered at origin (rx, ry); resolution from mesh constants.
    Ellipse,
    /// Triangle (e.g. for testing).
    Triangle,
}

/// 3D primitive shapes. All use full 3D positions.
#[derive(Clone, Copy, Debug, PartialEq, Eq, Hash)]
pub enum Primitive3D {
    /// Axis-aligned quad in the xy-plane.
    Quad,
    /// Single triangle.
    Triangle,
    /// Unit cube centered at origin.
    Cube,
    /// Regular tetrahedron.
    Tetrahedron,
    /// Cylinder along z; resolution from mesh constants.
    Cylinder,
    /// Unit sphere centered at origin; resolution from mesh constants.
    Sphere,
    /// Cone along z (base at -z, tip at +z); resolution from mesh constants.
    Cone,
    /// Capsule along z (cylinder with hemispherical caps); resolution from mesh constants.
    Capsule,
    /// Line segment between two points (drawn as line list).
    LineSegment {
        /// Start point.
        start: CurvePoint,
        /// End point.
        end: CurvePoint,
    },
    /// Cubic Bezier curve (4 control points).
    Bezier {
        /// Control points.
        control_points: [CurvePoint; 4],
    },
    /// Cubic Hermite curve (2 points, 2 tangents).
    Hermite {
        /// Position at t = 0.
        p0: CurvePoint,
        /// Position at t = 1.
        p1: CurvePoint,
        /// Tangent at t = 0.
        m0: CurvePoint,
        /// Tangent at t = 1.
        m1: CurvePoint,
    },
    /// Cubic B-spline segment (4 control points).
    BSpline {
        /// Control points.
        control_points: [CurvePoint; 4],
    },
}

/// Top-level primitive: either a 2D or 3D shape.
#[derive(Clone, Copy, Debug, PartialEq, Eq, Hash)]
pub enum Primitive {
    /// A 2D shape (z = 0).
    TwoD(Primitive2D),
    /// A 3D shape.
    ThreeD(Primitive3D),
}

/// Whether a primitive is drawn as a line list: the line segment and the three curve kinds.
pub open spec fn spec_is_line_list(p: Primitive) -> bool {
    match p {
        Primitive::ThreeD(Primitive3D::LineSegment { .. }) => true,
        Primitive::ThreeD(Primitive3D::Bezier { .. }) => true,
        Primitive::ThreeD(Primitive3D::Hermite { .. }) => true,
        Primitive::ThreeD(Primitive3D::BSpline { .. }) => true,
        _ => false,
    }
}

impl Primitive {
    /// Returns `true` if this primitive is drawn as a line list (curve/line segment).
    pub fn is_line_list(&self) -> (r: bool)
        ensures
            r == spec_is_line_list(*self),
    {
        match self {
            Primitive::ThreeD(Primitive3D::LineSegment { .. }) => true,
            Primitive::ThreeD(Primitive3D::Bezier { .. }) => true,
            Primitive::ThreeD(Primitive3D::Hermite { .. }) => true,
            Primitive::ThreeD(Primitive3D::BSpline { .. }) => true,
            _ => false,
        }
    }
}

/// Short display name of a primitive.
pub open spec fn spec_primitive_label(p: Primitive) -> Seq<char> {
    match p {
        Primitive::TwoD(Primitive2D::Quad) => "Quad"@,
        Primitive::TwoD(Primitive2D::Triangle) => "Triangle"@,
        Primitive::TwoD(Primitive2D::Square) => "Square"@,
        Primitive::TwoD(Primitive2D::Circle) => "Circle"@,
        Primitive::TwoD(Primitive2D::Ellipse) => "Ellipse"@,
        Primitive::ThreeD(Primitive3D::Quad) => "Quad 3D"@,
        Primitive::ThreeD(Primitive3D::Triangle) => "Triangle 3D"@,
        Primitive::ThreeD(Primitive3D::Cube) => "Cube"@,
        Primitive::ThreeD(Primitive3D::Tetrahedron) => "Tetrahedron"@,
        Primitive::ThreeD(Primitive3D::Cylinder) => "Cylinder"@,
        Primitive::ThreeD(Primitive3D::Sphere) => "Sphere"@,
        Primitive::ThreeD(Primitive3D::Cone) => "Cone"@,
        Primitive::ThreeD(Primitive3D::Capsule) => "Capsule"@,
        Primitive::ThreeD(Primitive3D::LineSegment { .. }) => "Line"@,
        Primitive::ThreeD(Primitive3D::Bezier { .. }) => "Bezier"@,
        Primitive::ThreeD(Primitive3D::Hermite { .. }) => "Hermite"@,
        Primitive::ThreeD(Primitive3D::BSpline { .. }) => "BSpline"@,
    }
}

/// Short display name for a primitive.
pub fn primitive_label(prim: &Primitive) -> (r: &'static str)
    ensures
        r@ == spec_primitive_label(*prim),
{
    match prim {
        Primitive::TwoD(Primitive2D::Quad) => "Quad",
        Primitive::TwoD(Primitive2D::Triangle) => "Triangle",
        Primitive::TwoD(Primitive2D::Square) => "Square",
        Primitive::TwoD(Primitive2D::Circle) => "Circle",
        Primitive::TwoD(Primitive2D::Ellipse) => "Ellipse",
        Primitive::ThreeD(Primitive3D::Quad) => "Quad 3D",
        Primitive::ThreeD(Primitive3D::Triangle) => "Triangle 3D",
        Primitive::ThreeD(Primitive3D::Cube) => "Cube",
        Primitive::ThreeD(Primitive3D::Tetrahedron) => "Tetrahedron",
        Primitive::ThreeD(Primitive3D::Cylinder) => "Cylinder",
        Primitive::ThreeD(Primitive3D::Sphere) => "Sphere",
        Primitive::ThreeD(Primitive3D::Cone) => "Cone",
        Primitive::ThreeD(Primitive3D::Capsule) => "Capsule",
        Primitive::ThreeD(Primitive3D::LineSegment { .. }) => "Line",
        Primitive::ThreeD(Primitive3D::Bezier { .. }) => "Bezier",
        Primitive::ThreeD(Primitive3D::Hermite { .. }) => "Hermite",
        Primitive::ThreeD(Primitive3D::BSpline { .. }) => "BSpline",
    }
}

} // verus!
