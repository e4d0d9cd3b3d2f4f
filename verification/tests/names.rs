//! Primitive names, labels and error messages.

use render::{parse_primitive_name, primitive_label, CurvePoint, Primitive, Primitive2D, Primitive3D, RenderError};

#[test]
fn parse_primitive_names() {
    assert_eq!(parse_primitive_name("cube"), Some(Primitive::ThreeD(Primitive3D::Cube)));
    assert_eq!(parse_primitive_name("  Sphere\n"), Some(Primitive::ThreeD(Primitive3D::Sphere)));
    assert_eq!(parse_primitive_name("QUAD"), Some(Primitive::ThreeD(Primitive3D::Quad)));
    assert_eq!(parse_primitive_name("circle"), None);
    assert_eq!(parse_primitive_name("teapot"), None);
    match parse_primitive_name("line") {
        Some(Primitive::ThreeD(Primitive3D::LineSegment { start, end })) => {
            assert_eq!(start, CurvePoint([0, 0, 0]));
            assert_eq!(end, CurvePoint([1.0f32.to_bits(), 0, 0]));
        },
        other => panic!("unexpected {:?}", other),
    }
}

#[test]
fn primitive_labels() {
    assert_eq!(primitive_label(&Primitive::ThreeD(Primitive3D::Quad)), "Quad 3D");
    assert_eq!(primitive_label(&Primitive::TwoD(Primitive2D::Quad)), "Quad");
    assert!(Primitive::ThreeD(Primitive3D::BSpline {
        control_points: [CurvePoint([0, 0, 0]); 4]
    })
    .is_line_list());
    assert!(!Primitive::ThreeD(Primitive3D::Cube).is_line_list());
}

#[test]
fn error_messages() {
    assert_eq!(RenderError::WgpuInit("no adapter".to_string()).message(), "wgpu init failed: no adapter");
    assert_eq!(RenderError::SurfaceLost.message(), "surface lost or outdated");
    assert_eq!(RenderError::MaterialLoad("x.png".to_string()).message(), "material load failed: x.png");
}
