//! View modes and their labels.

use render::{view_mode_label, ViewMode};

#[test]
fn view_mode_default_is_solid() {
    assert_eq!(ViewMode::default(), ViewMode::Solid);
}

#[test]
fn view_mode_labels() {
    assert_eq!(view_mode_label(ViewMode::Solid), "Solid");
    assert_eq!(view_mode_label(ViewMode::Wireframe), "Wireframe");
    assert_eq!(view_mode_label(ViewMode::VertexPoints), "Vertex Points");
    assert_eq!(view_mode_label(ViewMode::ColorMap), "Color Map");
    assert_eq!(view_mode_label(ViewMode::Normals), "Normals");
}
