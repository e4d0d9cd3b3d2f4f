//! Scene presets.

use render::presets::preset_table;
use render::{
    build_demo_scene, switch_demo_scene, EntityId, Primitive, Primitive2D, Primitive3D, RunDemo,
    SceneState,
};

#[test]
fn default_preset_entities() {
    let mut scene = SceneState::new();
    assert!(build_demo_scene(&mut scene, RunDemo::Default).is_none());
    let w = &scene.worlds[0];
    assert_eq!(w.children(EntityId(0)), vec![EntityId(1), EntityId(2), EntityId(3)]);
    let b = w.get(EntityId(2)).unwrap();
    assert_eq!(b.primitive, Some(Primitive::ThreeD(Primitive3D::Tetrahedron)));
    assert_eq!(b.transform.position, [1.5f32.to_bits(), (-0.3f32).to_bits(), 0.0f32.to_bits()]);
    assert_eq!(b.material.as_deref(), Some("flat"));
    assert_eq!(w.get(EntityId(1)).unwrap().material.as_deref(), Some("procedural"));
    assert_eq!(scene.selected_entity, None);
}

#[test]
fn curve_presets_select_their_line() {
    let mut scene = SceneState::new();
    build_demo_scene(&mut scene, RunDemo::Curves);
    assert_eq!(scene.selected_entity, Some(EntityId(1)));
    let bez = scene.worlds[0].get(EntityId(2)).unwrap();
    match bez.primitive {
        Some(Primitive::ThreeD(Primitive3D::Bezier { control_points })) => {
            assert_eq!(control_points[1].0[1], (0.5f32 + 0.6f32).to_bits());
        },
        other => panic!("unexpected {:?}", other),
    }

    let mut scene = SceneState::new();
    build_demo_scene(&mut scene, RunDemo::AllShapes);
    assert_eq!(scene.selected_entity, Some(EntityId(7)));
    assert_eq!(scene.worlds[0].entities_dfs().len(), 11);
    assert_eq!(preset_table(RunDemo::AllShapes).len(), 10);
}

#[test]
fn collision_preset_ids() {
    let mut scene = SceneState::new();
    let ids = build_demo_scene(&mut scene, RunDemo::Aabb2d).expect("ids");
    assert_eq!(ids.ball1, EntityId(1));
    assert_eq!(ids.ball2, EntityId(2));
    assert_eq!(ids.aabb1, [EntityId(3), EntityId(4), EntityId(5), EntityId(6)]);
    assert_eq!(ids.loose, [EntityId(15), EntityId(16), EntityId(17), EntityId(18)]);
    let ball1 = scene.worlds[0].get(ids.ball1).unwrap();
    assert_eq!(ball1.primitive, Some(Primitive::TwoD(Primitive2D::Circle)));
    assert_eq!(ball1.transform.scale, [0.5f32.to_bits(), 0.5f32.to_bits(), 1.0f32.to_bits()]);
}

#[test]
fn switching_replaces_the_scene() {
    let mut scene = SceneState::new();
    build_demo_scene(&mut scene, RunDemo::AllShapes);
    assert!(switch_demo_scene(&mut scene, RunDemo::Default).is_none());
    assert_eq!(scene.worlds[0].entities_dfs(), vec![EntityId(0), EntityId(1), EntityId(2), EntityId(3)]);
    // The selection from before the switch is kept when it is set.
    assert_eq!(scene.selected_entity, Some(EntityId(7)));

    let mut scene = SceneState::new();
    switch_demo_scene(&mut scene, RunDemo::Default);
    // Nothing was selected: the first listed entity with a primitive is.
    assert_eq!(scene.selected_entity, Some(EntityId(1)));
}
