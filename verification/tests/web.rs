//! The scripting interface of the web front end: queued requests, their per-frame application,
//! and the values published back.

use render::web_api::{
    add_entity, get_gizmo_mode, get_material_names, get_primitive_tree, get_selected_entity,
    get_selected_entity_local_position, get_selected_entity_local_rotation,
    get_selected_entity_local_scale, get_selected_entity_world_position, remove_selected_entity,
    set_demo, set_entity_local_position, set_entity_local_rotation, set_entity_local_scale,
    set_entity_material, set_entity_primitive, set_entity_world_position, set_gizmo_mode,
    set_selected_entity,
};
use render::{
    apply_pending_edits, apply_pending_pose_edits, publish_frame_state, EntityId, GizmoMode,
    PoseReadout, Primitive, Primitive3D, RunDemo, SceneState, WebState, NO_ENTITY,
};

fn readout() -> PoseReadout {
    PoseReadout {
        local_position: "1.0000,2.0000,3.0000".to_string(),
        local_rotation: "0.000000,0.000000,0.000000".to_string(),
        local_scale: "1.0000,1.0000,1.0000".to_string(),
        world_position: "1.0000,2.0000,3.0000".to_string(),
    }
}

fn frame(state: &mut WebState, scene: &mut SceneState) -> Option<RunDemo> {
    let _ = apply_pending_edits(state, scene);
    let switch = apply_pending_pose_edits(state, scene);
    publish_frame_state(state, scene, &vec!["flat".to_string(), "procedural".to_string()], readout());
    switch
}

#[test]
fn fresh_state_reads_empty() {
    let state = WebState::new();
    assert_eq!(get_selected_entity(&state), NO_ENTITY);
    assert_eq!(get_primitive_tree(&state), "");
    assert_eq!(get_gizmo_mode(&state), "translate");
    assert_eq!(get_material_names(&state), "");
    assert_eq!(get_selected_entity_local_position(&state), "");
}

#[test]
fn added_entity_is_selected_and_published() {
    let mut state = WebState::new();
    let mut scene = SceneState::new();
    add_entity(&mut state, "Cube");
    assert!(frame(&mut state, &mut scene).is_none());
    assert_eq!(get_selected_entity(&state), 1);
    assert_eq!(get_primitive_tree(&state), "0: Entity\n  1: Cube\n");
    assert_eq!(get_material_names(&state), "flat\nprocedural");
    assert_eq!(get_selected_entity_local_position(&state), "1.0000,2.0000,3.0000");
    assert_eq!(get_selected_entity_world_position(&state), "1.0000,2.0000,3.0000");
    assert_eq!(get_selected_entity_local_rotation(&state), "0.000000,0.000000,0.000000");
    assert_eq!(get_selected_entity_local_scale(&state), "1.0000,1.0000,1.0000");
    assert!(state.pending_add_entity.is_none());
}

#[test]
fn gizmo_mode_round_trip() {
    let mut state = WebState::new();
    let mut scene = SceneState::new();
    set_gizmo_mode(&mut state, "  Rotate ");
    frame(&mut state, &mut scene);
    assert_eq!(scene.gizmo_mode, GizmoMode::Rotate);
    assert_eq!(get_gizmo_mode(&state), "rotate");
    set_gizmo_mode(&mut state, "sideways");
    frame(&mut state, &mut scene);
    assert_eq!(get_gizmo_mode(&state), "translate");
}

#[test]
fn material_and_primitive_requests() {
    let mut state = WebState::new();
    let mut scene = SceneState::new();
    add_entity(&mut state, "sphere");
    frame(&mut state, &mut scene);
    set_entity_material(&mut state, 1, "flat");
    set_entity_primitive(&mut state, 1, "cone");
    frame(&mut state, &mut scene);
    let d = scene.worlds[0].get(EntityId(1)).unwrap();
    assert_eq!(d.material.as_deref(), Some("flat"));
    assert_eq!(d.primitive, Some(Primitive::ThreeD(Primitive3D::Cone)));
    assert_eq!(get_primitive_tree(&state), "0: Entity\n  1: Cone [flat]\n");

    // One request per kind is queued: a later one replaces an earlier one.
    set_entity_material(&mut state, 7, "flat");
    set_entity_material(&mut state, 1, "");
    set_entity_primitive(&mut state, 1, "teapot");
    frame(&mut state, &mut scene);
    let d = scene.worlds[0].get(EntityId(1)).unwrap();
    assert!(d.material.is_none());
    assert_eq!(d.primitive, Some(Primitive::ThreeD(Primitive3D::Cone)));
}

#[test]
fn removing_the_selection_clears_it() {
    let mut state = WebState::new();
    let mut scene = SceneState::new();
    add_entity(&mut state, "cube");
    frame(&mut state, &mut scene);
    remove_selected_entity(&mut state);
    assert_eq!(state.pending_remove_entity, Some(1));
    frame(&mut state, &mut scene);
    assert_eq!(get_selected_entity(&state), NO_ENTITY);
    assert_eq!(get_primitive_tree(&state), "0: Entity\n");
    assert_eq!(get_selected_entity_local_position(&state), "");
    assert_eq!(get_selected_entity_world_position(&state), "");
    // Nothing selected: nothing queued.
    remove_selected_entity(&mut state);
    assert_eq!(state.pending_remove_entity, None);
}

#[test]
fn selection_requests() {
    let mut state = WebState::new();
    let mut scene = SceneState::new();
    set_selected_entity(&mut state, 0);
    frame(&mut state, &mut scene);
    assert_eq!(get_selected_entity(&state), 0);
    set_selected_entity(&mut state, NO_ENTITY);
    frame(&mut state, &mut scene);
    assert_eq!(get_selected_entity(&state), NO_ENTITY);
}

#[test]
fn transform_requests() {
    let mut state = WebState::new();
    let mut scene = SceneState::new();
    add_entity(&mut state, "cube");
    frame(&mut state, &mut scene);
    let (x, y, z) = (1.0f32.to_bits(), 2.0f32.to_bits(), 3.0f32.to_bits());
    set_entity_local_position(&mut state, 1, x, y, z);
    set_entity_world_position(&mut state, 1, z, y, x);
    let world_request = apply_pending_edits(&mut state, &mut scene);
    assert_eq!(world_request, Some((EntityId(1), [z, y, x])));
    assert_eq!(scene.worlds[0].get(EntityId(1)).unwrap().transform.position, [x, y, z]);

    set_entity_local_rotation(&mut state, 1, z, z, z);
    set_entity_local_scale(&mut state, 1, y, y, y);
    set_entity_world_position(&mut state, 9, x, x, x);
    assert_eq!(apply_pending_edits(&mut state, &mut scene), None);
    assert_eq!(apply_pending_pose_edits(&mut state, &mut scene), None);
    let t = scene.worlds[0].get(EntityId(1)).unwrap().transform;
    assert_eq!(t.rotation, [z, z, z]);
    assert_eq!(t.rotation_quat, None);
    assert_eq!(t.scale, [y, y, y]);
}

#[test]
fn scene_switch_request() {
    let mut state = WebState::new();
    let mut scene = SceneState::new();
    set_demo(&mut state, "AllShapes");
    assert_eq!(frame(&mut state, &mut scene), Some(RunDemo::AllShapes));
    set_demo(&mut state, "nonsense");
    assert_eq!(frame(&mut state, &mut scene), Some(RunDemo::Default));
    assert_eq!(frame(&mut state, &mut scene), None);
}
