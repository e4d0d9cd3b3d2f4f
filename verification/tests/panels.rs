//! Scene and material panels, and clicks on them.

use std::collections::HashMap;

use render::{
    add_to_mapping, build_material_panel, build_scene_panel, scene_panel_click, ControlId,
    EntityId, Primitive, Primitive3D, SceneAction, SceneState, ViewMode, World,
    MATERIAL_BUTTON_FIRST_ID,
};

fn scene_with_cube() -> SceneState {
    let mut scene = SceneState::new();
    let a = scene.worlds[0].spawn(EntityId(0));
    scene.worlds[0].set_primitive(a, Primitive::ThreeD(Primitive3D::Cube));
    scene
}

#[test]
fn scene_panel_layout() {
    let mut scene = scene_with_cube();
    let buttons = build_scene_panel(&mut scene);
    assert_eq!(buttons.len(), 1 + 2 + 1 + 4 + 13);
    assert_eq!((buttons[0].id, buttons[0].label_id), (1, 2));
    assert_eq!(buttons[0].label, "Reset");
    assert!(matches!(buttons[0].action, SceneAction::ResetCamera));
    assert_eq!(buttons[1].label, "Entity");
    assert_eq!(buttons[2].label, "Cube");
    assert!(matches!(buttons[2].action, SceneAction::SelectEntity(EntityId(1))));
    assert_eq!((buttons[2].id, buttons[2].label_id), (5, 6));
    assert_eq!(buttons[3].label, "Remove");
    assert_eq!(buttons[5].label, "Wireframe");
    assert_eq!(buttons[20].label, "Capsule");
    // auto-selection
    assert_eq!(scene.selected_entity, Some(EntityId(1)));
}

#[test]
fn scene_panel_lists_worlds_when_several() {
    let mut scene = scene_with_cube();
    scene.worlds.push(World::new());
    let buttons = build_scene_panel(&mut scene);
    let n = buttons.len();
    assert_eq!(buttons[n - 2].label, "World 1");
    assert_eq!(buttons[n - 1].label, "World 2");
    assert!(matches!(buttons[n - 1].action, SceneAction::SetActiveWorld(1)));
}

#[test]
fn material_panel_layout() {
    let names = vec!["flat".to_string(), "procedural".to_string()];
    let buttons = build_material_panel(&names);
    assert_eq!(buttons.len(), 3);
    assert_eq!(buttons[0].id, MATERIAL_BUTTON_FIRST_ID);
    assert_eq!(buttons[0].label, "None (vertex color)");
    assert_eq!(buttons[2].label_id, MATERIAL_BUTTON_FIRST_ID + 5);
    match &buttons[2].action {
        SceneAction::SetMaterial(Some(m)) => assert_eq!(m, "procedural"),
        other => panic!("unexpected {:?}", other),
    }
}

#[test]
fn clicks_apply_actions() {
    let mut scene = scene_with_cube();
    let scene_buttons = build_scene_panel(&mut scene);
    let material_buttons = build_material_panel(&vec!["flat".to_string()]);
    let mut mapping: HashMap<u32, SceneAction> = HashMap::new();
    add_to_mapping(&mut mapping, &scene_buttons);
    add_to_mapping(&mut mapping, &material_buttons);
    assert_eq!(mapping.len(), scene_buttons.len() + material_buttons.len());

    // material "flat" on the selected cube
    let (reset, rebuild) = scene_panel_click(&mut scene, &mapping, ControlId(MATERIAL_BUTTON_FIRST_ID + 2));
    assert!(!reset && !rebuild);
    assert_eq!(scene.worlds[0].get(EntityId(1)).unwrap().material.as_deref(), Some("flat"));

    // view mode "Vertex Points" is button 6 (ids 1, 3, ... so id 13)
    scene_panel_click(&mut scene, &mapping, ControlId(13));
    assert_eq!(scene.view_mode, ViewMode::VertexPoints);

    // "Reset" asks for a camera reset
    assert_eq!(scene_panel_click(&mut scene, &mapping, ControlId(1)), (true, false));

    // "Remove" despawns the selection and asks for a rebuild
    assert_eq!(scene_panel_click(&mut scene, &mapping, ControlId(7)), (false, true));
    assert_eq!(scene.selected_entity, None);
    assert!(!scene.worlds[0].get(EntityId(1)).unwrap().active);

    // unknown control: nothing happens
    assert_eq!(scene_panel_click(&mut scene, &mapping, ControlId(999)), (false, false));
}
