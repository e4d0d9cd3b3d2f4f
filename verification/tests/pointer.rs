//! Routing of pointer presses and releases between the UI, the gizmo, the orbit and picking.

use std::collections::HashMap;

use render::{
    add_to_mapping, build_scene_panel, should_pick, ControlId, ControlKind, ControlSlot,
    ControlState, EntityId, HoverTarget, PointerState, Primitive, Primitive3D, SceneAction,
    SceneState, UiInteraction,
};

fn scene_with_cube() -> SceneState {
    let mut scene = SceneState::new();
    let a = scene.worlds[0].spawn(EntityId(0));
    scene.worlds[0].set_primitive(a, Primitive::ThreeD(Primitive3D::Cube));
    scene.selected_entity = Some(a);
    scene
}

fn ui_with_buttons(ids: &[u32]) -> UiInteraction {
    let mut ui = UiInteraction::new();
    ui.add_window(
        ids.iter()
            .map(|&id| ControlSlot {
                kind: ControlKind::Button,
                id: ControlId(id),
                state: ControlState::Normal,
                checked: false,
                dragging: false,
            })
            .collect(),
    );
    ui
}

fn over(ci: usize) -> Option<HoverTarget> {
    Some(HoverTarget { window_idx: 0, child_idx: ci, is_slider_thumb: false })
}

#[test]
fn press_outside_ui_orbits_and_offers_gizmo() {
    let scene = scene_with_cube();
    let mut ui = ui_with_buttons(&[1]);
    let mut p = PointerState::new();
    assert_eq!(p.pressed(&mut ui, &scene, false), Some(EntityId(1)));
    assert!(p.orbit_pressing);
    p.gizmo_grabbed();
    assert!(!p.orbit_pressing);
}

#[test]
fn press_with_hidden_gizmo_only_orbits() {
    let mut scene = scene_with_cube();
    scene.gizmo_hidden = true;
    let mut ui = ui_with_buttons(&[1]);
    let mut p = PointerState::new();
    assert_eq!(p.pressed(&mut ui, &scene, false), None);
    assert!(p.orbit_pressing);
}

#[test]
fn press_over_ui_neither_orbits_nor_grabs() {
    let scene = scene_with_cube();
    let mut ui = ui_with_buttons(&[1]);
    let mut p = PointerState::new();
    // inside a window's rectangle, over no control
    assert_eq!(p.pressed(&mut ui, &scene, true), None);
    assert!(!p.orbit_pressing);
    // over a control
    ui.pointer_moved(over(0));
    assert_eq!(p.pressed(&mut ui, &scene, false), None);
    assert!(!p.orbit_pressing);
    assert_eq!(ui.windows[0][0].state, ControlState::Pressed);
}

#[test]
fn release_applies_clicked_control_and_asks_for_rebuild_after_remove() {
    let mut scene = scene_with_cube();
    let buttons = build_scene_panel(&mut scene);
    let mut mapping: HashMap<u32, SceneAction> = HashMap::new();
    add_to_mapping(&mut mapping, &buttons);
    // "Remove" has control id 7 and "Reset" id 1
    let mut ui = ui_with_buttons(&[1, 7]);
    let mut p = PointerState::new();

    ui.pointer_moved(over(1));
    p.pressed(&mut ui, &scene, false);
    let out = p.released(&mut ui, &mut scene, &mapping);
    assert!(out.rebuild_scene_panel);
    assert!(!out.reset_camera);
    assert!(!p.orbit_pressing);
    assert_eq!(scene.selected_entity, None);
    assert!(!scene.worlds[0].get(EntityId(1)).unwrap().active);
    assert_eq!(ui.take_clicked_control(), None);

    ui.pointer_moved(over(0));
    p.pressed(&mut ui, &scene, false);
    let out = p.released(&mut ui, &mut scene, &mapping);
    assert!(out.reset_camera);
    assert!(!out.rebuild_scene_panel);
}

#[test]
fn release_without_click_changes_nothing() {
    let mut scene = scene_with_cube();
    let buttons = build_scene_panel(&mut scene);
    let mut mapping: HashMap<u32, SceneAction> = HashMap::new();
    add_to_mapping(&mut mapping, &buttons);
    let mut ui = ui_with_buttons(&[7]);
    let mut p = PointerState::new();
    p.pressed(&mut ui, &scene, false);
    assert!(p.orbit_pressing);
    let out = p.released(&mut ui, &mut scene, &mapping);
    assert!(!out.reset_camera && !out.rebuild_scene_panel);
    assert!(!p.orbit_pressing);
    assert_eq!(scene.selected_entity, Some(EntityId(1)));
}

#[test]
fn cursor_leaving_stops_orbit() {
    let scene = scene_with_cube();
    let mut ui = ui_with_buttons(&[1]);
    let mut p = PointerState::new();
    p.pressed(&mut ui, &scene, false);
    p.cursor_left();
    assert!(!p.orbit_pressing);
}

#[test]
fn picking_needs_click_or_shift_outside_ui() {
    let mut ui = ui_with_buttons(&[1]);
    assert!(should_pick(&ui, false, true, false, false));
    assert!(should_pick(&ui, false, false, true, false));
    assert!(!should_pick(&ui, false, false, false, false));
    assert!(!should_pick(&ui, true, true, false, false));
    assert!(!should_pick(&ui, false, true, true, true));
    ui.pointer_moved(over(0));
    assert!(!should_pick(&ui, false, true, true, false));
}
