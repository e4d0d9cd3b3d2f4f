//! Pointer interaction of the UI layer.

use render::{ControlId, ControlKind, ControlSlot, ControlState, HoverTarget, UiInteraction};

fn slot(kind: ControlKind, id: u32) -> ControlSlot {
    ControlSlot { kind, id: ControlId(id), state: ControlState::Normal, checked: false, dragging: false }
}

fn target(ci: usize, thumb: bool) -> Option<HoverTarget> {
    Some(HoverTarget { window_idx: 0, child_idx: ci, is_slider_thumb: thumb })
}

fn ui() -> UiInteraction {
    let mut ui = UiInteraction::new();
    ui.add_window(vec![
        slot(ControlKind::Button, 10),
        slot(ControlKind::Checkbox, 11),
        slot(ControlKind::Slider, 12),
        slot(ControlKind::Label, 13),
    ]);
    ui
}

#[test]
fn hover_press_release_clicks_button() {
    let mut ui = ui();
    assert_eq!(ui.pointer_moved(target(0, false)), None);
    assert_eq!(ui.windows[0][0].state, ControlState::Hover);
    ui.pointer_down();
    assert_eq!(ui.windows[0][0].state, ControlState::Pressed);
    ui.pointer_up();
    assert_eq!(ui.windows[0][0].state, ControlState::Hover);
    assert_eq!(ui.take_clicked_control(), Some(ControlId(10)));
    assert_eq!(ui.take_clicked_control(), None);
}

#[test]
fn release_elsewhere_does_not_click() {
    let mut ui = ui();
    ui.pointer_moved(target(0, false));
    ui.pointer_down();
    ui.pointer_moved(None);
    assert_eq!(ui.windows[0][0].state, ControlState::Pressed);
    ui.pointer_up();
    assert_eq!(ui.windows[0][0].state, ControlState::Normal);
    assert_eq!(ui.take_clicked_control(), None);
}

#[test]
fn checkbox_toggles_on_click() {
    let mut ui = ui();
    ui.pointer_moved(target(1, false));
    ui.pointer_down();
    ui.pointer_up();
    assert!(ui.windows[0][1].checked);
    ui.pointer_down();
    ui.pointer_up();
    assert!(!ui.windows[0][1].checked);
    assert_eq!(ui.take_clicked_control(), None);
}

#[test]
fn slider_thumb_drag() {
    let mut ui = ui();
    ui.pointer_moved(target(2, true));
    ui.pointer_down();
    assert!(ui.windows[0][2].dragging);
    assert_eq!(ui.pointer_moved(target(2, true)), Some((0, 2)));
    assert_eq!(ui.pointer_moved(target(2, false)), None);
    // a dragged slider keeps its pressed look
    assert_eq!(ui.windows[0][2].state, ControlState::Pressed);
    ui.pointer_moved(target(2, true));
    ui.pointer_up();
    assert!(!ui.windows[0][2].dragging);
    assert_eq!(ui.windows[0][2].state, ControlState::Hover);
    // labels never change
    assert_eq!(ui.windows[0][3].state, ControlState::Normal);
}
