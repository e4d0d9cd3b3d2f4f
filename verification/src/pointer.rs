//! Routing of the primary pointer button between the UI, the gizmo, the camera orbit and
//! picking. The renderer measures positions and hit tests (in floating point) and hands the
//! results in; these functions decide what a press or a release does.

use std::collections::HashMap;

use vstd::prelude::*;

use crate::demo::{scene_action_effect, SceneAction};
use crate::panels::scene_panel_click;
use crate::scene::EntityId;
use crate::scene_state::SceneState;
use crate::ui::ControlId;
use crate::ui_state::{after_press, after_release, click_of, synced, UiInteraction};

verus! {

broadcast use vstd::std_specs::hash::group_hash_axioms;

/// What the primary button is doing between a press and the next release.
pub struct PointerState {
    /// Pointer motion orbits the camera: the press landed outside the UI and started no gizmo
    /// drag.
    pub orbit_pressing: bool,
}

/// What the renderer does after the button is released.
pub struct ReleaseOutcome {
    /// Reset the camera to its default orbit.
    pub reset_camera: bool,
    /// Rebuild the scene panel, because the click removed the selected entity.
    pub rebuild_scene_panel: bool,
}

/// The cursor is over the UI: over a control, or inside a window's rectangle (`in_window`, as
/// the renderer measured it).
pub open spec fn over_ui(ui: UiInteraction, in_window: bool) -> bool {
    ui.hover is Some || in_window
}

/// The button click that a release leaves to be taken, if any.
pub open spec fn released_click(ui: UiInteraction) -> Option<ControlId> {
    match click_of(ui.slots(), ui.pressed, ui.hover) {
        Some(id) => Some(id),
        None => ui.last_clicked,
    }
}

impl PointerState {
    /// Nothing pressed.
    pub fn new() -> (s: Self)
        ensures
            !s.orbit_pressing,
    {
        PointerState { orbit_pressing: false }
    }

    /// The button was pressed. The UI takes the press; outside the UI the press orbits the
    /// camera, unless it grabs a gizmo handle. Returns the entity whose gizmo the renderer tries
    /// to grab (the selected entity, when the press is outside the UI and the gizmo is shown);
    /// if the grab succeeds the renderer calls `gizmo_grabbed`.
    pub fn pressed(&mut self, ui: &mut UiInteraction, scene: &SceneState, in_window: bool) -> (gizmo_target:
        Option<EntityId>)
        ensures
            final(ui).pressed == old(ui).hover,
            final(ui).hover == old(ui).hover,
            final(ui).last_clicked == old(ui).last_clicked,
            final(ui).slots() == after_press(old(ui).slots(), old(ui).hover),
            final(self).orbit_pressing == !over_ui(*old(ui), in_window),
            gizmo_target == if !over_ui(*old(ui), in_window) && !scene.gizmo_hidden {
                scene.selected_entity
            } else {
                None
            },
    {
        ui.pointer_down();
        let outside = ui.hover.is_none() && !in_window;
        self.orbit_pressing = outside;
        if outside && !scene.gizmo_hidden {
            scene.selected_entity
        } else {
            None
        }
    }

    /// The press grabbed a gizmo handle: pointer motion drags the handle, not the camera.
    pub fn gizmo_grabbed(&mut self)
        ensures
            !final(self).orbit_pressing,
    {
        self.orbit_pressing = false;
    }

    /// The cursor left the canvas: the orbit stops.
    pub fn cursor_left(&mut self)
        ensures
            !final(self).orbit_pressing,
    {
        self.orbit_pressing = false;
    }

    /// The button was released. The UI takes the release; a button clicked by it is taken and
    /// its mapped action applied to the scene (see `scene_panel_click`). The orbit stops.
    pub fn released(
        &mut self,
        ui: &mut UiInteraction,
        scene: &mut SceneState,
        mapping: &HashMap<u32, SceneAction>,
    ) -> (r: ReleaseOutcome)
        requires
            old(scene).wf(),
        ensures
            !final(self).orbit_pressing,
            final(scene).wf(),
            final(ui).pressed is None,
            final(ui).hover == old(ui).hover,
            final(ui).last_clicked is None,
            final(ui).slots() == synced(
                after_release(old(ui).slots(), old(ui).pressed, old(ui).hover),
                old(ui).hover,
                None,
            ),
            match released_click(*old(ui)) {
                None => *final(scene) == *old(scene) && !r.reset_camera && !r.rebuild_scene_panel,
                Some(cid) => {
                    &&& r.reset_camera == (mapping@.contains_key(cid.0)
                        && mapping@[cid.0] is ResetCamera)
                    &&& r.rebuild_scene_panel == (mapping@.contains_key(cid.0)
                        && mapping@[cid.0] is RemoveSelected)
                    &&& !mapping@.contains_key(cid.0) ==> *final(scene) == *old(scene)
                    &&& mapping@.contains_key(cid.0) ==> scene_action_effect(
                        *old(scene),
                        *final(scene),
                        mapping@[cid.0],
                    )
                },
            },
    {
        ui.pointer_up();
        self.orbit_pressing = false;
        match ui.take_clicked_control() {
            Some(cid) => {
                let (reset_camera, rebuild_scene_panel) = scene_panel_click(scene, mapping, cid);
                ReleaseOutcome { reset_camera, rebuild_scene_panel }
            },
            None => ReleaseOutcome { reset_camera: false, rebuild_scene_panel: false },
        }
    }
}

/// Whether a release picks the entity under the cursor: only outside the UI, not while the
/// camera-only modifier is held, and only for a click (the pointer barely moved since the press)
/// or while Shift is held. `in_window` is measured after the release has been handled.
pub fn should_pick(ui: &UiInteraction, in_window: bool, is_click: bool, shift_held: bool, camera_only: bool) -> (pick:
    bool)
    ensures
        pick == (!over_ui(*ui, in_window) && !camera_only && (is_click || shift_held)),
{
    ui.hover.is_none() && !in_window && !camera_only && (is_click || shift_held)
}

} // verus!
