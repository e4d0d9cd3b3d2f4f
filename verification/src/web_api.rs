//! The scripting interface of the web front end: requests from page scripts are queued in a
//! `WebState` and applied once per frame by `apply_pending_commands`; the values that scripts read
//! (tree dump, selection, gizmo mode, transform read-outs) are published once per frame by
//! `publish_frame_state`.
//!
//! The front end keeps one `WebState` for the page and calls these functions from its script
//! bindings and its frame loop.

use vstd::prelude::*;

use crate::demo::{
    format_primitive_tree, parse_primitive_name, spec_primitive_for_key, spec_primitive_tree,
};
use crate::gizmo::{gizmo_mode_name, spec_gizmo_mode_name, GizmoMode};
use crate::platform::RunDemo;
use crate::scene::node_data::NodeData;
use crate::scene::world::active_only;
use crate::scene::{EntityId, World};
use crate::scene_state::SceneState;
use crate::strings::{
    chars_eq_ignore_ascii_case, eq_ignore_ascii_case, spec_eq_ignore_ascii_case, spec_to_lowercase, spec_trim, str_eq,
    to_lowercase, trim,
};

verus! {

/// Sentinel for "no entity selected" in the script-facing interface (`u32::MAX`).
pub const NO_ENTITY: u32 = 0xFFFF_FFFF;

/// Requests queued by page scripts and values published for them.
pub struct WebState {
    /// Scene preset to switch to on the next frame.
    pub pending_demo: Option<RunDemo>,
    /// Entity tree text, updated each frame.
    pub tree_dump: String,
    /// Selected entity id, or `NO_ENTITY`; updated each frame.
    pub selected_entity_id: u32,
    /// Material names, newline-separated; updated each frame.
    pub material_names_dump: String,
    /// Selection to apply on the next frame (`Some(None)` clears it).
    pub pending_selection: Option<Option<u32>>,
    /// (entity id, material name) to apply on the next frame; an empty name clears the material.
    pub pending_set_material: Option<(u32, String)>,
    /// (entity id, primitive name) to apply on the next frame.
    pub pending_set_primitive: Option<(u32, String)>,
    /// Entity to remove on the next frame.
    pub pending_remove_entity: Option<u32>,
    /// Gizmo mode to apply on the next frame.
    pub pending_gizmo_mode: Option<GizmoMode>,
    /// Current gizmo mode name, updated each frame.
    pub gizmo_mode_dump: String,
    /// Primitive name of an entity to add under the root on the next frame.
    pub pending_add_entity: Option<String>,
    /// (entity id, position bits) to set as local position on the next frame.
    pub pending_set_local_position: Option<(u32, [u32; 3])>,
    /// (entity id, position bits) to set as world position on the next frame.
    pub pending_set_world_position: Option<(u32, [u32; 3])>,
    /// (entity id, roll/pitch/yaw bits) to set as local rotation on the next frame.
    pub pending_set_local_rotation: Option<(u32, [u32; 3])>,
    /// (entity id, scale bits) to set as local scale on the next frame.
    pub pending_set_local_scale: Option<(u32, [u32; 3])>,
    /// Selected entity local rotation "r,p,y", updated each frame.
    pub local_rotation_dump: String,
    /// Selected entity local scale "x,y,z", updated each frame.
    pub local_scale_dump: String,
    /// Selected entity local position "x,y,z", updated each frame.
    pub local_position_dump: String,
    /// Selected entity world position "x,y,z", updated each frame.
    pub world_position_dump: String,
}

impl WebState {
    /// Nothing queued, nothing selected, empty read-outs, gizmo mode "translate".
    pub fn new() -> (s: Self)
        ensures
            s.pending_demo is None,
            s.tree_dump@ == Seq::<char>::empty(),
            s.selected_entity_id == NO_ENTITY,
            s.material_names_dump@ == Seq::<char>::empty(),
            s.pending_selection is None,
            s.pending_set_material is None,
            s.pending_set_primitive is None,
            s.pending_remove_entity is None,
            s.pending_gizmo_mode is None,
            s.gizmo_mode_dump@ == "translate"@,
            s.pending_add_entity is None,
            s.pending_set_local_position is None,
            s.pending_set_world_position is None,
            s.pending_set_local_rotation is None,
            s.pending_set_local_scale is None,
            s.local_rotation_dump@ == Seq::<char>::empty(),
            s.local_scale_dump@ == Seq::<char>::empty(),
            s.local_position_dump@ == Seq::<char>::empty(),
            s.world_position_dump@ == Seq::<char>::empty(),
    {
        WebState {
            pending_demo: None,
            tree_dump: String::new(),
            selected_entity_id: NO_ENTITY,
            material_names_dump: String::new(),
            pending_selection: None,
            pending_set_material: None,
            pending_set_primitive: None,
            pending_remove_entity: None,
            pending_gizmo_mode: None,
            gizmo_mode_dump: String::from_str("translate"),
            pending_add_entity: None,
            pending_set_local_position: None,
            pending_set_world_position: None,
            pending_set_local_rotation: None,
            pending_set_local_scale: None,
            local_rotation_dump: String::new(),
            local_scale_dump: String::new(),
            local_position_dump: String::new(),
            world_position_dump: String::new(),
        }
    }
}

/// The preset a scene name selects: "curves", "allshapes" and "aabb2d" (ASCII case ignored),
/// anything else the default scene.
pub open spec fn spec_demo_for_name(name: Seq<char>) -> RunDemo {
    if spec_eq_ignore_ascii_case(name, "curves"@) {
        RunDemo::Curves
    } else if spec_eq_ignore_ascii_case(name, "allshapes"@) {
        RunDemo::AllShapes
    } else if spec_eq_ignore_ascii_case(name, "aabb2d"@) {
        RunDemo::Aabb2d
    } else {
        RunDemo::Default
    }
}

/// Law: each preset name selects its own preset, whatever the ASCII case of the name: a name
/// equal to "curves", "allshapes" or "aabb2d" ignoring ASCII case selects `Curves`, `AllShapes`
/// or `Aabb2d`; and a name selects one of these presets only when it is that preset's name.
pub proof fn lemma_demo_names(name: Seq<char>)
    ensures
        spec_eq_ignore_ascii_case(name, "curves"@) ==> spec_demo_for_name(name) == RunDemo::Curves,
        spec_eq_ignore_ascii_case(name, "allshapes"@) ==> spec_demo_for_name(name) == RunDemo::AllShapes,
        spec_eq_ignore_ascii_case(name, "aabb2d"@) ==> spec_demo_for_name(name) == RunDemo::Aabb2d,
        spec_demo_for_name(name) == RunDemo::Curves ==> spec_eq_ignore_ascii_case(name, "curves"@),
        spec_demo_for_name(name) == RunDemo::AllShapes ==> spec_eq_ignore_ascii_case(name, "allshapes"@),
        spec_demo_for_name(name) == RunDemo::Aabb2d ==> spec_eq_ignore_ascii_case(name, "aabb2d"@),
{
    reveal_strlit("curves");
    reveal_strlit("allshapes");
    reveal_strlit("aabb2d");
    if spec_eq_ignore_ascii_case(name, "aabb2d"@) {
        assert(chars_eq_ignore_ascii_case(name[0], "aabb2d"@[0]));
        assert(!spec_eq_ignore_ascii_case(name, "curves"@)) by {
            assert(!chars_eq_ignore_ascii_case(name[0], "curves"@[0]));
        }
    }
}

/// Queue a switch to the scene preset named `name` ("default", "curves", "allshapes" or
/// "aabb2d", ASCII case ignored; unknown names select the default scene).
pub fn set_demo(state: &mut WebState, name: &str)
    ensures
        *final(state) == (WebState { pending_demo: Some(spec_demo_for_name(name@)), ..*old(state) }),
{
    let demo = if eq_ignore_ascii_case(name, "curves") {
        RunDemo::Curves
    } else if eq_ignore_ascii_case(name, "allshapes") {
        RunDemo::AllShapes
    } else if eq_ignore_ascii_case(name, "aabb2d") {
        RunDemo::Aabb2d
    } else {
        RunDemo::Default
    };
    state.pending_demo = Some(demo);
}

/// The current world's entity tree as published at the last frame.
pub fn get_primitive_tree(state: &WebState) -> (s: String)
    ensures
        s@ == state.tree_dump@,
{
    state.tree_dump.clone()
}

/// The selected entity id published at the last frame, or `NO_ENTITY` if none.
pub fn get_selected_entity(state: &WebState) -> (id: u32)
    ensures
        id == state.selected_entity_id,
{
    state.selected_entity_id
}

/// Queue a selection change. `NO_ENTITY` clears the selection.
pub fn set_selected_entity(state: &mut WebState, id: u32)
    ensures
        *final(state) == (WebState {
            pending_selection: Some(
                if id == NO_ENTITY {
                    None
                } else {
                    Some(id)
                },
            ),
            ..*old(state)
        }),
{
    state.pending_selection = Some(
        if id == NO_ENTITY {
            None
        } else {
            Some(id)
        },
    );
}

/// Material names (newline-separated) published at the last frame.
pub fn get_material_names(state: &WebState) -> (s: String)
    ensures
        s@ == state.material_names_dump@,
{
    state.material_names_dump.clone()
}

/// Queue setting the material of an entity (an empty name clears it).
pub fn set_entity_material(state: &mut WebState, entity_id: u32, material_name: &str)
    ensures
        final(state).pending_set_material matches Some((id, name)) && id == entity_id && name@
            == material_name@,
        *final(state) == (WebState {
            pending_set_material: final(state).pending_set_material,
            ..*old(state)
        }),
{
    state.pending_set_material = Some((entity_id, String::from_str(material_name)));
}

/// Queue setting the primitive of an entity by name ("cube", "sphere", "line", "bezier", ...).
pub fn set_entity_primitive(state: &mut WebState, entity_id: u32, primitive_name: &str)
    ensures
        final(state).pending_set_primitive matches Some((id, name)) && id == entity_id && name@
            == primitive_name@,
        *final(state) == (WebState {
            pending_set_primitive: final(state).pending_set_primitive,
            ..*old(state)
        }),
{
    state.pending_set_primitive = Some((entity_id, String::from_str(primitive_name)));
}

/// Queue removing the entity selected at the last frame; nothing when none is selected.
pub fn remove_selected_entity(state: &mut WebState)
    ensures
        *final(state) == if old(state).selected_entity_id != NO_ENTITY {
            WebState { pending_remove_entity: Some(old(state).selected_entity_id), ..*old(state) }
        } else {
            *old(state)
        },
{
    let id = state.selected_entity_id;
    if id != NO_ENTITY {
        state.pending_remove_entity = Some(id);
    }
}

/// The gizmo mode name ("translate", "rotate" or "scale") published at the last frame.
pub fn get_gizmo_mode(state: &WebState) -> (s: String)
    ensures
        s@ == state.gizmo_mode_dump@,
{
    state.gizmo_mode_dump.clone()
}

/// The gizmo mode a (trimmed, lower-cased) name selects: "rotate", "scale", anything else
/// translate.
pub open spec fn spec_gizmo_mode_for_key(key: Seq<char>) -> GizmoMode {
    if key == "rotate"@ {
        GizmoMode::Rotate
    } else if key == "scale"@ {
        GizmoMode::Scale
    } else {
        GizmoMode::Translate
    }
}

/// The gizmo mode for an already trimmed, lower-case name.
pub fn gizmo_mode_from_key(key: &str) -> (m: GizmoMode)
    ensures
        m == spec_gizmo_mode_for_key(key@),
{
    if str_eq(key, "rotate") {
        GizmoMode::Rotate
    } else if str_eq(key, "scale") {
        GizmoMode::Scale
    } else {
        GizmoMode::Translate
    }
}

/// Queue a gizmo mode change: "rotate", "scale", or anything else for translate (the name is
/// trimmed and lower-cased first).
pub fn set_gizmo_mode(state: &mut WebState, mode: &str)
    ensures
        *final(state) == (WebState {
            pending_gizmo_mode: Some(spec_gizmo_mode_for_key(spec_to_lowercase(spec_trim(mode@)))),
            ..*old(state)
        }),
{
    let t = trim(mode);
    let lower = to_lowercase(t);
    let m = gizmo_mode_from_key(lower.as_str());
    state.pending_gizmo_mode = Some(m);
}

/// Queue adding an entity under the root with the named primitive; it becomes selected.
pub fn add_entity(state: &mut WebState, primitive_name: &str)
    ensures
        final(state).pending_add_entity matches Some(name) && name@ == primitive_name@,
        *final(state) == (WebState {
            pending_add_entity: final(state).pending_add_entity,
            ..*old(state)
        }),
{
    state.pending_add_entity = Some(String::from_str(primitive_name));
}

/// Local position "x,y,z" of the selected entity published at the last frame (empty if none).
pub fn get_selected_entity_local_position(state: &WebState) -> (s: String)
    ensures
        s@ == state.local_position_dump@,
{
    state.local_position_dump.clone()
}

/// World position "x,y,z" of the selected entity published at the last frame (empty if none).
pub fn get_selected_entity_world_position(state: &WebState) -> (s: String)
    ensures
        s@ == state.world_position_dump@,
{
    state.world_position_dump.clone()
}

/// Local rotation "r,p,y" (radians) of the selected entity published at the last frame (empty if
/// none).
pub fn get_selected_entity_local_rotation(state: &WebState) -> (s: String)
    ensures
        s@ == state.local_rotation_dump@,
{
    state.local_rotation_dump.clone()
}

/// Local scale "x,y,z" of the selected entity published at the last frame (empty if none).
pub fn get_selected_entity_local_scale(state: &WebState) -> (s: String)
    ensures
        s@ == state.local_scale_dump@,
{
    state.local_scale_dump.clone()
}

/// Queue setting the local position of an entity (`f32` bit patterns).
pub fn set_entity_local_position(state: &mut WebState, entity_id: u32, x: u32, y: u32, z: u32)
    ensures
        *final(state) == (WebState {
            pending_set_local_position: Some((entity_id, [x, y, z])),
            ..*old(state)
        }),
{
    state.pending_set_local_position = Some((entity_id, [x, y, z]));
}

/// Queue setting the world position of an entity (`f32` bit patterns).
pub fn set_entity_world_position(state: &mut WebState, entity_id: u32, x: u32, y: u32, z: u32)
    ensures
        *final(state) == (WebState {
            pending_set_world_position: Some((entity_id, [x, y, z])),
            ..*old(state)
        }),
{
    state.pending_set_world_position = Some((entity_id, [x, y, z]));
}

/// Queue setting the local rotation of an entity (roll, pitch, yaw as `f32` bit patterns).
pub fn set_entity_local_rotation(
    state: &mut WebState,
    entity_id: u32,
    roll: u32,
    pitch: u32,
    yaw: u32,
)
    ensures
        *final(state) == (WebState {
            pending_set_local_rotation: Some((entity_id, [roll, pitch, yaw])),
            ..*old(state)
        }),
{
    state.pending_set_local_rotation = Some((entity_id, [roll, pitch, yaw]));
}

/// Queue setting the local scale of an entity (`f32` bit patterns).
pub fn set_entity_local_scale(state: &mut WebState, entity_id: u32, x: u32, y: u32, z: u32)
    ensures
        *final(state) == (WebState {
            pending_set_local_scale: Some((entity_id, [x, y, z])),
            ..*old(state)
        }),
{
    state.pending_set_local_scale = Some((entity_id, [x, y, z]));
}

} // verus!
