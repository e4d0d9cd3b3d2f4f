//! render: verified scene-graph, scene-preset, panel, texture and readback logic of a 2D/3D
//! rendering engine, and the scripting interface of its web front end.

pub mod demo;
pub mod error;
pub mod gizmo;
pub mod panels;
pub mod platform;
pub mod pointer;
pub mod presets;
pub mod readback;
pub mod scene;
pub mod scene_state;
pub mod shader_config;
pub mod strings;
pub mod texture;
pub mod ui;
pub mod ui_state;
pub mod view_mode;
pub mod web_api;
pub mod web_frame;

pub use demo::{
    apply_scene_action, auto_select_first_entity, element_count, format_primitive_tree,
    parse_primitive_name, SceneAction, MATERIAL_WINDOW_ID, SCENE_WINDOW_ID, STATS_WINDOW_ID,
};
pub use error::RenderError;
pub use gizmo::{GizmoAxis, GizmoMode};
pub use panels::{
    add_to_mapping, build_material_panel, build_scene_panel, scene_panel_click, PanelButton,
    MATERIAL_BUTTON_FIRST_ID,
};
pub use platform::RunDemo;
pub use pointer::{should_pick, PointerState, ReleaseOutcome};
pub use presets::{build_demo_scene, switch_demo_scene, Aabb2dIds};
pub use readback::{padded_bytes_per_row, padded_rows_to_rgb_bottom_up, ReadbackLayout};
pub use scene::{
    primitive_label, CurvePoint, EntityId, NodeData, Primitive, Primitive2D, Primitive3D,
    Transform, World, WorldParts,
};
pub use scene_state::SceneState;
pub use shader_config::ShaderConfig;
pub use texture::{downsample_rgba_2x2, mip_chain, mip_level_count, procedural_checker_rgba};
pub use ui::{ControlId, ControlState, LabelTextAlign};
pub use ui_state::{ControlKind, ControlSlot, HoverTarget, UiInteraction};
pub use view_mode::{view_mode_label, ViewMode};
pub use web_api::{WebState, NO_ENTITY};
pub use web_frame::{apply_pending_edits, apply_pending_pose_edits, publish_frame_state, PoseReadout};
