//! Once per frame the web front end applies the requests that page scripts queued in its
//! `WebState` to the scene, in a fixed order, and then publishes the values that scripts read
//! back. A world-position request needs the world matrices, so it is handed back to the front
//! end at the point of the order where it belongs.

use vstd::prelude::*;

use crate::demo::{format_primitive_tree, parse_primitive_name, spec_primitive_for_key, spec_primitive_tree};
use crate::gizmo::{gizmo_mode_name, spec_gizmo_mode_name, GizmoMode};
use crate::scene::node_data::NodeData;
use crate::scene::transform::{spec_identity_transform, Transform, F32_ONE_BITS};
use crate::scene::world::{active_only, lemma_active_only, lemma_dfs_in_range, World};
use crate::scene::{EntityId, Primitive};
use crate::scene_state::{lemma_active_replaced, SceneState};
use crate::strings::{join_lines, spec_join_lines, spec_to_lowercase, spec_trim};
use crate::web_api::{WebState, NO_ENTITY};

verus! {

/// The entity that a script-side id names.
pub open spec fn entity_of(id: u32) -> EntityId {
    EntityId(id as usize)
}

/// The primitive that a script-side primitive name selects, if any.
pub open spec fn primitive_for_name(name: Seq<char>) -> Option<Primitive> {
    spec_primitive_for_key(spec_to_lowercase(spec_trim(name)))
}

/// `after` differs from `before` only in the active world, whose graph is unchanged and whose
/// node data is `before`'s with the entry of `id` replaced by `d` (when `id` is in storage).
/// The selection is not touched.
pub open spec fn active_data_edited(
    before: SceneState,
    after: SceneState,
    id: EntityId,
    d: NodeData,
) -> bool {
    &&& after.active_world == before.active_world
    &&& after.selected_entity == before.selected_entity
    &&& after.view_mode == before.view_mode
    &&& after.gizmo_mode == before.gizmo_mode
    &&& after.gizmo_hidden == before.gizmo_hidden
    &&& after.worlds@.len() == before.worlds@.len()
    &&& forall|i: int|
        0 <= i < before.worlds@.len() && i != before.active_world ==> #[trigger] after.worlds@[i]
            == before.worlds@[i]
    &&& after.active().same_graph(before.active())
    &&& after.active().node_data() == before.active().data_updated(id, d)
}

/// A queued selection replaces the selection (`Some(None)` clears it).
pub open spec fn selection_step(before: SceneState, after: SceneState, p: Option<Option<u32>>) -> bool {
    match p {
        None => after == before,
        Some(sel) => after == (SceneState {
            selected_entity: match sel {
                Some(id) => Some(entity_of(id)),
                None => None,
            },
            ..before
        }),
    }
}

/// A queued material is set on an entity of the active world (an empty name clears it); an id
/// that is not in storage changes nothing.
pub open spec fn material_step(before: SceneState, after: SceneState, p: Option<(u32, String)>) -> bool {
    match p {
        Some((id, name)) => if before.active().contains(entity_of(id)) {
            active_data_edited(
                before,
                after,
                entity_of(id),
                NodeData {
                    material: if name@.len() == 0 {
                        None
                    } else {
                        Some(name)
                    },
                    ..before.active().node_data()[id as int]
                },
            )
        } else {
            after == before
        },
        None => after == before,
    }
}

/// A queued primitive name is parsed and the primitive set on an entity of the active world; an
/// unknown name or an id that is not in storage changes nothing.
pub open spec fn primitive_step(before: SceneState, after: SceneState, p: Option<(u32, String)>) -> bool {
    match p {
        Some((id, name)) => match primitive_for_name(name@) {
            Some(prim) => if before.active().contains(entity_of(id)) {
                active_data_edited(
                    before,
                    after,
                    entity_of(id),
                    NodeData { primitive: Some(prim), ..before.active().node_data()[id as int] },
                )
            } else {
                after == before
            },
            None => after == before,
        },
        None => after == before,
    }
}

/// A queued removal despawns an entity of the active world other than the root and clears the
/// selection; the root or an id that is not in storage changes nothing.
pub open spec fn remove_step(before: SceneState, after: SceneState, p: Option<u32>) -> bool {
    match p {
        Some(id) => if before.active().contains(entity_of(id)) && id != 0 {
            &&& after.selected_entity is None
            &&& active_data_edited(
                before,
                SceneState { selected_entity: before.selected_entity, ..after },
                entity_of(id),
                NodeData { active: false, ..before.active().node_data()[id as int] },
            )
        } else {
            after == before
        },
        None => after == before,
    }
}

/// A queued gizmo mode replaces the gizmo mode.
pub open spec fn gizmo_step(before: SceneState, after: SceneState, p: Option<GizmoMode>) -> bool {
    match p {
        None => after == before,
        Some(m) => after == (SceneState { gizmo_mode: m, ..before }),
    }
}

/// Data of a freshly added entity: default data with the given primitive.
pub open spec fn added_node_data(d: NodeData, prim: Option<Primitive>) -> bool {
    &&& d.transform == spec_identity_transform()
    &&& d.primitive == prim
    &&& d.color == [F32_ONE_BITS, F32_ONE_BITS, F32_ONE_BITS, F32_ONE_BITS]
    &&& d.material is None
    &&& d.active
}

/// A queued addition spawns a new last child of the root of the active world, with the named
/// primitive when the name parses, and selects it.
pub open spec fn add_step(before: SceneState, after: SceneState, p: Option<String>) -> bool {
    match p {
        None => after == before,
        Some(name) => {
            let w0 = before.active();
            let w1 = after.active();
            let n = w0.node_count();
            &&& after.wf()
            &&& after.active_world == before.active_world
            &&& after.selected_entity == Some(EntityId(n as usize))
            &&& after.view_mode == before.view_mode
            &&& after.gizmo_mode == before.gizmo_mode
            &&& after.gizmo_hidden == before.gizmo_hidden
            &&& after.worlds@.len() == before.worlds@.len()
            &&& forall|i: int|
                0 <= i < before.worlds@.len() && i != before.active_world ==> #[trigger] after.worlds@[i]
                    == before.worlds@[i]
            &&& w1.node_count() == n + 1
            &&& w1.parents() == w0.parents().push(Some(0usize))
            &&& w1.child_lists() == w0.child_lists().update(
                0,
                w0.child_lists()[0].push(n as usize),
            ).push(Seq::<usize>::empty())
            &&& w1.node_data().drop_last() == w0.node_data()
            &&& added_node_data(w1.node_data()[n as int], primitive_for_name(name@))
        },
    }
}

/// A queued edit of one part of an entity's local transform; an id that is not in storage
/// changes nothing.
pub open spec fn transform_step(
    before: SceneState,
    after: SceneState,
    id: u32,
    t: Transform,
) -> bool {
    if before.active().contains(entity_of(id)) {
        active_data_edited(
            before,
            after,
            entity_of(id),
            NodeData { transform: t, ..before.active().node_data()[id as int] },
        )
    } else {
        after == before
    }
}

/// The local transform of `id` in the active world of `s`.
pub open spec fn local_transform(s: SceneState, id: u32) -> Transform {
    s.active().node_data()[id as int].transform
}

/// A queued local position replaces the position of an entity's transform.
pub open spec fn position_step(before: SceneState, after: SceneState, p: Option<(u32, [u32; 3])>) -> bool {
    match p {
        Some((id, pos)) => transform_step(
            before,
            after,
            id,
            Transform { position: pos, ..local_transform(before, id) },
        ),
        None => after == before,
    }
}

/// A queued local rotation replaces the Euler rotation of an entity's transform and drops its
/// quaternion.
pub open spec fn rotation_step(before: SceneState, after: SceneState, p: Option<(u32, [u32; 3])>) -> bool {
    match p {
        Some((id, rot)) => transform_step(
            before,
            after,
            id,
            Transform { rotation: rot, rotation_quat: None, ..local_transform(before, id) },
        ),
        None => after == before,
    }
}

/// A queued local scale replaces the scale of an entity's transform.
pub open spec fn scale_step(before: SceneState, after: SceneState, p: Option<(u32, [u32; 3])>) -> bool {
    match p {
        Some((id, s)) => transform_step(
            before,
            after,
            id,
            Transform { scale: s, ..local_transform(before, id) },
        ),
        None => after == before,
    }
}

/// The scene passes through `mid` while the queued edits of `state` are applied in order:
/// selection, material, primitive, removal, gizmo mode, addition, local position.
pub open spec fn edits_chain(
    state: WebState,
    before: SceneState,
    after: SceneState,
    mid: Seq<SceneState>,
) -> bool {
    &&& mid.len() == 6
    &&& selection_step(before, mid[0], state.pending_selection)
    &&& material_step(mid[0], mid[1], state.pending_set_material)
    &&& primitive_step(mid[1], mid[2], state.pending_set_primitive)
    &&& remove_step(mid[2], mid[3], state.pending_remove_entity)
    &&& gizmo_step(mid[3], mid[4], state.pending_gizmo_mode)
    &&& add_step(mid[4], mid[5], state.pending_add_entity)
    &&& position_step(mid[5], after, state.pending_set_local_position)
}

/// Applying the queued edits of `state` in order takes the scene from `before` to `after`.
pub open spec fn pending_edits_effect(state: WebState, before: SceneState, after: SceneState) -> bool {
    exists|mid: Seq<SceneState>| #[trigger] edits_chain(state, before, after, mid)
}

/// Facts every step keeps: well-formedness, and the active world's storage size.
pub open spec fn step_keeps(before: SceneState, after: SceneState) -> bool {
    &&& after.wf()
    &&& after.active().node_count() == before.active().node_count()
}

fn apply_selection(scene: &mut SceneState, p: Option<Option<u32>>)
    requires
        old(scene).wf(),
    ensures
        step_keeps(*old(scene), *final(scene)),
        selection_step(*old(scene), *final(scene), p),
{
    if let Some(sel) = p {
        scene.selected_entity = match sel {
            Some(id) => Some(EntityId(id as usize)),
            None => None,
        };
    }
}

fn apply_material(scene: &mut SceneState, p: Option<(u32, String)>)
    requires
        old(scene).wf(),
    ensures
        step_keeps(*old(scene), *final(scene)),
        material_step(*old(scene), *final(scene), p),
{
    let ghost before = *scene;
    if let Some((id, name)) = p {
        let eid = EntityId(id as usize);
        let ai = scene.active_world;
        if scene.worlds[ai].get(eid).is_some() {
            let m = if name.as_str().is_empty() {
                None
            } else {
                Some(name)
            };
            scene.worlds[ai].set_material(eid, m);
            proof {
                scene.active().lemma_same_graph(before.active());
                lemma_active_replaced(before, *scene);
            }
        }
    }
}

fn apply_primitive(scene: &mut SceneState, p: Option<(u32, String)>)
    requires
        old(scene).wf(),
    ensures
        step_keeps(*old(scene), *final(scene)),
        primitive_step(*old(scene), *final(scene), p),
{
    let ghost before = *scene;
    if let Some((id, name)) = p {
        if let Some(prim) = parse_primitive_name(name.as_str()) {
            let eid = EntityId(id as usize);
            let ai = scene.active_world;
            if scene.worlds[ai].get(eid).is_some() {
                scene.worlds[ai].set_primitive(eid, prim);
                proof {
                    scene.active().lemma_same_graph(before.active());
                    lemma_active_replaced(before, *scene);
                }
            }
        }
    }
}

fn apply_remove(scene: &mut SceneState, p: Option<u32>)
    requires
        old(scene).wf(),
    ensures
        step_keeps(*old(scene), *final(scene)),
        remove_step(*old(scene), *final(scene), p),
{
    let ghost before = *scene;
    if let Some(id) = p {
        let eid = EntityId(id as usize);
        let ai = scene.active_world;
        let root = scene.worlds[ai].root_entity();
        if scene.worlds[ai].get(eid).is_some() && eid.0 != root.0 {
            scene.worlds[ai].despawn(eid);
            proof {
                scene.active().lemma_same_graph(before.active());
                lemma_active_replaced(before, *scene);
            }
            scene.selected_entity = None;
        }
    }
}

fn apply_gizmo_mode(scene: &mut SceneState, p: Option<GizmoMode>)
    requires
        old(scene).wf(),
    ensures
        step_keeps(*old(scene), *final(scene)),
        gizmo_step(*old(scene), *final(scene), p),
{
    if let Some(m) = p {
        scene.gizmo_mode = m;
    }
}

fn apply_add(scene: &mut SceneState, p: Option<String>)
    requires
        old(scene).wf(),
        old(scene).active().node_count() < usize::MAX,
    ensures
        final(scene).wf(),
        add_step(*old(scene), *final(scene), p),
{
    let ghost before = *scene;
    if let Some(name) = p {
        let ai = scene.active_world;
        let root = scene.worlds[ai].root_entity();
        proof {
            before.active().lemma_wf_ranks();
        }
        let new_id = scene.worlds[ai].spawn(root);
        let ghost spawned = *scene;
        match parse_primitive_name(name.as_str()) {
            Some(prim) => {
                scene.worlds[ai].set_primitive(new_id, prim);
                proof {
                    scene.active().lemma_same_graph(spawned.active());
                    spawned.active().lemma_wf_ranks();
                    scene.active().lemma_wf_ranks();
                    assert(scene.active().node_data().drop_last() =~= spawned.active().node_data().drop_last());
                }
            },
            None => {},
        }
        proof {
            lemma_active_replaced(before, *scene);
        }
        scene.selected_entity = Some(new_id);
    }
}

/// Replace the local transform of `id` in the active world by `t` when `id` is in storage.
fn apply_transform(scene: &mut SceneState, id: u32, t: Transform)
    requires
        old(scene).wf(),
    ensures
        step_keeps(*old(scene), *final(scene)),
        transform_step(*old(scene), *final(scene), id, t),
{
    let ghost before = *scene;
    let eid = EntityId(id as usize);
    let ai = scene.active_world;
    if scene.worlds[ai].get(eid).is_some() {
        scene.worlds[ai].set_transform(eid, t);
        proof {
            scene.active().lemma_same_graph(before.active());
            lemma_active_replaced(before, *scene);
        }
    }
}

/// The local transform of `id` in the active world, or the identity when `id` is not in storage.
fn current_transform(scene: &SceneState, id: u32) -> (t: Transform)
    requires
        scene.wf(),
    ensures
        scene.active().contains(entity_of(id)) ==> t == local_transform(*scene, id),
{
    match scene.world().get(EntityId(id as usize)) {
        Some(d) => d.transform,
        None => Transform::default(),
    }
}

fn apply_position(scene: &mut SceneState, p: Option<(u32, [u32; 3])>)
    requires
        old(scene).wf(),
    ensures
        step_keeps(*old(scene), *final(scene)),
        position_step(*old(scene), *final(scene), p),
{
    if let Some((id, pos)) = p {
        let cur = current_transform(scene, id);
        apply_transform(scene, id, Transform { position: pos, ..cur });
    }
}

fn apply_rotation(scene: &mut SceneState, p: Option<(u32, [u32; 3])>)
    requires
        old(scene).wf(),
    ensures
        step_keeps(*old(scene), *final(scene)),
        rotation_step(*old(scene), *final(scene), p),
{
    if let Some((id, rot)) = p {
        let cur = current_transform(scene, id);
        apply_transform(scene, id, Transform { rotation: rot, rotation_quat: None, ..cur });
    }
}

fn apply_scale(scene: &mut SceneState, p: Option<(u32, [u32; 3])>)
    requires
        old(scene).wf(),
    ensures
        step_keeps(*old(scene), *final(scene)),
        scale_step(*old(scene), *final(scene), p),
{
    if let Some((id, s)) = p {
        let cur = current_transform(scene, id);
        apply_transform(scene, id, Transform { scale: s, ..cur });
    }
}

/// Apply the edits that scripts queued since the last frame, in this order: selection, material,
/// primitive, removal, gizmo mode, addition, local position. Each queue is emptied. A queued
/// world position is taken from its queue as well and returned, for the front end to apply next
/// (it needs the world matrices), when its entity is in storage after the edits.
pub fn apply_pending_edits(state: &mut WebState, scene: &mut SceneState) -> (world_position: Option<
    (EntityId, [u32; 3]),
>)
    requires
        old(scene).wf(),
        old(scene).active().node_count() < usize::MAX,
    ensures
        final(scene).wf(),
        pending_edits_effect(*old(state), *old(scene), *final(scene)),
        *final(state) == (WebState {
            pending_selection: None,
            pending_set_material: None,
            pending_set_primitive: None,
            pending_remove_entity: None,
            pending_gizmo_mode: None,
            pending_add_entity: None,
            pending_set_local_position: None,
            pending_set_world_position: None,
            ..*old(state)
        }),
        world_position == match old(state).pending_set_world_position {
            Some((id, pos)) => if final(scene).active().contains(entity_of(id)) {
                Some((entity_of(id), pos))
            } else {
                None
            },
            None => None,
        },
{
    let ghost st = *state;
    let ghost s0 = *scene;
    apply_selection(scene, state.pending_selection.take());
    let ghost s1 = *scene;
    apply_material(scene, state.pending_set_material.take());
    let ghost s2 = *scene;
    apply_primitive(scene, state.pending_set_primitive.take());
    let ghost s3 = *scene;
    apply_remove(scene, state.pending_remove_entity.take());
    let ghost s4 = *scene;
    apply_gizmo_mode(scene, state.pending_gizmo_mode.take());
    let ghost s5 = *scene;
    apply_add(scene, state.pending_add_entity.take());
    let ghost s6 = *scene;
    apply_position(scene, state.pending_set_local_position.take());
    proof {
        assert(edits_chain(st, s0, *scene, seq![s1, s2, s3, s4, s5, s6]));
    }
    match state.pending_set_world_position.take() {
        Some((id, pos)) => {
            let eid = EntityId(id as usize);
            if scene.world().get(eid).is_some() {
                Some((eid, pos))
            } else {
                None
            }
        },
        None => None,
    }
}

/// The scene passes through `mid` while the queued rotation and then the queued scale of
/// `state` are applied.
pub open spec fn pose_chain(state: WebState, before: SceneState, after: SceneState, mid: SceneState) -> bool {
    &&& rotation_step(before, mid, state.pending_set_local_rotation)
    &&& scale_step(mid, after, state.pending_set_local_scale)
}

/// Applying the queued rotation and scale of `state` takes the scene from `before` to `after`.
pub open spec fn pending_pose_effect(state: WebState, before: SceneState, after: SceneState) -> bool {
    exists|mid: SceneState| #[trigger] pose_chain(state, before, after, mid)
}

/// Apply the queued local rotation and then the queued local scale (after the front end has
/// applied the world position that `apply_pending_edits` returned), emptying both queues. The
/// queued scene preset is taken from its queue and returned: the front end rebuilds the scene
/// with it.
pub fn apply_pending_pose_edits(state: &mut WebState, scene: &mut SceneState) -> (switch_to: Option<
    crate::platform::RunDemo,
>)
    requires
        old(scene).wf(),
    ensures
        final(scene).wf(),
        final(scene).active().node_count() == old(scene).active().node_count(),
        pending_pose_effect(*old(state), *old(scene), *final(scene)),
        *final(state) == (WebState {
            pending_set_local_rotation: None,
            pending_set_local_scale: None,
            pending_demo: None,
            ..*old(state)
        }),
        switch_to == old(state).pending_demo,
{
    let ghost st = *state;
    let ghost s0 = *scene;
    apply_rotation(scene, state.pending_set_local_rotation.take());
    let ghost s1 = *scene;
    apply_scale(scene, state.pending_set_local_scale.take());
    proof {
        assert(pose_chain(st, s0, *scene, s1));
    }
    state.pending_demo.take()
}

/// Read-outs of the selected entity's transform ("x,y,z" texts), formatted by the front end.
pub struct PoseReadout {
    /// Local position.
    pub local_position: String,
    /// Local rotation (roll, pitch, yaw).
    pub local_rotation: String,
    /// Local scale.
    pub local_scale: String,
    /// World position.
    pub world_position: String,
}

/// The script-side number of a selection: the entity index (truncated to 32 bits), or
/// `NO_ENTITY` when nothing is selected.
pub open spec fn selected_id_value(sel: Option<EntityId>) -> u32 {
    match sel {
        Some(e) => e.0 as u32,
        None => NO_ENTITY,
    }
}

/// Publish the values scripts read back: the active world's entity tree, the selected entity,
/// the material names (newline-separated, in the given order), the gizmo mode name, and the
/// transform read-outs of the selected entity (all four cleared when nothing is selected). The
/// queued requests are left as they are.
pub fn publish_frame_state(
    state: &mut WebState,
    scene: &SceneState,
    material_names: &Vec<String>,
    readout: PoseReadout,
)
    requires
        scene.wf(),
    ensures
        final(state).tree_dump@ == spec_primitive_tree(scene.active()),
        final(state).selected_entity_id == selected_id_value(scene.selected_entity),
        final(state).material_names_dump@ == spec_join_lines(
            material_names@.map_values(|p: String| p@),
        ),
        final(state).gizmo_mode_dump@ == spec_gizmo_mode_name(scene.gizmo_mode),
        scene.selected_entity is Some ==> {
            &&& final(state).local_position_dump == readout.local_position
            &&& final(state).local_rotation_dump == readout.local_rotation
            &&& final(state).local_scale_dump == readout.local_scale
            &&& final(state).world_position_dump == readout.world_position
        },
        scene.selected_entity is None ==> {
            &&& final(state).local_position_dump@ == Seq::<char>::empty()
            &&& final(state).local_rotation_dump@ == Seq::<char>::empty()
            &&& final(state).local_scale_dump@ == Seq::<char>::empty()
            &&& final(state).world_position_dump@ == Seq::<char>::empty()
        },
        *final(state) == (WebState {
            tree_dump: final(state).tree_dump,
            selected_entity_id: final(state).selected_entity_id,
            material_names_dump: final(state).material_names_dump,
            gizmo_mode_dump: final(state).gizmo_mode_dump,
            local_position_dump: final(state).local_position_dump,
            local_rotation_dump: final(state).local_rotation_dump,
            local_scale_dump: final(state).local_scale_dump,
            world_position_dump: final(state).world_position_dump,
            ..*old(state)
        }),
{
    state.tree_dump = format_primitive_tree(scene.world());
    state.selected_entity_id = match scene.selected_entity {
        Some(e) => e.0 as u32,
        None => NO_ENTITY,
    };
    if scene.selected_entity.is_some() {
        state.local_position_dump = readout.local_position;
        state.local_rotation_dump = readout.local_rotation;
        state.local_scale_dump = readout.local_scale;
        state.world_position_dump = readout.world_position;
    } else {
        state.local_position_dump = String::new();
        state.local_rotation_dump = String::new();
        state.local_scale_dump = String::new();
        state.world_position_dump = String::new();
    }
    state.material_names_dump = join_lines(material_names);
    state.gizmo_mode_dump = gizmo_mode_name(scene.gizmo_mode);
}

/// A step that edits the active world's data leaves its graph, the selection and the modes
/// alone, and keeps the `active` flag of every entity whose data is replaced by a copy with the
/// same flag.
proof fn lemma_edit_keeps(before: SceneState, after: SceneState, id: EntityId, d: NodeData)
    requires
        before.wf(),
        active_data_edited(before, after, id, d),
    ensures
        after.wf(),
        after.active().node_count() == before.active().node_count(),
        after.active().dfs_order() == before.active().dfs_order(),
{
    after.active().lemma_same_graph(before.active());
    lemma_active_replaced(before, after);
}

/// The chain of the queued edits of `state` from `before` to `after`.
proof fn lemma_chain_of(state: WebState, before: SceneState, after: SceneState) -> (mid: Seq<SceneState>)
    requires
        pending_edits_effect(state, before, after),
    ensures
        edits_chain(state, before, after, mid),
{
    choose|mid: Seq<SceneState>| edits_chain(state, before, after, mid)
}

/// The middle scene of the queued pose edits of `state` from `before` to `after`.
proof fn lemma_pose_mid(state: WebState, before: SceneState, after: SceneState) -> (mid: SceneState)
    requires
        pending_pose_effect(state, before, after),
    ensures
        pose_chain(state, before, after, mid),
{
    choose|mid: SceneState| pose_chain(state, before, after, mid)
}

/// Pose edits (position, rotation, scale) keep the selection, the gizmo mode, the storage size
/// and the `active` flag of every entity of the active world.
proof fn lemma_transform_step_keeps(before: SceneState, after: SceneState, id: u32, t: Transform)
    requires
        before.wf(),
        transform_step(before, after, id, t),
    ensures
        after.wf(),
        after.selected_entity == before.selected_entity,
        after.gizmo_mode == before.gizmo_mode,
        after.active().node_count() == before.active().node_count(),
        after.active().dfs_order() == before.active().dfs_order(),
        forall|x: int|
            0 <= x < before.active().node_count() ==> (#[trigger] after.active().node_data()[x]).active
                == before.active().node_data()[x].active,
{
    before.active().lemma_wf_ranks();
    if before.active().contains(entity_of(id)) {
        lemma_edit_keeps(
            before,
            after,
            entity_of(id),
            NodeData { transform: t, ..before.active().node_data()[id as int] },
        );
    }
}

/// Law: the gizmo mode after a frame is the one a script requested last, whatever else was
/// queued with it.
pub proof fn lemma_gizmo_request_applied(
    state: WebState,
    pose_state: WebState,
    before: SceneState,
    mid: SceneState,
    after: SceneState,
)
    requires
        before.wf(),
        state.pending_gizmo_mode is Some,
        pending_edits_effect(state, before, mid),
        pending_pose_effect(pose_state, mid, after),
    ensures
        after.gizmo_mode == state.pending_gizmo_mode->0,
{
    let c = lemma_chain_of(state, before, mid);
    let m = lemma_pose_mid(pose_state, mid, after);
    lemma_steps_keep_wf(state, before, mid, c);
    assert(c[4].gizmo_mode == state.pending_gizmo_mode->0);
    assert(c[5].gizmo_mode == c[4].gizmo_mode);
    if let Some((id, pos)) = state.pending_set_local_position {
        lemma_transform_step_keeps(c[5], mid, id, Transform { position: pos, ..local_transform(c[5], id) });
    }
    if let Some((id, rot)) = pose_state.pending_set_local_rotation {
        lemma_transform_step_keeps(
            mid,
            m,
            id,
            Transform { rotation: rot, rotation_quat: None, ..local_transform(mid, id) },
        );
    }
    if let Some((id, sc)) = pose_state.pending_set_local_scale {
        lemma_transform_step_keeps(m, after, id, Transform { scale: sc, ..local_transform(m, id) });
    }
}

/// Every scene of the chain of queued edits is well-formed, and the active world keeps its
/// storage size up to the addition.
proof fn lemma_steps_keep_wf(state: WebState, before: SceneState, after: SceneState, c: Seq<SceneState>)
    requires
        before.wf(),
        edits_chain(state, before, after, c),
    ensures
        forall|k: int| 0 <= k < 6 ==> (#[trigger] c[k]).wf(),
        after.wf(),
        c[4].active().node_count() == before.active().node_count(),
        c[4].selected_entity == c[3].selected_entity,
{
    before.active().lemma_wf_ranks();
    if let Some((id, name)) = state.pending_set_material {
        if c[0].active().contains(entity_of(id)) {
            lemma_edit_keeps(
                c[0],
                c[1],
                entity_of(id),
                NodeData {
                    material: if name@.len() == 0 {
                        None
                    } else {
                        Some(name)
                    },
                    ..c[0].active().node_data()[id as int]
                },
            );
        }
    }
    if let Some((id, name)) = state.pending_set_primitive {
        if let Some(prim) = primitive_for_name(name@) {
            if c[1].active().contains(entity_of(id)) {
                lemma_edit_keeps(
                    c[1],
                    c[2],
                    entity_of(id),
                    NodeData { primitive: Some(prim), ..c[1].active().node_data()[id as int] },
                );
            }
        }
    }
    if let Some(id) = state.pending_remove_entity {
        if c[2].active().contains(entity_of(id)) && id != 0 {
            let s = SceneState { selected_entity: c[2].selected_entity, ..c[3] };
            lemma_edit_keeps(c[2], s, entity_of(id), NodeData { active: false, ..c[2].active().node_data()[id as int] });
            assert(c[3].wf());
        }
    }
    if let Some((id, pos)) = state.pending_set_local_position {
        lemma_transform_step_keeps(c[5], after, id, Transform { position: pos, ..local_transform(c[5], id) });
    }
}

/// Law: a selection a script requested is the selection after the frame, and the id read back,
/// unless a removal or an addition was queued with it.
pub proof fn lemma_selection_request_applied(
    state: WebState,
    pose_state: WebState,
    before: SceneState,
    mid: SceneState,
    after: SceneState,
    id: u32,
)
    requires
        before.wf(),
        state.pending_selection == Some(Some(id)),
        state.pending_remove_entity is None,
        state.pending_add_entity is None,
        pending_edits_effect(state, before, mid),
        pending_pose_effect(pose_state, mid, after),
    ensures
        after.selected_entity == Some(entity_of(id)),
        selected_id_value(after.selected_entity) == id,
{
    let c = lemma_chain_of(state, before, mid);
    let m = lemma_pose_mid(pose_state, mid, after);
    lemma_steps_keep_wf(state, before, mid, c);
    assert(c[0].selected_entity == Some(entity_of(id)));
    assert(c[1].selected_entity == c[0].selected_entity);
    assert(c[2].selected_entity == c[1].selected_entity);
    assert(c[5].selected_entity == c[2].selected_entity);
    lemma_pose_keeps_selection(state, pose_state, c[5], mid, m, after);
}

/// The local-position edit of a frame and the pose edits after it keep the selection, the gizmo
/// mode and the `active` flags of the active world.
proof fn lemma_pose_keeps_selection(
    state: WebState,
    pose_state: WebState,
    s5: SceneState,
    mid: SceneState,
    m: SceneState,
    after: SceneState,
)
    requires
        s5.wf(),
        position_step(s5, mid, state.pending_set_local_position),
        pose_chain(pose_state, mid, after, m),
    ensures
        after.wf(),
        after.selected_entity == s5.selected_entity,
        after.active().node_count() == s5.active().node_count(),
        after.active().dfs_order() == s5.active().dfs_order(),
        forall|x: int|
            0 <= x < s5.active().node_count() ==> (#[trigger] after.active().node_data()[x]).active
                == s5.active().node_data()[x].active,
{
    if let Some((id, pos)) = state.pending_set_local_position {
        lemma_transform_step_keeps(s5, mid, id, Transform { position: pos, ..local_transform(s5, id) });
    }
    if let Some((id, rot)) = pose_state.pending_set_local_rotation {
        lemma_transform_step_keeps(
            mid,
            m,
            id,
            Transform { rotation: rot, rotation_quat: None, ..local_transform(mid, id) },
        );
    }
    if let Some((id, sc)) = pose_state.pending_set_local_scale {
        lemma_transform_step_keeps(m, after, id, Transform { scale: sc, ..local_transform(m, id) });
    }
}

/// Law: an entity a script adds becomes the selection after the frame; its id is the storage
/// size of the active world before the frame.
pub proof fn lemma_added_entity_selected(
    state: WebState,
    pose_state: WebState,
    before: SceneState,
    mid: SceneState,
    after: SceneState,
)
    requires
        before.wf(),
        state.pending_add_entity is Some,
        pending_edits_effect(state, before, mid),
        pending_pose_effect(pose_state, mid, after),
    ensures
        after.selected_entity == Some(EntityId(before.active().node_count() as usize)),
        after.active().node_count() == before.active().node_count() + 1,
{
    let c = lemma_chain_of(state, before, mid);
    let m = lemma_pose_mid(pose_state, mid, after);
    lemma_steps_keep_wf(state, before, mid, c);
    lemma_pose_keeps_selection(state, pose_state, c[5], mid, m, after);
}

/// Law: an entity a script removes (in storage, not the root) is no longer listed after the
/// frame, and nothing is selected then, unless an addition was queued with the removal.
pub proof fn lemma_removed_entity_unlisted(
    state: WebState,
    pose_state: WebState,
    before: SceneState,
    mid: SceneState,
    after: SceneState,
    id: u32,
)
    requires
        before.wf(),
        before.active().contains(entity_of(id)),
        id != 0,
        state.pending_remove_entity == Some(id),
        state.pending_add_entity is None,
        pending_edits_effect(state, before, mid),
        pending_pose_effect(pose_state, mid, after),
    ensures
        after.selected_entity is None,
        !active_only(after.active().dfs_order(), after.active().node_data()).contains(entity_of(id)),
{
    let c = lemma_chain_of(state, before, mid);
    let m = lemma_pose_mid(pose_state, mid, after);
    lemma_steps_keep_wf(state, before, mid, c);
    before.active().lemma_wf_ranks();
    c[0].active().lemma_wf_ranks();
    c[1].active().lemma_wf_ranks();
    c[2].active().lemma_wf_ranks();
    c[3].active().lemma_wf_ranks();
    lemma_same_size(state, before, mid, c);
    assert(c[2].active().contains(entity_of(id)));
    let x = id as int;
    assert(c[3].active().node_data()[x].active == false);
    assert(c[5].active().node_data()[x].active == false);
    lemma_pose_keeps_selection(state, pose_state, c[5], mid, m, after);
    let w = after.active();
    w.lemma_wf_ranks();
    lemma_dfs_in_range(w.child_lists(), w.ranks(), 0);
    lemma_active_only(w.dfs_order(), w.node_data());
}

/// Up to the addition, the steps of a frame keep the storage size of the active world.
proof fn lemma_same_size(state: WebState, before: SceneState, after: SceneState, c: Seq<SceneState>)
    requires
        before.wf(),
        edits_chain(state, before, after, c),
    ensures
        c[0].active().node_count() == before.active().node_count(),
        c[1].active().node_count() == before.active().node_count(),
        c[2].active().node_count() == before.active().node_count(),
        c[3].active().node_count() == before.active().node_count(),
{
    lemma_steps_keep_wf(state, before, after, c);
    if let Some((id, name)) = state.pending_set_material {
        if c[0].active().contains(entity_of(id)) {
            c[1].active().lemma_same_graph(c[0].active());
        }
    }
    if let Some((id, name)) = state.pending_set_primitive {
        if let Some(prim) = primitive_for_name(name@) {
            if c[1].active().contains(entity_of(id)) {
                c[2].active().lemma_same_graph(c[1].active());
            }
        }
    }
    if let Some(id) = state.pending_remove_entity {
        if c[2].active().contains(entity_of(id)) && id != 0 {
            c[3].active().lemma_same_graph(c[2].active());
        }
    }
}

} // verus!
