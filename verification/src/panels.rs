//! Content of the scene and material panels: which buttons they hold, in order, with their
//! control ids, labels and the scene action each triggers. The renderer lays the buttons out.

use std::collections::HashMap;

use vstd::prelude::*;

use crate::demo::{
    apply_scene_action, auto_select_first_entity, first_with_primitive, lemma_listed_in_range,
    listed_entities, scene_action_effect, SceneAction, MATERIAL_WINDOW_ID,
};
use crate::scene::primitive::{primitive_label, spec_primitive_label};
use crate::scene::world::World;
use crate::scene::{EntityId, Primitive, Primitive2D, Primitive3D};
use crate::scene_state::SceneState;
use crate::strings::{push_decimal, spec_decimal};
use crate::ui::ControlId;
use crate::view_mode::{spec_view_mode_label, view_mode_label, ViewMode};

verus! {

broadcast use vstd::std_specs::hash::group_hash_axioms;

/// Control id of the first button of the material panel.
pub const MATERIAL_BUTTON_FIRST_ID: u32 = MATERIAL_WINDOW_ID + 1000;

/// A panel button: its control id, the control id of its label, the label text and the action a
/// click triggers.
pub struct PanelButton {
    /// Control id of the button.
    pub id: u32,
    /// Control id of the label drawn over the button.
    pub label_id: u32,
    /// Label text.
    pub label: String,
    /// Action triggered by a click.
    pub action: SceneAction,
}

/// A button as its label text and action.
pub open spec fn button_entry(b: PanelButton) -> (Seq<char>, SceneAction) {
    (b.label@, b.action)
}

/// The buttons are numbered from `first` in steps of two, each label taking the id after its
/// button.
pub open spec fn numbered(buttons: Seq<PanelButton>, first: u32) -> bool {
    forall|k: int|
        0 <= k < buttons.len() ==> (#[trigger] buttons[k]).id == first + 2 * k && buttons[k].label_id
            == first + 2 * k + 1
}

/// Label of the tree button of entity `e`: its primitive's name, or "Entity".
pub open spec fn entity_button_label(w: World, e: EntityId) -> Seq<char> {
    match w.node_data()[e.0 as int].primitive {
        Some(p) => spec_primitive_label(p),
        None => "Entity"@,
    }
}

/// The view modes offered by the scene panel, in order.
pub open spec fn panel_view_modes() -> Seq<ViewMode> {
    seq![ViewMode::Solid, ViewMode::Wireframe, ViewMode::VertexPoints, ViewMode::ColorMap]
}

/// The primitives offered by the scene panel, in order.
pub open spec fn panel_primitives() -> Seq<Primitive> {
    seq![
        Primitive::TwoD(Primitive2D::Quad),
        Primitive::TwoD(Primitive2D::Triangle),
        Primitive::TwoD(Primitive2D::Square),
        Primitive::TwoD(Primitive2D::Circle),
        Primitive::TwoD(Primitive2D::Ellipse),
        Primitive::ThreeD(Primitive3D::Quad),
        Primitive::ThreeD(Primitive3D::Triangle),
        Primitive::ThreeD(Primitive3D::Cube),
        Primitive::ThreeD(Primitive3D::Tetrahedron),
        Primitive::ThreeD(Primitive3D::Cylinder),
        Primitive::ThreeD(Primitive3D::Sphere),
        Primitive::ThreeD(Primitive3D::Cone),
        Primitive::ThreeD(Primitive3D::Capsule),
    ]
}

/// Label of the button of world `i` (counted from zero): "World 1", "World 2", ...
pub open spec fn world_button_label(i: nat) -> Seq<char> {
    "World "@ + spec_decimal(i + 1)
}

/// Tree buttons: one per listed entity of `w`, selecting it.
pub open spec fn entity_entries(w: World) -> Seq<(Seq<char>, SceneAction)> {
    listed_entities(w).map_values(
        |e: EntityId| (entity_button_label(w, e), SceneAction::SelectEntity(e)),
    )
}

/// View mode buttons.
pub open spec fn mode_entries() -> Seq<(Seq<char>, SceneAction)> {
    panel_view_modes().map_values(|m: ViewMode| (spec_view_mode_label(m), SceneAction::SetViewMode(m)))
}

/// Primitive buttons.
pub open spec fn primitive_entries() -> Seq<(Seq<char>, SceneAction)> {
    panel_primitives().map_values(|p: Primitive| (spec_primitive_label(p), SceneAction::SetPrimitive(p)))
}

/// World buttons: one per world when there is more than one.
pub open spec fn world_entries(nw: nat) -> Seq<(Seq<char>, SceneAction)> {
    if nw > 1 {
        Seq::new(nw, |i: int| (world_button_label(i as nat), SceneAction::SetActiveWorld(i as usize)))
    } else {
        Seq::empty()
    }
}

/// The buttons of the scene panel, in order: "Reset" (camera), one per listed entity of the
/// active world, "Remove", four view modes, thirteen primitives, and one per world when there
/// are several.
pub open spec fn scene_panel_entries(scene: SceneState) -> Seq<(Seq<char>, SceneAction)> {
    seq![("Reset"@, SceneAction::ResetCamera)] + entity_entries(scene.active()) + seq![
        ("Remove"@, SceneAction::RemoveSelected),
    ] + mode_entries() + primitive_entries() + world_entries(scene.worlds@.len())
}

/// Append a button numbered after the ones already there.
fn push_button(buttons: &mut Vec<PanelButton>, first: u32, label: String, action: SceneAction)
    requires
        first + 2 * old(buttons)@.len() + 1 <= u32::MAX,
        numbered(old(buttons)@, first),
    ensures
        numbered(final(buttons)@, first),
        final(buttons)@.len() == old(buttons)@.len() + 1,
        final(buttons)@.drop_last() == old(buttons)@,
        final(buttons)@.last().label == label,
        final(buttons)@.last().action == action,
        final(buttons)@.map_values(|b: PanelButton| button_entry(b)) == old(buttons)@.map_values(
            |b: PanelButton| button_entry(b),
        ).push((label@, action)),
{
    let n = buttons.len();
    let id = first + 2 * (n as u32);
    let ghost before = buttons@;
    buttons.push(PanelButton { id, label_id: id + 1, label, action });
    assert(buttons@.drop_last() =~= before);
    assert(buttons@.map_values(|b: PanelButton| button_entry(b)) =~= before.map_values(
        |b: PanelButton| button_entry(b),
    ).push((label@, action)));
}

/// The tree-button label of an entity of `w`.
fn entity_label(w: &World, e: EntityId) -> (s: String)
    requires
        w.contains(e),
    ensures
        s@ == entity_button_label(*w, e),
{
    let label = match w.get(e) {
        Some(n) => match n.primitive {
            Some(p) => primitive_label(&p),
            None => "Entity",
        },
        None => "Entity",
    };
    String::from_str(label)
}

/// Build the scene panel of `scene` (see `scene_panel_entries`), its buttons numbered from 1,
/// then select the first listed entity with a primitive when nothing is selected.
pub fn build_scene_panel(scene: &mut SceneState) -> (buttons: Vec<PanelButton>)
    requires
        old(scene).wf(),
        2 * (listed_entities(old(scene).active()).len() + old(scene).worlds@.len() + 19) <= u32::MAX,
    ensures
        numbered(buttons@, 1),
        buttons@.map_values(|b: PanelButton| button_entry(b)) == scene_panel_entries(*old(scene)),
        final(scene).wf(),
        final(scene).worlds == old(scene).worlds,
        final(scene).active_world == old(scene).active_world,
        final(scene).view_mode == old(scene).view_mode,
        final(scene).gizmo_mode == old(scene).gizmo_mode,
        final(scene).gizmo_hidden == old(scene).gizmo_hidden,
        final(scene).selected_entity == if old(scene).selected_entity is Some {
            old(scene).selected_entity
        } else {
            first_with_primitive(listed_entities(old(scene).active()), old(scene).active().node_data())
        },
{
    let ghost s0 = *scene;
    let ghost total = scene_panel_entries(s0);
    let mut buttons: Vec<PanelButton> = Vec::new();
    proof {
        reveal_strlit("Reset");
        reveal_strlit("Remove");
    }
    push_button(&mut buttons, 1, String::from_str("Reset"), SceneAction::ResetCamera);
    let w = scene.world();
    let ids = w.entities_dfs();
    proof {
        lemma_listed_in_range(*w);
    }
    let ghost head = seq![("Reset"@, SceneAction::ResetCamera)];
    let ghost ents = entity_entries(*w);
    let nl = ids.len();
    let mut k: usize = 0;
    while k < nl
        invariant
            nl == ids@.len(),
            ids@ == listed_entities(*w),
            w.wf(),
            forall|m: int| 0 <= m < ids@.len() ==> w.contains(#[trigger] listed_entities(*w)[m]),
            ents == entity_entries(*w),
            k <= nl,
            2 * (nl + s0.worlds@.len() + 19) <= u32::MAX,
            numbered(buttons@, 1),
            buttons@.len() == 1 + k,
            buttons@.map_values(|b: PanelButton| button_entry(b)) == head + ents.take(k as int),
        decreases nl - k,
    {
        let e = ids[k];
        assert(w.contains(listed_entities(*w)[k as int]));
        let label = entity_label(w, e);
        push_button(&mut buttons, 1, label, SceneAction::SelectEntity(e));
        k = k + 1;
        assert(head + ents.take(k as int) =~= (head + ents.take(k as int - 1)).push(ents[k as int - 1]));
    }
    assert(ents.take(nl as int) =~= ents);
    push_button(&mut buttons, 1, String::from_str("Remove"), SceneAction::RemoveSelected);
    let ghost head2 = head + ents + seq![("Remove"@, SceneAction::RemoveSelected)];
    assert(buttons@.map_values(|b: PanelButton| button_entry(b)) =~= head2);
    let modes: [ViewMode; 4] = [ViewMode::Solid, ViewMode::Wireframe, ViewMode::VertexPoints, ViewMode::ColorMap];
    assert(modes@ =~= panel_view_modes());
    let mut k: usize = 0;
    while k < 4
        invariant
            modes@ == panel_view_modes(),
            k <= 4,
            2 * (nl + s0.worlds@.len() + 19) <= u32::MAX,
            numbered(buttons@, 1),
            buttons@.len() == nl + 2 + k,
            buttons@.map_values(|b: PanelButton| button_entry(b)) == head2 + mode_entries().take(k as int),
        decreases 4 - k,
    {
        let m = modes[k];
        push_button(&mut buttons, 1, String::from_str(view_mode_label(m)), SceneAction::SetViewMode(m));
        k = k + 1;
        assert(head2 + mode_entries().take(k as int) =~= (head2 + mode_entries().take(k as int - 1)).push(
            mode_entries()[k as int - 1],
        ));
    }
    let ghost head3 = head2 + mode_entries();
    assert(mode_entries().take(4) =~= mode_entries());
    let prims: [Primitive; 13] = [
        Primitive::TwoD(Primitive2D::Quad),
        Primitive::TwoD(Primitive2D::Triangle),
        Primitive::TwoD(Primitive2D::Square),
        Primitive::TwoD(Primitive2D::Circle),
        Primitive::TwoD(Primitive2D::Ellipse),
        Primitive::ThreeD(Primitive3D::Quad),
        Primitive::ThreeD(Primitive3D::Triangle),
        Primitive::ThreeD(Primitive3D::Cube),
        Primitive::ThreeD(Primitive3D::Tetrahedron),
        Primitive::ThreeD(Primitive3D::Cylinder),
        Primitive::ThreeD(Primitive3D::Sphere),
        Primitive::ThreeD(Primitive3D::Cone),
        Primitive::ThreeD(Primitive3D::Capsule),
    ];
    assert(prims@ =~= panel_primitives());
    let mut k: usize = 0;
    while k < 13
        invariant
            prims@ == panel_primitives(),
            k <= 13,
            2 * (nl + s0.worlds@.len() + 19) <= u32::MAX,
            numbered(buttons@, 1),
            buttons@.len() == nl + 6 + k,
            buttons@.map_values(|b: PanelButton| button_entry(b)) == head3 + primitive_entries().take(k as int),
        decreases 13 - k,
    {
        let p = prims[k];
        push_button(&mut buttons, 1, String::from_str(primitive_label(&p)), SceneAction::SetPrimitive(p));
        k = k + 1;
        assert(head3 + primitive_entries().take(k as int) =~= (head3 + primitive_entries().take(k as int - 1)).push(
            primitive_entries()[k as int - 1],
        ));
    }
    let ghost head4 = head3 + primitive_entries();
    assert(primitive_entries().take(13) =~= primitive_entries());
    let nw = scene.worlds.len();
    if nw > 1 {
        let ghost wes = world_entries(nw as nat);
        let mut i: usize = 0;
        while i < nw
            invariant
                nw == s0.worlds@.len(),
                nw > 1,
                wes == world_entries(nw as nat),
                i <= nw,
                2 * (nl + nw + 19) <= u32::MAX,
                numbered(buttons@, 1),
                buttons@.len() == nl + 19 + i,
                buttons@.map_values(|b: PanelButton| button_entry(b)) == head4 + wes.take(i as int),
            decreases nw - i,
        {
            let mut label = String::from_str("World ");
            push_decimal(&mut label, i + 1);
            proof {
                reveal_strlit("World ");
            }
            push_button(&mut buttons, 1, label, SceneAction::SetActiveWorld(i));
            i = i + 1;
            assert(head4 + wes.take(i as int) =~= (head4 + wes.take(i as int - 1)).push(wes[i as int - 1]));
        }
        assert(wes.take(nw as int) =~= wes);
    } else {
        assert(world_entries(nw as nat) =~= Seq::<(Seq<char>, SceneAction)>::empty());
    }
    assert(buttons@.map_values(|b: PanelButton| button_entry(b)) =~= total);
    auto_select_first_entity(scene);
    buttons
}

/// A button labelled `name` that sets the material `name`.
pub open spec fn material_button(b: PanelButton, name: Seq<char>) -> bool {
    &&& b.label@ == name
    &&& (b.action matches SceneAction::SetMaterial(Some(m)) && m@ == name)
}

/// Build the material panel: "None (vertex color)" clearing the material, then one button per
/// material name, in the given order, setting that material. The buttons are numbered from
/// `MATERIAL_BUTTON_FIRST_ID`.
pub fn build_material_panel(names: &Vec<String>) -> (buttons: Vec<PanelButton>)
    requires
        MATERIAL_BUTTON_FIRST_ID + 2 * names@.len() + 1 <= u32::MAX,
    ensures
        numbered(buttons@, MATERIAL_BUTTON_FIRST_ID),
        buttons@.len() == names@.len() + 1,
        buttons@[0].label@ == "None (vertex color)"@,
        buttons@[0].action == SceneAction::SetMaterial(None),
        forall|k: int|
            0 <= k < names@.len() ==> material_button(#[trigger] buttons@[k + 1], names@[k]@),
{
    let mut buttons: Vec<PanelButton> = Vec::new();
    push_button(
        &mut buttons,
        MATERIAL_BUTTON_FIRST_ID,
        String::from_str("None (vertex color)"),
        SceneAction::SetMaterial(None),
    );
    let mut k: usize = 0;
    while k < names.len()
        invariant
            MATERIAL_BUTTON_FIRST_ID + 2 * names@.len() + 1 <= u32::MAX,
            k <= names@.len(),
            numbered(buttons@, MATERIAL_BUTTON_FIRST_ID),
            buttons@.len() == k + 1,
            buttons@[0].label@ == "None (vertex color)"@,
            buttons@[0].action == SceneAction::SetMaterial(None),
            forall|j: int|
                0 <= j < k ==> material_button(#[trigger] buttons@[j + 1], names@[j]@),
        decreases names@.len() - k,
    {
        let ghost before = buttons@;
        let name = &names[k];
        push_button(&mut buttons, MATERIAL_BUTTON_FIRST_ID, name.clone(), SceneAction::SetMaterial(Some(name.clone())));
        proof {
            assert forall|j: int| 0 <= j < k + 1 implies material_button(#[trigger] buttons@[j + 1], names@[j]@) by {
                if j < k {
                    assert(buttons@[j + 1] == before[j + 1]);
                }
            }
        }
        k = k + 1;
    }
    buttons
}

/// Two actions agree, material names compared by their text.
pub open spec fn same_action(a: SceneAction, b: SceneAction) -> bool {
    match (a, b) {
        (SceneAction::SetMaterial(x), SceneAction::SetMaterial(y)) => {
            &&& (x is Some <==> y is Some)
            &&& x is Some ==> x->0@ == y->0@
        },
        _ => a == b,
    }
}

/// A copy of an action.
pub fn duplicate_action(a: &SceneAction) -> (r: SceneAction)
    ensures
        same_action(r, *a),
{
    match a {
        SceneAction::SelectEntity(e) => SceneAction::SelectEntity(*e),
        SceneAction::SetPrimitive(p) => SceneAction::SetPrimitive(*p),
        SceneAction::SetActiveWorld(i) => SceneAction::SetActiveWorld(*i),
        SceneAction::SetViewMode(m) => SceneAction::SetViewMode(*m),
        SceneAction::RemoveSelected => SceneAction::RemoveSelected,
        SceneAction::SetMaterial(m) => SceneAction::SetMaterial(
            match m {
                Some(s) => Some(s.clone()),
                None => None,
            },
        ),
        SceneAction::ResetCamera => SceneAction::ResetCamera,
    }
}

/// Enter the buttons' actions into `mapping`, keyed by button control id (a later button wins
/// over an earlier one with the same id); other entries are kept.
pub fn add_to_mapping(mapping: &mut HashMap<u32, SceneAction>, buttons: &Vec<PanelButton>)
    ensures
        forall|id: u32|
            #[trigger] final(mapping)@.contains_key(id) <==> old(mapping)@.contains_key(id) || exists|k: int|
                0 <= k < buttons@.len() && buttons@[k].id == id,
        forall|id: u32|
            old(mapping)@.contains_key(id) && (forall|k: int| 0 <= k < buttons@.len() ==> buttons@[k].id != id)
                ==> #[trigger] final(mapping)@[id] == old(mapping)@[id],
        forall|k: int|
            0 <= k < buttons@.len() && (forall|j: int| k < j < buttons@.len() ==> buttons@[j].id != buttons@[k].id)
                ==> same_action(#[trigger] final(mapping)@[buttons@[k].id], buttons@[k].action),
{
    let ghost m0 = mapping@;
    let mut k: usize = 0;
    while k < buttons.len()
        invariant
            k <= buttons@.len(),
            forall|id: u32|
                #[trigger] mapping@.contains_key(id) <==> m0.contains_key(id) || exists|j: int|
                    0 <= j < k && buttons@[j].id == id,
            forall|id: u32|
                m0.contains_key(id) && (forall|j: int| 0 <= j < k ==> buttons@[j].id != id) ==> #[trigger] mapping@[id]
                    == m0[id],
            forall|j: int|
                0 <= j < k && (forall|i: int| j < i < k ==> buttons@[i].id != buttons@[j].id) ==> same_action(
                    #[trigger] mapping@[buttons@[j].id],
                    buttons@[j].action,
                ),
        decreases buttons@.len() - k,
    {
        let b = &buttons[k];
        let a = duplicate_action(&b.action);
        mapping.insert(b.id, a);
        proof {
            assert forall|id: u32| #[trigger] mapping@.contains_key(id) <==> m0.contains_key(id) || exists|j: int|
                0 <= j < k + 1 && buttons@[j].id == id by {
                if id == b.id {
                    assert(buttons@[k as int].id == id);
                }
            }
        }
        k = k + 1;
    }
}

/// Handle a click on a panel control: apply the mapped action (see `apply_scene_action`).
/// Returns whether the camera should be reset, and whether the scene panel has to be rebuilt
/// because the click removed the selected entity.
pub fn scene_panel_click(
    scene: &mut SceneState,
    mapping: &HashMap<u32, SceneAction>,
    cid: ControlId,
) -> (r: (bool, bool))
    requires
        old(scene).wf(),
    ensures
        final(scene).wf(),
        r.0 == (mapping@.contains_key(cid.0) && mapping@[cid.0] is ResetCamera),
        r.1 == (mapping@.contains_key(cid.0) && mapping@[cid.0] is RemoveSelected),
        !mapping@.contains_key(cid.0) ==> *final(scene) == *old(scene),
        mapping@.contains_key(cid.0) ==> scene_action_effect(*old(scene), *final(scene), mapping@[cid.0]),
{
    let was_remove = match mapping.get(&cid.0) {
        Some(a) => matches!(a, SceneAction::RemoveSelected),
        None => false,
    };
    let reset = apply_scene_action(scene, mapping, cid);
    (reset, was_remove)
}

/// Law: the buttons of a numbered panel have distinct control ids, and no label shares an id
/// with a button; so a mapping filled from the panel finds every button's action under its id.
pub proof fn lemma_numbered_ids_distinct(buttons: Seq<PanelButton>, first: u32)
    requires
        numbered(buttons, first),
    ensures
        forall|j: int, k: int| 0 <= j < k < buttons.len() ==> buttons[j].id != buttons[k].id,
        forall|j: int, k: int|
            0 <= j < buttons.len() && 0 <= k < buttons.len() ==> buttons[j].id != buttons[k].label_id,
{
    assert forall|j: int, k: int| 0 <= j < k < buttons.len() implies buttons[j].id != buttons[k].id by {
        assert(buttons[j].id == first + 2 * j);
        assert(buttons[k].id == first + 2 * k);
    }
    assert forall|j: int, k: int|
        0 <= j < buttons.len() && 0 <= k < buttons.len() implies buttons[j].id != buttons[k].label_id by {
        assert(buttons[j].id == first + 2 * j);
        assert(buttons[k].label_id == first + 2 * k + 1);
    }
}

} // verus!
