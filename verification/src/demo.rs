//! Demo scene logic: primitive-name parsing, the entity tree dump, the scene actions that UI
//! buttons trigger, and the selection helpers shared by the native and web front ends.

use std::collections::HashMap;

use vstd::prelude::*;

use crate::scene::node_data::NodeData;
use crate::scene::primitive::{spec_primitive_label, primitive_label};
use crate::scene::world::{active_only, heights_ok, lemma_active_only, lemma_dfs_in_range};
use crate::scene::{CurvePoint, EntityId, Primitive, Primitive2D, Primitive3D, World};
use crate::scene_state::SceneState;
use crate::strings::{
    is_ascii_upper, push_decimal, spec_decimal, spec_to_lowercase, spec_trim, str_eq, to_lowercase, trim,
};
use crate::ui::ControlId;
use crate::view_mode::ViewMode;

verus! {

broadcast use vstd::std_specs::hash::group_hash_axioms;

/// Control id number reserved for the stats overlay window (`ControlId(STATS_WINDOW_ID)`).
pub const STATS_WINDOW_ID: u32 = 0xFF00_0000;

/// Control id number reserved for the material window (`ControlId(MATERIAL_WINDOW_ID)`).
pub const MATERIAL_WINDOW_ID: u32 = 0xFF00_0001;

/// Control id number reserved for the Scene window (entity tree, Remove, primitives).
pub const SCENE_WINDOW_ID: u32 = 0;

/// Bit pattern of `0.33_f32`.
pub const F32_0_33_BITS: u32 = 0x3EA8_F5C3;

/// Bit pattern of `0.5_f32`.
pub const F32_0_5_BITS: u32 = 0x3F00_0000;

/// Bit pattern of `0.66_f32`.
pub const F32_0_66_BITS: u32 = 0x3F28_F5C3;

/// Bit pattern of `1.0_f32`.
pub const F32_1_BITS: u32 = 0x3F80_0000;

/// Bit pattern of `-1.0_f32`.
pub const F32_MINUS_1_BITS: u32 = 0xBF80_0000;

/// The point `(x, y, z)` given as `f32` bit patterns.
pub open spec fn pt(x: u32, y: u32, z: u32) -> CurvePoint {
    CurvePoint([x, y, z])
}

/// The default primitive for a lower-case, trimmed primitive name.
pub open spec fn spec_primitive_for_key(key: Seq<char>) -> Option<Primitive> {
    if key == "cube"@ {
        Some(Primitive::ThreeD(Primitive3D::Cube))
    } else if key == "tetrahedron"@ {
        Some(Primitive::ThreeD(Primitive3D::Tetrahedron))
    } else if key == "cylinder"@ {
        Some(Primitive::ThreeD(Primitive3D::Cylinder))
    } else if key == "sphere"@ {
        Some(Primitive::ThreeD(Primitive3D::Sphere))
    } else if key == "cone"@ {
        Some(Primitive::ThreeD(Primitive3D::Cone))
    } else if key == "capsule"@ {
        Some(Primitive::ThreeD(Primitive3D::Capsule))
    } else if key == "line"@ || key == "linesegment"@ {
        Some(
            Primitive::ThreeD(
                Primitive3D::LineSegment { start: pt(0, 0, 0), end: pt(F32_1_BITS, 0, 0) },
            ),
        )
    } else if key == "bezier"@ {
        Some(
            Primitive::ThreeD(
                Primitive3D::Bezier {
                    control_points: [
                        pt(0, 0, 0),
                        pt(F32_0_33_BITS, F32_0_5_BITS, 0),
                        pt(F32_0_66_BITS, F32_0_5_BITS, 0),
                        pt(F32_1_BITS, 0, 0),
                    ],
                },
            ),
        )
    } else if key == "hermite"@ {
        Some(
            Primitive::ThreeD(
                Primitive3D::Hermite {
                    p0: pt(0, 0, 0),
                    p1: pt(F32_1_BITS, 0, 0),
                    m0: pt(0, F32_1_BITS, 0),
                    m1: pt(0, F32_MINUS_1_BITS, 0),
                },
            ),
        )
    } else if key == "bspline"@ || key == "b-spline"@ {
        Some(
            Primitive::ThreeD(
                Primitive3D::BSpline {
                    control_points: [
                        pt(0, 0, 0),
                        pt(F32_0_33_BITS, 0, 0),
                        pt(F32_0_66_BITS, 0, 0),
                        pt(F32_1_BITS, 0, 0),
                    ],
                },
            ),
        )
    } else if key == "quad"@ {
        Some(Primitive::ThreeD(Primitive3D::Quad))
    } else if key == "triangle"@ {
        Some(Primitive::ThreeD(Primitive3D::Triangle))
    } else {
        None
    }
}

/// `s` with ASCII upper-case letters mapped to lower case; other characters are kept.
pub open spec fn ascii_lower(s: Seq<char>) -> Seq<char> {
    Seq::new(s.len(), |i: int| if is_ascii_upper(s[i]) { ((s[i] as u32) + 32) as char } else { s[i] })
}

/// The characters of `s` before its first space (all of `s` when it has none).
pub open spec fn first_word(s: Seq<char>) -> Seq<char>
    decreases s.len(),
{
    if s.len() == 0 {
        s
    } else if s[0] == ' ' {
        Seq::<char>::empty()
    } else {
        seq![s[0]] + first_word(s.drop_first())
    }
}

/// The name of a primitive for scripts: the first word of its label, lower-cased ("Cube" gives
/// "cube", "Quad 3D" gives "quad", "BSpline" gives "bspline").
pub open spec fn shape_key(p: Primitive) -> Seq<char> {
    first_word(ascii_lower(spec_primitive_label(p)))
}

/// Law: every 3D shape is found under its name, and a name finds a shape only when it is that
/// shape's name (or one of the aliases "linesegment" and "b-spline"). Shapes without
/// parameters are found as themselves; curves are found with their default points, under the
/// same label.
pub proof fn lemma_shape_names(p: Primitive3D, key: Seq<char>)
    ensures
        spec_primitive_for_key(shape_key(Primitive::ThreeD(p))) matches Some(q) && spec_primitive_label(q)
            == spec_primitive_label(Primitive::ThreeD(p)),
        !(p is LineSegment || p is Bezier || p is Hermite || p is BSpline) ==> spec_primitive_for_key(
            shape_key(Primitive::ThreeD(p)),
        ) == Some(Primitive::ThreeD(p)),
        spec_primitive_for_key(key) matches Some(q) ==> key == shape_key(q) || key == "linesegment"@ || key
            == "b-spline"@,
{
    reveal_with_fuel(first_word, 13);
    reveal_strlit("Quad 3D");
    reveal_strlit("Triangle 3D");
    reveal_strlit("Cube");
    reveal_strlit("Tetrahedron");
    reveal_strlit("Cylinder");
    reveal_strlit("Sphere");
    reveal_strlit("Cone");
    reveal_strlit("Capsule");
    reveal_strlit("Line");
    reveal_strlit("Bezier");
    reveal_strlit("Hermite");
    reveal_strlit("BSpline");
    reveal_strlit("quad");
    reveal_strlit("triangle");
    reveal_strlit("cube");
    reveal_strlit("tetrahedron");
    reveal_strlit("cylinder");
    reveal_strlit("sphere");
    reveal_strlit("cone");
    reveal_strlit("capsule");
    reveal_strlit("line");
    reveal_strlit("linesegment");
    reveal_strlit("bezier");
    reveal_strlit("hermite");
    reveal_strlit("bspline");
    reveal_strlit("b-spline");
    assert(shape_key(Primitive::ThreeD(Primitive3D::Quad)) =~= "quad"@);
    assert(shape_key(Primitive::ThreeD(Primitive3D::Triangle)) =~= "triangle"@);
    assert(shape_key(Primitive::ThreeD(Primitive3D::Cube)) =~= "cube"@);
    assert(shape_key(Primitive::ThreeD(Primitive3D::Tetrahedron)) =~= "tetrahedron"@);
    assert(shape_key(Primitive::ThreeD(Primitive3D::Cylinder)) =~= "cylinder"@);
    assert(shape_key(Primitive::ThreeD(Primitive3D::Sphere)) =~= "sphere"@);
    assert(shape_key(Primitive::ThreeD(Primitive3D::Cone)) =~= "cone"@);
    assert(shape_key(Primitive::ThreeD(Primitive3D::Capsule)) =~= "capsule"@);
    assert(forall|a: CurvePoint, b: CurvePoint| shape_key(Primitive::ThreeD(Primitive3D::LineSegment { start: a, end: b }))
        =~= "line"@);
    assert(forall|c: [CurvePoint; 4]| shape_key(Primitive::ThreeD(Primitive3D::Bezier { control_points: c }))
        =~= "bezier"@);
    assert(forall|a: CurvePoint, b: CurvePoint, c: CurvePoint, d: CurvePoint|
        shape_key(Primitive::ThreeD(Primitive3D::Hermite { p0: a, p1: b, m0: c, m1: d })) =~= "hermite"@);
    assert(forall|c: [CurvePoint; 4]| shape_key(Primitive::ThreeD(Primitive3D::BSpline { control_points: c }))
        =~= "bspline"@);
    assert("cone"@[1] != "cube"@[1]);
    assert("quad"@[0] != "cube"@[0] && "quad"@[0] != "cone"@[0] && "quad"@[0] != "line"@[0]);
    assert("line"@[0] != "cube"@[0] && "line"@[0] != "cone"@[0]);
    assert("sphere"@[0] != "bezier"@[0]);
    assert("hermite"@[0] != "capsule"@[0] && "bspline"@[0] != "capsule"@[0] && "bspline"@[0] != "hermite"@[0]);
    assert("cylinder"@[0] != "triangle"@[0]);
    match p {
        Primitive3D::Quad => {},
        Primitive3D::Triangle => {},
        Primitive3D::Cube => {},
        Primitive3D::Tetrahedron => {},
        Primitive3D::Cylinder => {},
        Primitive3D::Sphere => {},
        Primitive3D::Cone => {},
        Primitive3D::Capsule => {},
        Primitive3D::LineSegment { .. } => {},
        Primitive3D::Bezier { .. } => {},
        Primitive3D::Hermite { .. } => {},
        Primitive3D::BSpline { .. } => {},
    }
}

/// The default primitive for an already trimmed, lower-case primitive name such as "cube",
/// "sphere", "line" or "bezier"; `None` for an unknown name.
pub fn primitive_from_key(key: &str) -> (r: Option<Primitive>)
    ensures
        r == spec_primitive_for_key(key@),
{
    if str_eq(key, "cube") {
        Some(Primitive::ThreeD(Primitive3D::Cube))
    } else if str_eq(key, "tetrahedron") {
        Some(Primitive::ThreeD(Primitive3D::Tetrahedron))
    } else if str_eq(key, "cylinder") {
        Some(Primitive::ThreeD(Primitive3D::Cylinder))
    } else if str_eq(key, "sphere") {
        Some(Primitive::ThreeD(Primitive3D::Sphere))
    } else if str_eq(key, "cone") {
        Some(Primitive::ThreeD(Primitive3D::Cone))
    } else if str_eq(key, "capsule") {
        Some(Primitive::ThreeD(Primitive3D::Capsule))
    } else if str_eq(key, "line") || str_eq(key, "linesegment") {
        Some(
            Primitive::ThreeD(
                Primitive3D::LineSegment {
                    start: CurvePoint([0, 0, 0]),
                    end: CurvePoint([F32_1_BITS, 0, 0]),
                },
            ),
        )
    } else if str_eq(key, "bezier") {
        Some(
            Primitive::ThreeD(
                Primitive3D::Bezier {
                    control_points: [
                        CurvePoint([0, 0, 0]),
                        CurvePoint([F32_0_33_BITS, F32_0_5_BITS, 0]),
                        CurvePoint([F32_0_66_BITS, F32_0_5_BITS, 0]),
                        CurvePoint([F32_1_BITS, 0, 0]),
                    ],
                },
            ),
        )
    } else if str_eq(key, "hermite") {
        Some(
            Primitive::ThreeD(
                Primitive3D::Hermite {
                    p0: CurvePoint([0, 0, 0]),
                    p1: CurvePoint([F32_1_BITS, 0, 0]),
                    m0: CurvePoint([0, F32_1_BITS, 0]),
                    m1: CurvePoint([0, F32_MINUS_1_BITS, 0]),
                },
            ),
        )
    } else if str_eq(key, "bspline") || str_eq(key, "b-spline") {
        Some(
            Primitive::ThreeD(
                Primitive3D::BSpline {
                    control_points: [
                        CurvePoint([0, 0, 0]),
                        CurvePoint([F32_0_33_BITS, 0, 0]),
                        CurvePoint([F32_0_66_BITS, 0, 0]),
                        CurvePoint([F32_1_BITS, 0, 0]),
                    ],
                },
            ),
        )
    } else if str_eq(key, "quad") {
        Some(Primitive::ThreeD(Primitive3D::Quad))
    } else if str_eq(key, "triangle") {
        Some(Primitive::ThreeD(Primitive3D::Triangle))
    } else {
        None
    }
}

/// Parse a primitive name (e.g. "cube", " Sphere ") to a default `Primitive`: the name is trimmed
/// and lower-cased, then looked up with `primitive_from_key`.
pub fn parse_primitive_name(name: &str) -> (r: Option<Primitive>)
    ensures
        r == spec_primitive_for_key(spec_to_lowercase(spec_trim(name@))),
        r matches Some(p) ==> p is ThreeD,
{
    let t = trim(name);
    let lower = to_lowercase(t);
    primitive_from_key(lower.as_str())
}

/// Action triggered by a scene UI button click.
#[derive(Clone, Debug, PartialEq)]
pub enum SceneAction {
    /// Select this entity (for primitive selector).
    SelectEntity(EntityId),
    /// Set the selected entity's primitive.
    SetPrimitive(Primitive),
    /// Switch active world by index.
    SetActiveWorld(usize),
    /// Set view mode (solid, wireframe, vertex points, color map).
    SetViewMode(ViewMode),
    /// Remove the selected entity from the scene (one at a time).
    RemoveSelected,
    /// Set the selected entity's material. `None` = vertex color mode.
    SetMaterial(Option<String>),
    /// Reset camera orbit to default (yaw 0, pitch 0, distance 2.5).
    ResetCamera,
}

/// A copy of an optional string.
fn clone_opt_string(s: &Option<String>) -> (r: Option<String>)
    ensures
        r is Some <==> s is Some,
        r matches Some(t) ==> t@ == s->0@,
{
    match s {
        Some(t) => Some(t.clone()),
        None => None,
    }
}

/// Apply a scene action from a clicked control. `mapping` maps button control ids (as numbers)
/// to actions; a click on an unmapped control does nothing. Returns whether the camera should be
/// reset to its default orbit (the camera itself lives with the renderer).
pub fn apply_scene_action(
    scene: &mut SceneState,
    mapping: &HashMap<u32, SceneAction>,
    cid: ControlId,
) -> (reset_camera: bool)
    requires
        old(scene).wf(),
    ensures
        final(scene).wf(),
        final(scene).worlds@.len() == old(scene).worlds@.len(),
        final(scene).gizmo_mode == old(scene).gizmo_mode,
        final(scene).gizmo_hidden == old(scene).gizmo_hidden,
        reset_camera == (mapping@.contains_key(cid.0) && mapping@[cid.0] is ResetCamera),
        !mapping@.contains_key(cid.0) ==> *final(scene) == *old(scene),
        mapping@.contains_key(cid.0) ==> scene_action_effect(*old(scene), *final(scene), mapping@[cid.0]),
{
    let action = match mapping.get(&cid.0) {
        Some(a) => a,
        None => {
            return false;
        },
    };
    let ghost before = *scene;
    assert(mapping@.contains_key(cid.0) && *action == mapping@[cid.0]);
    match action {
        SceneAction::SelectEntity(id) => {
            let w = &scene.worlds[scene.active_world];
            assert(*w == before.active());
            let active = match w.get(*id) {
                Some(n) => n.active,
                None => false,
            };
            assert(active == (before.active().contains(*id) && before.active().node_data()[id.0 as int].active));
            let sel = if active {
                Some(*id)
            } else {
                scene.selected_entity
            };
            scene.selected_entity = sel;
            false
        },
        SceneAction::SetPrimitive(prim) => {
            if let Some(id) = scene.selected_entity {
                let ai = scene.active_world;
                scene.worlds[ai].set_primitive(id, *prim);
                proof {
                    lemma_scene_world_update(before, *scene);
                }
            }
            false
        },
        SceneAction::SetActiveWorld(i) => {
            scene.set_active_world(*i);
            false
        },
        SceneAction::SetViewMode(mode) => {
            scene.view_mode = *mode;
            false
        },
        SceneAction::RemoveSelected => {
            if let Some(id) = scene.selected_entity {
                let ai = scene.active_world;
                scene.worlds[ai].despawn(id);
                scene.selected_entity = None;
                proof {
                    lemma_scene_world_update(before, *scene);
                }
            }
            false
        },
        SceneAction::SetMaterial(mat) => {
            if let Some(id) = scene.selected_entity {
                let ai = scene.active_world;
                let m = clone_opt_string(mat);
                let ghost mg = m;
                assert(scene.worlds@[ai as int] == before.active());
                scene.worlds[ai].set_material(id, m);
                assert(scene.active().node_data() == before.active().data_updated(
                    id,
                    NodeData { material: mg, ..before.active().node_data()[id.0 as int] },
                ));
                proof {
                    lemma_scene_world_update(before, *scene);
                    let w0 = before.active();
                    let w1 = scene.active();
                    w0.lemma_wf_ranks();
                    if w0.contains(id) {
                        assert(w1.node_data()[id.0 as int] == NodeData {
                            material: mg,
                            ..w0.node_data()[id.0 as int]
                        });
                    }
                    assert(forall|j: int|
                        0 <= j < w0.node_count() && j != id.0 ==> #[trigger] w1.node_data()[j]
                            == w0.node_data()[j]);
                }
            }
            false
        },
        SceneAction::ResetCamera => true,
    }
}

/// Replacing the active world by one with the same graph keeps a scene well-formed.
proof fn lemma_scene_world_update(before: SceneState, after: SceneState)
    requires
        before.wf(),
        after.active_world == before.active_world,
        after.worlds@.len() == before.worlds@.len(),
        forall|i: int|
            0 <= i < before.worlds@.len() && i != before.active_world ==> #[trigger] after.worlds@[i]
                == before.worlds@[i],
        after.active().same_graph(before.active()),
    ensures
        after.wf(),
{
    after.active().lemma_same_graph(before.active());
    assert forall|i: int| 0 <= i < after.worlds@.len() implies (#[trigger] after.worlds@[i]).wf() by {
        if i != before.active_world {
            assert(after.worlds@[i] == before.worlds@[i]);
        }
    }
}

/// The effect of `apply_scene_action` for a mapped action: how `after` relates to `before`.
pub open spec fn scene_action_effect(before: SceneState, after: SceneState, action: SceneAction) -> bool {
    let others_same = forall|i: int|
        0 <= i < before.worlds@.len() && i != before.active_world ==> #[trigger] after.worlds@[i]
            == before.worlds@[i];
    match action {
        SceneAction::SelectEntity(id) => {
            &&& after.worlds == before.worlds
            &&& after.active_world == before.active_world
            &&& after.view_mode == before.view_mode
            &&& after.selected_entity == if before.active().contains(id) && before.active().node_data()[id.0 as int].active {
                Some(id)
            } else {
                before.selected_entity
            }
        },
        SceneAction::SetPrimitive(prim) => {
            &&& after.active_world == before.active_world
            &&& after.view_mode == before.view_mode
            &&& after.selected_entity == before.selected_entity
            &&& match before.selected_entity {
                None => after.worlds == before.worlds,
                Some(id) => {
                    &&& others_same
                    &&& after.active().same_graph(before.active())
                    &&& after.active().node_data() == before.active().data_updated(
                        id,
                        NodeData { primitive: Some(prim), ..before.active().node_data()[id.0 as int] },
                    )
                },
            }
        },
        SceneAction::SetActiveWorld(i) => {
            &&& after.worlds == before.worlds
            &&& after.view_mode == before.view_mode
            &&& after.selected_entity == before.selected_entity
            &&& after.active_world == if i < before.worlds@.len() {
                i
            } else {
                before.active_world
            }
        },
        SceneAction::SetViewMode(mode) => {
            &&& after.worlds == before.worlds
            &&& after.active_world == before.active_world
            &&& after.selected_entity == before.selected_entity
            &&& after.view_mode == mode
        },
        SceneAction::RemoveSelected => {
            &&& after.active_world == before.active_world
            &&& after.view_mode == before.view_mode
            &&& match before.selected_entity {
                None => after.worlds == before.worlds && after.selected_entity is None,
                Some(id) => {
                    &&& after.selected_entity is None
                    &&& others_same
                    &&& after.active().same_graph(before.active())
                    &&& after.active().node_data() == if id.0 == 0 {
                        before.active().node_data()
                    } else {
                        before.active().data_updated(
                            id,
                            NodeData { active: false, ..before.active().node_data()[id.0 as int] },
                        )
                    }
                    &&& id.0 != 0 && before.active().contains(id) ==> !active_only(
                        after.active().dfs_order(),
                        after.active().node_data(),
                    ).contains(id)
                },
            }
        },
        SceneAction::SetMaterial(mat) => {
            &&& after.active_world == before.active_world
            &&& after.view_mode == before.view_mode
            &&& after.selected_entity == before.selected_entity
            &&& match before.selected_entity {
                None => after.worlds == before.worlds,
                Some(id) => {
                    &&& others_same
                    &&& after.active().same_graph(before.active())
                    &&& before.active().contains(id) ==> {
                        let d = after.active().node_data()[id.0 as int];
                        &&& d.material is Some <==> mat is Some
                        &&& mat is Some ==> d.material->0@ == mat->0@
                        &&& d.transform == before.active().node_data()[id.0 as int].transform
                        &&& d.primitive == before.active().node_data()[id.0 as int].primitive
                        &&& d.color == before.active().node_data()[id.0 as int].color
                        &&& d.active == before.active().node_data()[id.0 as int].active
                    }
                    &&& forall|j: int|
                        0 <= j < before.active().node_count() && j != id.0 ==> #[trigger] after.active().node_data()[j]
                            == before.active().node_data()[j]
                },
            }
        },
        SceneAction::ResetCamera => after == before,
    }
}

/// `depth` levels of two-space indentation.
pub open spec fn indent(depth: nat) -> Seq<char>
    decreases depth,
{
    if depth == 0 {
        Seq::<char>::empty()
    } else {
        indent((depth - 1) as nat) + "  "@
    }
}

/// The tree-panel line of one entity: indentation, id, ": ", primitive label (or "Entity") and
/// the material in brackets when there is one, then a newline.
pub open spec fn tree_line(id: usize, depth: nat, d: NodeData) -> Seq<char> {
    let label = match d.primitive {
        Some(p) => spec_primitive_label(p),
        None => "Entity"@,
    };
    let mat = match d.material {
        Some(m) => " ["@ + m@ + "]"@,
        None => Seq::<char>::empty(),
    };
    indent(depth) + spec_decimal(id as nat) + ": "@ + label + mat + "\n"@
}

/// The next indentation depth (saturating at `usize::MAX`).
pub open spec fn next_depth(depth: usize) -> usize {
    if depth < usize::MAX {
        (depth + 1) as usize
    } else {
        depth
    }
}

/// Lines of the subtree at `a`, drawn at `depth`: nothing when `a` is inactive (its descendants
/// are skipped too), otherwise its line followed by the lines of its children one level deeper.
pub open spec fn tree_text(ch: Seq<Seq<usize>>, hs: Seq<nat>, data: Seq<NodeData>, a: int, depth: usize) -> Seq<char>
    decreases hs[a], ch[a].len() + 1,
    when heights_ok(ch, hs) && 0 <= a < ch.len()
{
    if !data[a].active {
        Seq::<char>::empty()
    } else {
        tree_line(a as usize, depth as nat, data[a]) + children_text(
            ch,
            hs,
            data,
            a,
            ch[a].len() as int,
            next_depth(depth),
        )
    }
}

/// Lines of the subtrees of the first `k` children of `a`, drawn at `depth`.
pub open spec fn children_text(
    ch: Seq<Seq<usize>>,
    hs: Seq<nat>,
    data: Seq<NodeData>,
    a: int,
    k: int,
    depth: usize,
) -> Seq<char>
    decreases hs[a], k,
    when heights_ok(ch, hs) && 0 <= a < ch.len() && k <= ch[a].len()
{
    if k <= 0 {
        Seq::<char>::empty()
    } else {
        children_text(ch, hs, data, a, k - 1, depth) + tree_text(ch, hs, data, ch[a][k - 1] as int, depth)
    }
}

/// The entity tree of a world as the tree panel shows it.
pub open spec fn spec_primitive_tree(world: World) -> Seq<char> {
    tree_text(world.child_lists(), world.ranks(), world.node_data(), 0, 0)
}

/// Append the line of entity `id` at `depth`.
fn push_tree_line(out: &mut String, id: usize, depth: usize, d: &NodeData)
    ensures
        final(out)@ == old(out)@ + tree_line(id, depth as nat, *d),
{
    let ghost start = out@;
    let mut k: usize = 0;
    while k < depth
        invariant
            k <= depth,
            out@ == start + indent(k as nat),
        decreases depth - k,
    {
        out.append("  ");
        k = k + 1;
    }
    push_decimal(out, id);
    out.append(": ");
    match &d.primitive {
        Some(p) => out.append(primitive_label(p)),
        None => out.append("Entity"),
    }
    match &d.material {
        Some(m) => {
            out.append(" [");
            out.append(m.as_str());
            out.append("]");
        },
        None => {},
    }
    out.append("\n");
    proof {
        let dd = *d;
        let label = match dd.primitive {
            Some(p) => spec_primitive_label(p),
            None => "Entity"@,
        };
        let mat = match dd.material {
            Some(m) => " ["@ + m@ + "]"@,
            None => Seq::<char>::empty(),
        };
        assert(out@ =~= start + (indent(depth as nat) + spec_decimal(id as nat) + ": "@ + label + mat
            + "\n"@));
    }
}

/// Append the tree text of the subtree at `a`.
fn visit_tree(world: &World, a: usize, depth: usize, out: &mut String)
    requires
        world.wf(),
        a < world.node_count(),
    ensures
        final(out)@ == old(out)@ + tree_text(
            world.child_lists(),
            world.ranks(),
            world.node_data(),
            a as int,
            depth,
        ),
    decreases world.ranks()[a as int],
{
    proof {
        world.lemma_wf_ranks();
    }
    let ghost ch = world.child_lists();
    let ghost hs = world.ranks();
    let ghost data = world.node_data();
    let ghost start = out@;
    let node = match world.get(EntityId(a)) {
        Some(n) => n,
        None => {
            return;
        },
    };
    if !node.active {
        return;
    }
    push_tree_line(out, a, depth, node);
    let ghost after_line = out@;
    let next = depth.saturating_add(1);
    let children = world.children(EntityId(a));
    let mut i: usize = 0;
    while i < children.len()
        invariant
            world.wf(),
            ch == world.child_lists(),
            hs == world.ranks(),
            data == world.node_data(),
            heights_ok(ch, hs),
            a < ch.len(),
            ch.len() == world.node_count(),
            next == next_depth(depth),
            children@ == ch[a as int].map_values(|c: usize| EntityId(c)),
            i <= children@.len(),
            out@ == after_line + children_text(ch, hs, data, a as int, i as int, next),
        decreases children@.len() - i,
    {
        let c = children[i].0;
        assert(ch[a as int][i as int] == c);
        assert(c < ch.len() && hs[c as int] < hs[a as int]);
        visit_tree(world, c, next, out);
        i = i + 1;
        assert(out@ =~= after_line + children_text(ch, hs, data, a as int, i as int, next));
    }
    assert(out@ =~= start + tree_text(ch, hs, data, a as int, depth));
}

/// Format a world's entity tree as a multi-line string (depth-first, indented two spaces per
/// level). Each line: indent + "entity_id: PrimitiveName [material]". Inactive entities and their
/// descendants are skipped.
pub fn format_primitive_tree(world: &World) -> (s: String)
    requires
        world.wf(),
    ensures
        s@ == spec_primitive_tree(*world),
{
    let mut out = String::new();
    proof {
        world.lemma_wf_ranks();
    }
    visit_tree(world, 0, 0, &mut out);
    assert(out@ =~= spec_primitive_tree(*world));
    out
}

/// The first entity of `ids` whose node has a primitive.
pub open spec fn first_with_primitive(ids: Seq<EntityId>, data: Seq<NodeData>) -> Option<EntityId>
    decreases ids.len(),
{
    if ids.len() == 0 {
        None
    } else if data[ids[0].0 as int].primitive is Some {
        Some(ids[0])
    } else {
        first_with_primitive(ids.drop_first(), data)
    }
}

/// The entities listed by `World::entities_dfs`.
pub open spec fn listed_entities(world: World) -> Seq<EntityId> {
    active_only(world.dfs_order(), world.node_data())
}

/// Every listed entity is in storage.
pub proof fn lemma_listed_in_range(world: World)
    requires
        world.wf(),
    ensures
        forall|k: int|
            0 <= k < listed_entities(world).len() ==> world.contains(#[trigger] listed_entities(world)[k]),
{
    world.lemma_wf_ranks();
    lemma_dfs_in_range(world.child_lists(), world.ranks(), 0);
    lemma_active_only(world.dfs_order(), world.node_data());
    assert forall|k: int|
        0 <= k < listed_entities(world).len() implies world.contains(#[trigger] listed_entities(world)[k]) by {
        let e = listed_entities(world)[k];
        assert(listed_entities(world).contains(e));
        assert(world.dfs_order().contains(e.0));
    }
}

/// Auto-select the first listed entity that has a primitive if nothing is selected, so that the
/// primitive buttons act immediately. Leaves an existing selection alone.
pub fn auto_select_first_entity(scene: &mut SceneState)
    requires
        old(scene).wf(),
    ensures
        final(scene).wf(),
        final(scene).worlds == old(scene).worlds,
        final(scene).active_world == old(scene).active_world,
        final(scene).view_mode == old(scene).view_mode,
        final(scene).gizmo_mode == old(scene).gizmo_mode,
        final(scene).gizmo_hidden == old(scene).gizmo_hidden,
        final(scene).selected_entity == if old(scene).selected_entity is Some {
            old(scene).selected_entity
        } else {
            first_with_primitive(listed_entities(old(scene).active()), old(scene).active().node_data())
        },
{
    if scene.selected_entity.is_some() {
        return;
    }
    let world = scene.world();
    let ids = world.entities_dfs();
    let ghost data = world.node_data();
    proof {
        lemma_listed_in_range(*world);
        assert(forall|m: int| 0 <= m < ids@.len() ==> world.contains(#[trigger] ids@[m]));
        assert(ids@.skip(0) =~= ids@);
    }
    let mut found: Option<EntityId> = None;
    let mut k: usize = 0;
    while k < ids.len()
        invariant_except_break
            found is None,
        invariant
            ids@ == listed_entities(*world),
            data == world.node_data(),
            forall|m: int| 0 <= m < ids@.len() ==> world.contains(#[trigger] ids@[m]),
            k <= ids@.len(),
            first_with_primitive(ids@, data) == first_with_primitive(ids@.skip(k as int), data),
        ensures
            found == first_with_primitive(ids@, data),
        decreases ids@.len() - k,
    {
        let id = ids[k];
        let has = match world.get(id) {
            Some(n) => n.primitive.is_some(),
            None => false,
        };
        assert(ids@.skip(k as int)[0] == id);
        if has {
            found = Some(id);
            break;
        }
        assert(ids@.skip(k as int).drop_first() =~= ids@.skip(k as int + 1));
        k = k + 1;
    }
    if found.is_some() {
        scene.selected_entity = found;
    }
}

/// Number of the listed entities of `ids` whose node has a primitive.
pub open spec fn count_with_primitive(ids: Seq<EntityId>, data: Seq<NodeData>) -> nat
    decreases ids.len(),
{
    if ids.len() == 0 {
        0
    } else {
        count_with_primitive(ids.drop_last(), data) + if data[ids.last().0 as int].primitive is Some {
            1nat
        } else {
            0nat
        }
    }
}

/// Count the listed entities of `world` that have a primitive (drawn elements).
pub fn element_count(world: &World) -> (n: usize)
    requires
        world.wf(),
    ensures
        n == count_with_primitive(listed_entities(*world), world.node_data()),
{
    let ids = world.entities_dfs();
    proof {
        lemma_listed_in_range(*world);
        assert forall|m: int| 0 <= m < ids@.len() implies world.contains(#[trigger] ids@[m]) by {
            assert(listed_entities(*world)[m] == ids@[m]);
        }
    }
    let ghost data = world.node_data();
    let mut n: usize = 0;
    let mut k: usize = 0;
    while k < ids.len()
        invariant
            ids@ == listed_entities(*world),
            data == world.node_data(),
            forall|m: int| 0 <= m < ids@.len() ==> world.contains(#[trigger] ids@[m]),
            k <= ids@.len(),
            n == count_with_primitive(ids@.take(k as int), data),
            n <= k,
        decreases ids@.len() - k,
    {
        let id = ids[k];
        assert(ids@.take(k as int + 1).drop_last() =~= ids@.take(k as int));
        let has = match world.get(id) {
            Some(nd) => nd.primitive.is_some(),
            None => false,
        };
        if has {
            n = n + 1;
        }
        k = k + 1;
    }
    assert(ids@.take(ids@.len() as int) =~= ids@);
    n
}

} // verus!
