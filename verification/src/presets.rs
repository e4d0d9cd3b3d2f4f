//! Scene presets: the entities each demo places under the root of the active world.
//!
//! Coordinates are `f32` bit patterns (see `Transform`).

use vstd::prelude::*;

use crate::demo::{auto_select_first_entity, first_with_primitive, listed_entities};
use crate::platform::RunDemo;
use crate::scene::node_data::NodeData;
use crate::scene::transform::{spec_identity_transform, F32_ONE_BITS, F32_ZERO_BITS};
use crate::scene::world::World;
use crate::scene::{CurvePoint, EntityId, Primitive, Primitive2D, Primitive3D, Transform};
use crate::scene_state::{lemma_active_replaced, SceneState};

verus! {

/// Bit pattern of `0.5_f32`.
pub const F32_0_5_BITS: u32 = 0x3F00_0000;

/// Bit pattern of `1.5_f32`.
pub const F32_1_5_BITS: u32 = 0x3FC0_0000;

/// Bit pattern of `-1.5_f32`.
pub const F32_MINUS_1_5_BITS: u32 = 0xBFC0_0000;

/// Bit pattern of `-0.3_f32`.
pub const F32_MINUS_0_3_BITS: u32 = 0xBE99_999A;

/// Bit pattern of `0.3_f32`.
pub const F32_0_3_BITS: u32 = 0x3E99_999A;

/// Bit pattern of `0.6_f32`.
pub const F32_0_6_BITS: u32 = 0x3F19_999A;

/// Bit pattern of `1.1_f32` (`0.5_f32 + 0.6_f32`).
pub const F32_1_1_BITS: u32 = 0x3F8C_CCCD;

/// Bit pattern of `1.2_f32`.
pub const F32_1_2_BITS: u32 = 0x3F99_999A;

/// Bit pattern of `1.8_f32`.
pub const F32_1_8_BITS: u32 = 0x3FE6_6666;

/// Bit pattern of `0.33_f32`.
pub const F32_0_33_BITS: u32 = 0x3EA8_F5C3;

/// Bit pattern of `0.66_f32`.
pub const F32_0_66_BITS: u32 = 0x3F28_F5C3;

/// Bit pattern of `-1.0_f32`.
pub const F32_MINUS_1_BITS: u32 = 0xBF80_0000;

/// Bit pattern of `-2.5_f32`.
pub const F32_MINUS_2_5_BITS: u32 = 0xC020_0000;

/// Bit pattern of `-1.4_f32`.
pub const F32_MINUS_1_4_BITS: u32 = 0xBFB3_3333;

/// Bit pattern of `0.8_f32`.
pub const F32_0_8_BITS: u32 = 0x3F4C_CCCD;

/// Bit pattern of `1.9_f32`.
pub const F32_1_9_BITS: u32 = 0x3FF3_3333;

/// Bit pattern of `3.0_f32`.
pub const F32_3_BITS: u32 = 0x4040_0000;

/// Bit pattern of `0.4_f32`.
pub const F32_0_4_BITS: u32 = 0x3ECC_CCCD;

/// Bit pattern of `-0.4_f32`.
pub const F32_MINUS_0_4_BITS: u32 = 0xBECC_CCCD;

/// Bit pattern of `-1.2_f32`.
pub const F32_MINUS_1_2_BITS: u32 = 0xBF99_999A;

/// Bit pattern of `0.15_f32`.
pub const F32_0_15_BITS: u32 = 0x3E19_999A;

/// Bit pattern of `0.25_f32`.
pub const F32_0_25_BITS: u32 = 0x3E80_0000;

/// Bit pattern of `0.35_f32`.
pub const F32_0_35_BITS: u32 = 0x3EB3_3333;

/// One entity of a preset: its primitive, local transform and material name.
pub struct PresetEntity {
    /// Shape to draw.
    pub primitive: Primitive,
    /// Local transform.
    pub transform: Transform,
    /// Material name; `None` for vertex colors.
    pub material: Option<String>,
}

/// A preset entity as plain values (the material by its text).
pub open spec fn entity_spec(e: PresetEntity) -> (Primitive, Transform, Option<Seq<char>>) {
    (
        e.primitive,
        e.transform,
        match e.material {
            Some(m) => Some(m@),
            None => None,
        },
    )
}

/// The point `(x, y, z)`.
pub open spec fn p3(x: u32, y: u32, z: u32) -> CurvePoint {
    CurvePoint([x, y, z])
}

/// Identity transform moved to `(x, y, 0)`.
pub open spec fn at(x: u32, y: u32) -> Transform {
    Transform { position: [x, y, F32_ZERO_BITS], ..spec_identity_transform() }
}

/// Straight line from `(0, 0, 0)` to `(x, 0, 0)`.
pub open spec fn line_to(x: u32) -> Primitive {
    Primitive::ThreeD(
        Primitive3D::LineSegment {
            start: p3(F32_ZERO_BITS, F32_ZERO_BITS, F32_ZERO_BITS),
            end: p3(x, F32_ZERO_BITS, F32_ZERO_BITS),
        },
    )
}

/// The "default" preset: a textured cube at the origin, a tetrahedron to the right and a
/// cylinder to the left.
pub open spec fn default_preset() -> Seq<(Primitive, Transform, Option<Seq<char>>)> {
    seq![
        (Primitive::ThreeD(Primitive3D::Cube), at(F32_ZERO_BITS, F32_ZERO_BITS), Some("procedural"@)),
        (Primitive::ThreeD(Primitive3D::Tetrahedron), at(F32_1_5_BITS, F32_MINUS_0_3_BITS), Some("flat"@)),
        (Primitive::ThreeD(Primitive3D::Cylinder), at(F32_MINUS_1_5_BITS, F32_MINUS_0_3_BITS), Some("flat"@)),
    ]
}

/// The "curves" preset: a line, a Bezier, a Hermite and a B-spline curve stacked upwards.
pub open spec fn curves_preset() -> Seq<(Primitive, Transform, Option<Seq<char>>)> {
    let z = F32_ZERO_BITS;
    let id = spec_identity_transform();
    seq![
        (line_to(F32_ONE_BITS), id, None),
        (
            Primitive::ThreeD(
                Primitive3D::Bezier {
                    control_points: [
                        p3(z, F32_0_6_BITS, z),
                        p3(F32_0_33_BITS, F32_1_1_BITS, z),
                        p3(F32_0_66_BITS, F32_1_1_BITS, z),
                        p3(F32_ONE_BITS, F32_0_6_BITS, z),
                    ],
                },
            ),
            id,
            None,
        ),
        (
            Primitive::ThreeD(
                Primitive3D::Hermite {
                    p0: p3(z, F32_1_2_BITS, z),
                    p1: p3(F32_ONE_BITS, F32_1_2_BITS, z),
                    m0: p3(z, F32_ONE_BITS, z),
                    m1: p3(z, F32_MINUS_1_BITS, z),
                },
            ),
            id,
            None,
        ),
        (
            Primitive::ThreeD(
                Primitive3D::BSpline {
                    control_points: [
                        p3(z, F32_1_8_BITS, z),
                        p3(F32_0_33_BITS, F32_1_8_BITS, z),
                        p3(F32_0_66_BITS, F32_1_8_BITS, z),
                        p3(F32_ONE_BITS, F32_1_8_BITS, z),
                    ],
                },
            ),
            id,
            None,
        ),
    ]
}

/// The "all shapes" preset: the six solids in a row (the first one textured), and the four
/// curve kinds in a row below them.
pub open spec fn all_shapes_preset() -> Seq<(Primitive, Transform, Option<Seq<char>>)> {
    let z = F32_ZERO_BITS;
    let y = F32_0_4_BITS;
    let cy = F32_MINUS_1_BITS;
    seq![
        (Primitive::ThreeD(Primitive3D::Cube), at(F32_MINUS_2_5_BITS, y), Some("procedural"@)),
        (Primitive::ThreeD(Primitive3D::Tetrahedron), at(F32_MINUS_1_4_BITS, y), Some("flat"@)),
        (Primitive::ThreeD(Primitive3D::Cylinder), at(F32_MINUS_0_3_BITS, y), Some("flat"@)),
        (Primitive::ThreeD(Primitive3D::Sphere), at(F32_0_8_BITS, y), Some("flat"@)),
        (Primitive::ThreeD(Primitive3D::Cone), at(F32_1_9_BITS, y), Some("flat"@)),
        (Primitive::ThreeD(Primitive3D::Capsule), at(F32_3_BITS, y), Some("flat"@)),
        (line_to(F32_0_5_BITS), at(F32_MINUS_1_2_BITS, cy), None),
        (
            Primitive::ThreeD(
                Primitive3D::Bezier {
                    control_points: [
                        p3(z, z, z),
                        p3(F32_0_15_BITS, F32_0_25_BITS, z),
                        p3(F32_0_35_BITS, F32_0_25_BITS, z),
                        p3(F32_0_5_BITS, z, z),
                    ],
                },
            ),
            at(F32_MINUS_0_4_BITS, cy),
            None,
        ),
        (
            Primitive::ThreeD(
                Primitive3D::Hermite {
                    p0: p3(z, z, z),
                    p1: p3(F32_0_5_BITS, z, z),
                    m0: p3(z, F32_0_3_BITS, z),
                    m1: p3(z, F32_MINUS_0_3_BITS, z),
                },
            ),
            at(F32_0_4_BITS, cy),
            None,
        ),
        (
            Primitive::ThreeD(
                Primitive3D::BSpline {
                    control_points: [
                        p3(z, z, z),
                        p3(F32_0_15_BITS, z, z),
                        p3(F32_0_35_BITS, z, z),
                        p3(F32_0_5_BITS, z, z),
                    ],
                },
            ),
            at(F32_1_2_BITS, cy),
            None,
        ),
    ]
}

/// Placeholder edge of an outline in the collision preset (moved every frame).
pub open spec fn placeholder_edge() -> (Primitive, Transform, Option<Seq<char>>) {
    (line_to(F32_ONE_BITS), spec_identity_transform(), None)
}

/// The "aabb2d" preset: a half-size circle, a unit circle, then the sixteen edges of four
/// box outlines (four edges each).
pub open spec fn aabb2d_preset() -> Seq<(Primitive, Transform, Option<Seq<char>>)> {
    seq![
        (
            Primitive::TwoD(Primitive2D::Circle),
            Transform { scale: [F32_0_5_BITS, F32_0_5_BITS, F32_ONE_BITS], ..spec_identity_transform() },
            None,
        ),
        (Primitive::TwoD(Primitive2D::Circle), spec_identity_transform(), None),
    ] + Seq::new(16, |k: int| placeholder_edge())
}

/// The entities a preset places under the root, in order.
pub open spec fn preset_entities(demo: RunDemo) -> Seq<(Primitive, Transform, Option<Seq<char>>)> {
    match demo {
        RunDemo::Default => default_preset(),
        RunDemo::Curves => curves_preset(),
        RunDemo::AllShapes => all_shapes_preset(),
        RunDemo::Aabb2d => aabb2d_preset(),
    }
}

/// Number of entities a preset places.
pub fn preset_entities_len(demo: RunDemo) -> (n: usize)
    ensures
        n == preset_entities(demo).len(),
{
    match demo {
        RunDemo::Default => 3,
        RunDemo::Curves => 4,
        RunDemo::AllShapes => 10,
        RunDemo::Aabb2d => 18,
    }
}

/// A preset entity with an optional material name.
fn entity(primitive: Primitive, transform: Transform, material: Option<&str>) -> (e: PresetEntity)
    ensures
        entity_spec(e) == (
            primitive,
            transform,
            match material {
                Some(m) => Some(m@),
                None => None,
            },
        ),
{
    let material = match material {
        Some(m) => Some(String::from_str(m)),
        None => None,
    };
    PresetEntity { primitive, transform, material }
}

/// The point `(x, y, z)`.
fn point(x: u32, y: u32, z: u32) -> (p: CurvePoint)
    ensures
        p == p3(x, y, z),
{
    CurvePoint([x, y, z])
}

/// Straight line from `(0, 0, 0)` to `(x, 0, 0)`.
fn line(x: u32) -> (p: Primitive)
    ensures
        p == line_to(x),
{
    Primitive::ThreeD(
        Primitive3D::LineSegment {
            start: point(F32_ZERO_BITS, F32_ZERO_BITS, F32_ZERO_BITS),
            end: point(x, F32_ZERO_BITS, F32_ZERO_BITS),
        },
    )
}

/// Identity transform moved to `(x, y, 0)`.
fn place(x: u32, y: u32) -> (t: Transform)
    ensures
        t == at(x, y),
{
    Transform::with_position(x, y, F32_ZERO_BITS)
}

fn default_table() -> (v: Vec<PresetEntity>)
    ensures
        v@.map_values(|e: PresetEntity| entity_spec(e)) == default_preset(),
{
    let mut v: Vec<PresetEntity> = Vec::new();
    v.push(entity(Primitive::ThreeD(Primitive3D::Cube), place(F32_ZERO_BITS, F32_ZERO_BITS), Some("procedural")));
    v.push(entity(Primitive::ThreeD(Primitive3D::Tetrahedron), place(F32_1_5_BITS, F32_MINUS_0_3_BITS), Some("flat")));
    v.push(entity(Primitive::ThreeD(Primitive3D::Cylinder), place(F32_MINUS_1_5_BITS, F32_MINUS_0_3_BITS), Some("flat")));
    assert(v@.map_values(|e: PresetEntity| entity_spec(e)) =~= default_preset());
    v
}

fn curves_table() -> (v: Vec<PresetEntity>)
    ensures
        v@.map_values(|e: PresetEntity| entity_spec(e)) == curves_preset(),
{
    let z = F32_ZERO_BITS;
    let id = Transform::default();
    let mut v: Vec<PresetEntity> = Vec::new();
    v.push(entity(line(F32_ONE_BITS), id, None));
    v.push(entity(
        Primitive::ThreeD(
            Primitive3D::Bezier {
                control_points: [
                    point(z, F32_0_6_BITS, z),
                    point(F32_0_33_BITS, F32_1_1_BITS, z),
                    point(F32_0_66_BITS, F32_1_1_BITS, z),
                    point(F32_ONE_BITS, F32_0_6_BITS, z),
                ],
            },
        ),
        id,
        None,
    ));
    v.push(entity(
        Primitive::ThreeD(
            Primitive3D::Hermite {
                p0: point(z, F32_1_2_BITS, z),
                p1: point(F32_ONE_BITS, F32_1_2_BITS, z),
                m0: point(z, F32_ONE_BITS, z),
                m1: point(z, F32_MINUS_1_BITS, z),
            },
        ),
        id,
        None,
    ));
    v.push(entity(
        Primitive::ThreeD(
            Primitive3D::BSpline {
                control_points: [
                    point(z, F32_1_8_BITS, z),
                    point(F32_0_33_BITS, F32_1_8_BITS, z),
                    point(F32_0_66_BITS, F32_1_8_BITS, z),
                    point(F32_ONE_BITS, F32_1_8_BITS, z),
                ],
            },
        ),
        id,
        None,
    ));
    assert(v@.map_values(|e: PresetEntity| entity_spec(e)) =~= curves_preset());
    v
}

fn all_shapes_table() -> (v: Vec<PresetEntity>)
    ensures
        v@.map_values(|e: PresetEntity| entity_spec(e)) == all_shapes_preset(),
{
    let z = F32_ZERO_BITS;
    let y = F32_0_4_BITS;
    let cy = F32_MINUS_1_BITS;
    let mut v: Vec<PresetEntity> = Vec::new();
    v.push(entity(Primitive::ThreeD(Primitive3D::Cube), place(F32_MINUS_2_5_BITS, y), Some("procedural")));
    v.push(entity(Primitive::ThreeD(Primitive3D::Tetrahedron), place(F32_MINUS_1_4_BITS, y), Some("flat")));
    v.push(entity(Primitive::ThreeD(Primitive3D::Cylinder), place(F32_MINUS_0_3_BITS, y), Some("flat")));
    v.push(entity(Primitive::ThreeD(Primitive3D::Sphere), place(F32_0_8_BITS, y), Some("flat")));
    v.push(entity(Primitive::ThreeD(Primitive3D::Cone), place(F32_1_9_BITS, y), Some("flat")));
    v.push(entity(Primitive::ThreeD(Primitive3D::Capsule), place(F32_3_BITS, y), Some("flat")));
    v.push(entity(line(F32_0_5_BITS), place(F32_MINUS_1_2_BITS, cy), None));
    v.push(entity(
        Primitive::ThreeD(
            Primitive3D::Bezier {
                control_points: [
                    point(z, z, z),
                    point(F32_0_15_BITS, F32_0_25_BITS, z),
                    point(F32_0_35_BITS, F32_0_25_BITS, z),
                    point(F32_0_5_BITS, z, z),
                ],
            },
        ),
        place(F32_MINUS_0_4_BITS, cy),
        None,
    ));
    v.push(entity(
        Primitive::ThreeD(
            Primitive3D::Hermite {
                p0: point(z, z, z),
                p1: point(F32_0_5_BITS, z, z),
                m0: point(z, F32_0_3_BITS, z),
                m1: point(z, F32_MINUS_0_3_BITS, z),
            },
        ),
        place(F32_0_4_BITS, cy),
        None,
    ));
    v.push(entity(
        Primitive::ThreeD(
            Primitive3D::BSpline {
                control_points: [
                    point(z, z, z),
                    point(F32_0_15_BITS, z, z),
                    point(F32_0_35_BITS, z, z),
                    point(F32_0_5_BITS, z, z),
                ],
            },
        ),
        place(F32_1_2_BITS, cy),
        None,
    ));
    assert(v@.map_values(|e: PresetEntity| entity_spec(e)) =~= all_shapes_preset());
    v
}

fn aabb2d_table() -> (v: Vec<PresetEntity>)
    ensures
        v@.map_values(|e: PresetEntity| entity_spec(e)) == aabb2d_preset(),
{
    let mut v: Vec<PresetEntity> = Vec::new();
    let mut small = Transform::default();
    small.scale = [F32_0_5_BITS, F32_0_5_BITS, F32_ONE_BITS];
    v.push(entity(Primitive::TwoD(Primitive2D::Circle), small, None));
    v.push(entity(Primitive::TwoD(Primitive2D::Circle), Transform::default(), None));
    let ghost head = v@.map_values(|e: PresetEntity| entity_spec(e));
    let mut k: usize = 0;
    while k < 16
        invariant
            k <= 16,
            v@.map_values(|e: PresetEntity| entity_spec(e)) == head + Seq::new(
                k as nat,
                |i: int| placeholder_edge(),
            ),
            head == aabb2d_preset().take(2),
        decreases 16 - k,
    {
        let ghost before = v@;
        let e = entity(line(F32_ONE_BITS), Transform::default(), None);
        assert(entity_spec(e) == placeholder_edge());
        v.push(e);
        assert(v@.map_values(|e: PresetEntity| entity_spec(e)) =~= before.map_values(
            |e: PresetEntity| entity_spec(e),
        ).push(placeholder_edge()));
        k = k + 1;
        assert(v@.map_values(|e: PresetEntity| entity_spec(e)) =~= head + Seq::new(
            k as nat,
            |i: int| placeholder_edge(),
        ));
    }
    assert(v@.map_values(|e: PresetEntity| entity_spec(e)) =~= aabb2d_preset());
    v
}

/// The entities of a preset, in order.
pub fn preset_table(demo: RunDemo) -> (v: Vec<PresetEntity>)
    ensures
        v@.map_values(|e: PresetEntity| entity_spec(e)) == preset_entities(demo),
{
    match demo {
        RunDemo::Default => default_table(),
        RunDemo::Curves => curves_table(),
        RunDemo::AllShapes => all_shapes_table(),
        RunDemo::Aabb2d => aabb2d_table(),
    }
}

/// Node data of a preset entity: the entry's primitive, transform and material, opaque white,
/// active.
pub open spec fn entity_data_ok(d: NodeData, e: (Primitive, Transform, Option<Seq<char>>)) -> bool {
    &&& d.primitive == Some(e.0)
    &&& d.transform == e.1
    &&& d.color == [F32_ONE_BITS, F32_ONE_BITS, F32_ONE_BITS, F32_ONE_BITS]
    &&& d.active
    &&& (d.material is Some <==> e.2 is Some)
    &&& d.material is Some ==> d.material->0@ == e.2->0
}

/// `w1` is `w0` with one new entity per entry of `entries` appended, in order, as the last
/// children of the root, each holding the entry's data; nothing else changes.
pub open spec fn entities_appended(
    w0: World,
    w1: World,
    entries: Seq<(Primitive, Transform, Option<Seq<char>>)>,
) -> bool {
    let n0 = w0.node_count();
    let k = entries.len();
    &&& w1.node_count() == n0 + k
    &&& w1.parents() == w0.parents() + Seq::new(k, |t: int| Some(0usize))
    &&& w1.child_lists() == w0.child_lists().update(
        0,
        w0.child_lists()[0] + Seq::new(k, |t: int| (n0 + t) as usize),
    ) + Seq::new(k, |t: int| Seq::<usize>::empty())
    &&& w1.node_data().take(n0 as int) == w0.node_data()
    &&& forall|t: int| 0 <= t < k ==> entity_data_ok(w1.node_data()[n0 + t], #[trigger] entries[t])
}

/// Append the entities of `entries` under the root of `world`; returns the id of the first one.
fn append_entities(world: &mut World, entries: &Vec<PresetEntity>) -> (first: usize)
    requires
        old(world).wf(),
        old(world).node_count() + entries@.len() <= usize::MAX,
    ensures
        final(world).wf(),
        entries@.len() > 0 ==> first == old(world).node_count(),
        entities_appended(*old(world), *final(world), entries@.map_values(|e: PresetEntity| entity_spec(e))),
{
    let ghost w0 = *world;
    let ghost specs = entries@.map_values(|e: PresetEntity| entity_spec(e));
    proof {
        w0.lemma_wf_ranks();
    }
    let ghost n0 = w0.node_count();
    proof {
        let t0 = specs.take(0);
        assert(w0.parents() =~= w0.parents() + Seq::new(t0.len(), |m: int| Some(0usize)));
        assert(w0.child_lists()[0] =~= w0.child_lists()[0] + Seq::new(t0.len(), |m: int| (n0 + m) as usize));
        assert(w0.child_lists() =~= w0.child_lists().update(
            0,
            w0.child_lists()[0] + Seq::new(t0.len(), |m: int| (n0 + m) as usize),
        ) + Seq::new(t0.len(), |m: int| Seq::<usize>::empty()));
        assert(w0.node_data().take(n0 as int) =~= w0.node_data());
    }
    let root = world.root_entity();
    let mut k: usize = 0;
    let mut first: usize = 0;
    while k < entries.len()
        invariant
            world.wf(),
            root == EntityId(0),
            specs == entries@.map_values(|e: PresetEntity| entity_spec(e)),
            n0 == w0.node_count(),
            n0 >= 1,
            w0.child_lists().len() == n0,
            w0.node_data().len() == n0,
            n0 + entries@.len() <= usize::MAX,
            k <= entries@.len(),
            k > 0 ==> first == n0,
            entities_appended(w0, *world, specs.take(k as int)),
        decreases entries@.len() - k,
    {
        let ghost prev = *world;
        proof {
            prev.lemma_wf_ranks();
        }
        let id = world.spawn(root);
        let ghost spawned = *world;
        if k == 0 {
            first = id.0;
        }
        let e = &entries[k];
        world.set_primitive(id, e.primitive);
        let ghost s1 = *world;
        world.set_transform(id, e.transform);
        let ghost s2 = *world;
        let material = match &e.material {
            Some(m) => Some(m.clone()),
            None => None,
        };
        world.set_material(id, material);
        proof {
            let w = *world;
            s1.lemma_same_graph(spawned);
            s2.lemma_same_graph(s1);
            w.lemma_same_graph(s2);
            spawned.lemma_wf_ranks();
            w.lemma_wf_ranks();
            let t = specs.take(k as int + 1);
            let tk = specs.take(k as int);
            assert(t.len() == k + 1);
            assert(forall|m: int| 0 <= m < k ==> t[m] == tk[m]);
            assert(t[k as int] == specs[k as int]);
            assert(w.parents() =~= w0.parents() + Seq::new(t.len(), |m: int| Some(0usize)));
            assert(w.child_lists()[0] =~= w0.child_lists()[0] + Seq::new(t.len(), |m: int| (n0 + m) as usize));
            assert(w.child_lists() =~= w0.child_lists().update(
                0,
                w0.child_lists()[0] + Seq::new(t.len(), |m: int| (n0 + m) as usize),
            ) + Seq::new(t.len(), |m: int| Seq::<usize>::empty()));
            assert(w.node_data().take(n0 as int) =~= w0.node_data());
            assert forall|m: int| 0 <= m < t.len() implies entity_data_ok(
                w.node_data()[n0 + m],
                #[trigger] t[m],
            ) by {
                if m < k {
                    assert(tk[m] == t[m]);
                    assert(w.node_data()[n0 + m] == prev.node_data()[n0 + m]);
                }
            }
        }
        k = k + 1;
    }
    assert(specs.take(entries@.len() as int) =~= specs);
    first
}

/// Entity ids of the collision preset: two circles and four box outlines of four edges each,
/// for the per-frame update of that scene.
#[derive(Clone, Copy, Debug)]
pub struct Aabb2dIds {
    /// Moving circle.
    pub ball1: EntityId,
    /// Fixed circle at the origin.
    pub ball2: EntityId,
    /// Outline of the box around `ball1`.
    pub aabb1: [EntityId; 4],
    /// Outline of the box around `ball2`.
    pub aabb2: [EntityId; 4],
    /// Outline of the union of both boxes.
    pub bounding: [EntityId; 4],
    /// Outline of the expanded box around `ball2`.
    pub loose: [EntityId; 4],
}

/// The ids of the collision preset when its first entity gets id `n0`.
pub open spec fn aabb2d_ids_from(n0: nat) -> Aabb2dIds {
    Aabb2dIds {
        ball1: EntityId(n0 as usize),
        ball2: EntityId((n0 + 1) as usize),
        aabb1: [
            EntityId((n0 + 2) as usize),
            EntityId((n0 + 3) as usize),
            EntityId((n0 + 4) as usize),
            EntityId((n0 + 5) as usize),
        ],
        aabb2: [
            EntityId((n0 + 6) as usize),
            EntityId((n0 + 7) as usize),
            EntityId((n0 + 8) as usize),
            EntityId((n0 + 9) as usize),
        ],
        bounding: [
            EntityId((n0 + 10) as usize),
            EntityId((n0 + 11) as usize),
            EntityId((n0 + 12) as usize),
            EntityId((n0 + 13) as usize),
        ],
        loose: [
            EntityId((n0 + 14) as usize),
            EntityId((n0 + 15) as usize),
            EntityId((n0 + 16) as usize),
            EntityId((n0 + 17) as usize),
        ],
    }
}

/// The ids of the collision preset in field order: `ball1`, `ball2`, then the four edges of
/// `aabb1`, of `aabb2`, of `bounding` and of `loose`.
pub open spec fn aabb2d_id_list(ids: Aabb2dIds) -> Seq<EntityId> {
    seq![ids.ball1, ids.ball2] + ids.aabb1@ + ids.aabb2@ + ids.bounding@ + ids.loose@
}

/// Law: the collision preset's ids, in field order, are the consecutive ids from `n0`: the
/// order in which the preset spawns its entities (two circles, then the edges of each outline).
pub proof fn lemma_aabb2d_ids_in_spawn_order(n0: nat)
    requires
        n0 + 18 <= usize::MAX,
    ensures
        aabb2d_id_list(aabb2d_ids_from(n0)) == Seq::new(18, |k: int| EntityId((n0 + k) as usize)),
{
    let ids = aabb2d_ids_from(n0);
    let l = aabb2d_id_list(ids);
    assert(l.len() == 18);
    assert forall|k: int| 0 <= k < 18 implies #[trigger] l[k] == EntityId((n0 + k) as usize) by {
        if k < 2 {
        } else if k < 6 {
            assert(l[k] == ids.aabb1@[k - 2]);
        } else if k < 10 {
            assert(l[k] == ids.aabb2@[k - 6]);
        } else if k < 14 {
            assert(l[k] == ids.bounding@[k - 10]);
        } else {
            assert(l[k] == ids.loose@[k - 14]);
        }
    }
    assert(l =~= Seq::new(18, |k: int| EntityId((n0 + k) as usize)));
}

/// The selection after building a preset whose first entity gets id `n0`: the line of the
/// curve presets, otherwise the selection before.
pub open spec fn preset_selection(demo: RunDemo, n0: nat, before: Option<EntityId>) -> Option<EntityId> {
    match demo {
        RunDemo::Curves => Some(EntityId(n0 as usize)),
        RunDemo::AllShapes => Some(EntityId((n0 + 6) as usize)),
        _ => before,
    }
}

/// Build the scene of a preset in the active world: its entities are appended under the root
/// (see `preset_entities`); the curve presets select their line. Returns the entity ids of the
/// collision preset, for its per-frame update; `None` for the other presets. The camera set-up
/// of the collision preset is the renderer's.
pub fn build_demo_scene(scene: &mut SceneState, demo: RunDemo) -> (ids: Option<Aabb2dIds>)
    requires
        old(scene).wf(),
        old(scene).active().node_count() + preset_entities(demo).len() <= usize::MAX,
    ensures
        final(scene).wf(),
        final(scene).active_world == old(scene).active_world,
        final(scene).view_mode == old(scene).view_mode,
        final(scene).gizmo_mode == old(scene).gizmo_mode,
        final(scene).gizmo_hidden == old(scene).gizmo_hidden,
        final(scene).worlds@.len() == old(scene).worlds@.len(),
        forall|i: int|
            0 <= i < old(scene).worlds@.len() && i != old(scene).active_world ==> #[trigger] final(scene).worlds@[i]
                == old(scene).worlds@[i],
        entities_appended(old(scene).active(), final(scene).active(), preset_entities(demo)),
        final(scene).selected_entity == preset_selection(
            demo,
            old(scene).active().node_count(),
            old(scene).selected_entity,
        ),
        ids == match demo {
            RunDemo::Aabb2d => Some(aabb2d_ids_from(old(scene).active().node_count())),
            _ => None,
        },
        ids matches Some(g) ==> aabb2d_id_list(g) == Seq::new(
            18,
            |k: int| EntityId((old(scene).active().node_count() + k) as usize),
        ),
{
    let ghost before = *scene;
    let table = preset_table(demo);
    let ai = scene.active_world;
    let first = append_entities(&mut scene.worlds[ai], &table);
    proof {
        lemma_active_replaced(before, *scene);
        if demo is Aabb2d {
            lemma_aabb2d_ids_in_spawn_order(before.active().node_count());
        }
    }
    match demo {
        RunDemo::Default => None,
        RunDemo::Curves => {
            scene.selected_entity = Some(EntityId(first));
            None
        },
        RunDemo::AllShapes => {
            scene.selected_entity = Some(EntityId(first + 6));
            None
        },
        RunDemo::Aabb2d => Some(
            Aabb2dIds {
                ball1: EntityId(first),
                ball2: EntityId(first + 1),
                aabb1: [EntityId(first + 2), EntityId(first + 3), EntityId(first + 4), EntityId(first + 5)],
                aabb2: [EntityId(first + 6), EntityId(first + 7), EntityId(first + 8), EntityId(first + 9)],
                bounding: [
                    EntityId(first + 10),
                    EntityId(first + 11),
                    EntityId(first + 12),
                    EntityId(first + 13),
                ],
                loose: [
                    EntityId(first + 14),
                    EntityId(first + 15),
                    EntityId(first + 16),
                    EntityId(first + 17),
                ],
            },
        ),
    }
}

/// `w1` is `w0` with every entity of `ids` other than the root despawned.
pub open spec fn despawned_all(w0: World, w1: World, ids: Seq<EntityId>) -> bool {
    &&& w1.same_graph(w0)
    &&& w1.node_data().len() == w0.node_data().len()
    &&& forall|x: int|
        0 <= x < w0.node_data().len() ==> #[trigger] w1.node_data()[x] == if x != 0 && ids.contains(
            EntityId(x as usize),
        ) {
            NodeData { active: false, ..w0.node_data()[x] }
        } else {
            w0.node_data()[x]
        }
}

/// A freshly created world: only the root, with default data.
pub open spec fn fresh_world(w: World) -> bool {
    &&& w.wf()
    &&& w.node_count() == 1
    &&& w.parents() == seq![None::<usize>]
    &&& w.child_lists() == seq![Seq::<usize>::empty()]
    &&& crate::scene::node_data::spec_default_node_data(w.node_data()[0])
}

/// The active world of `before`, cleared for a new preset: a fresh world when it is the first
/// world (which is replaced), else the same world with all its listed entities but the root
/// despawned.
pub open spec fn cleared_world(before: SceneState, mid: World) -> bool {
    if before.active_world == 0 {
        fresh_world(mid)
    } else {
        despawned_all(before.active(), mid, listed_entities(before.active()))
    }
}

/// How the scene changes when the web front end switches to preset `demo`: `mid` is the
/// cleared active world, to which the preset's entities are appended.
pub open spec fn switched_via(before: SceneState, after: SceneState, demo: RunDemo, mid: World) -> bool {
    let sel = preset_selection(demo, mid.node_count(), before.selected_entity);
    &&& cleared_world(before, mid)
    &&& entities_appended(mid, after.active(), preset_entities(demo))
    &&& after.selected_entity == if sel is Some {
        sel
    } else {
        first_with_primitive(listed_entities(after.active()), after.active().node_data())
    }
}

/// Switch the scene to preset `demo`, as the web front end does when a script asks for another
/// scene: every listed entity of the active world but the root is despawned, the first world is
/// replaced by a fresh one, the preset is built in the active world, and when nothing is
/// selected the first listed entity with a primitive is selected. Returns the entity ids of the
/// collision preset (`None` for the other presets).
pub fn switch_demo_scene(scene: &mut SceneState, demo: RunDemo) -> (ids: Option<Aabb2dIds>)
    requires
        old(scene).wf(),
        old(scene).active().node_count() + preset_entities(demo).len() <= usize::MAX,
    ensures
        final(scene).wf(),
        final(scene).active_world == old(scene).active_world,
        final(scene).view_mode == old(scene).view_mode,
        final(scene).gizmo_mode == old(scene).gizmo_mode,
        final(scene).gizmo_hidden == old(scene).gizmo_hidden,
        final(scene).worlds@.len() == old(scene).worlds@.len(),
        forall|i: int|
            0 <= i < old(scene).worlds@.len() && i != 0 && i != old(scene).active_world ==> #[trigger] final(scene).worlds@[i]
                == old(scene).worlds@[i],
        old(scene).active_world != 0 ==> fresh_world(final(scene).worlds@[0]),
        exists|mid: World| #[trigger]
            switched_via(*old(scene), *final(scene), demo, mid) && ids == match demo {
                RunDemo::Aabb2d => Some(aabb2d_ids_from(mid.node_count())),
                _ => None,
            },
{
    let ghost s0 = *scene;
    let ai = scene.active_world;
    let ids = scene.world().entities_dfs();
    let root = scene.world().root_entity();
    let ghost w0 = s0.active();
    proof {
        w0.lemma_wf_ranks();
        w0.lemma_same_graph_equiv(w0, w0);
        assert forall|x: int| 0 <= x < w0.node_data().len() implies #[trigger] w0.node_data()[x] == if x
            != 0 && ids@.take(0).contains(EntityId(x as usize)) {
            NodeData { active: false, ..w0.node_data()[x] }
        } else {
            w0.node_data()[x]
        } by {
            assert(!ids@.take(0).contains(EntityId(x as usize)));
        }
    }
    let mut k: usize = 0;
    while k < ids.len()
        invariant
            ai == s0.active_world,
            s0.wf(),
            w0 == s0.active(),
            root == EntityId(0),
            scene.active_world == ai,
            scene.worlds@.len() == s0.worlds@.len(),
            forall|i: int| 0 <= i < s0.worlds@.len() && i != ai ==> #[trigger] scene.worlds@[i] == s0.worlds@[i],
            scene.selected_entity == s0.selected_entity,
            scene.view_mode == s0.view_mode,
            scene.gizmo_mode == s0.gizmo_mode,
            scene.gizmo_hidden == s0.gizmo_hidden,
            w0.node_data().len() == w0.node_count(),
            k <= ids@.len(),
            despawned_all(w0, scene.active(), ids@.take(k as int)),
        decreases ids@.len() - k,
    {
        let ghost prev = *scene;
        let id = ids[k];
        if id.0 != root.0 {
            scene.worlds[ai].despawn(id);
        }
        proof {
            let w = scene.active();
            let pw = prev.active();
            w.lemma_same_graph_equiv(pw, w0);
            pw.lemma_same_graph_equiv(w, w0);
            w.lemma_same_graph(w0);
            w.lemma_wf_ranks();
            pw.lemma_same_graph(w0);
            pw.lemma_wf_ranks();
            let t = ids@.take(k as int + 1);
            let tk = ids@.take(k as int);
            assert(t =~= tk.push(id));
            assert forall|x: int| 0 <= x < w0.node_data().len() implies #[trigger] w.node_data()[x] == if x
                != 0 && t.contains(EntityId(x as usize)) {
                NodeData { active: false, ..w0.node_data()[x] }
            } else {
                w0.node_data()[x]
            } by {
                if tk.contains(EntityId(x as usize)) {
                    assert(t.contains(EntityId(x as usize)));
                }
                if t.contains(EntityId(x as usize)) && !tk.contains(EntityId(x as usize)) {
                    assert(EntityId(x as usize) == id);
                }
                if x == id.0 && x != 0 {
                    assert(pw.contains(id));
                    assert(w.node_data()[x] == NodeData { active: false, ..pw.node_data()[x] });
                    assert(t[k as int] == id);
                    assert(EntityId(x as usize) == id);
                    assert(t.contains(EntityId(x as usize)));
                } else {
                    assert(w.node_data()[x] == pw.node_data()[x]);
                    if x != 0 && t.contains(EntityId(x as usize)) {
                        let m = choose|m: int| 0 <= m < t.len() && t[m] == EntityId(x as usize);
                        if m < k {
                            assert(tk[m] == EntityId(x as usize));
                        }
                    }
                }
            }
        }
        k = k + 1;
    }
    proof {
        assert(ids@.take(ids@.len() as int) =~= ids@);
        scene.active().lemma_same_graph(w0);
        lemma_active_replaced(s0, *scene);
    }
    let ghost s_mid = *scene;
    scene.worlds.set(0, World::new());
    let ghost s1 = *scene;
    proof {
        assert forall|i: int| 0 <= i < s1.worlds@.len() implies (#[trigger] s1.worlds@[i]).wf() by {
            if i != 0 {
                assert(s1.worlds@[i] == s_mid.worlds@[i]);
            }
        }
    }
    let r = build_demo_scene(scene, demo);
    let ghost s2 = *scene;
    auto_select_first_entity(scene);
    proof {
        let mid = s1.active();
        assert(cleared_world(s0, mid));
        assert(switched_via(s0, *scene, demo, mid));
    }
    r
}

} // verus!
