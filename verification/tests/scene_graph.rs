//! World graph operations: traversal, removal, reparenting, despawning, parts validation.

use render::{
    format_primitive_tree, EntityId, Primitive, Primitive2D, Primitive3D, Transform, World,
    WorldParts,
};

fn sample() -> (World, EntityId, EntityId, EntityId, EntityId) {
    // root
    //   a
    //     b
    //     d
    //   c
    let mut world = World::new();
    let root = world.root_entity();
    let a = world.spawn(root);
    let b = world.spawn(a);
    let c = world.spawn(root);
    let d = world.spawn(a);
    (world, a, b, c, d)
}

#[test]
fn spawn_returns_next_index() {
    let (world, a, b, c, d) = sample();
    assert_eq!((a, b, c, d), (EntityId(1), EntityId(2), EntityId(3), EntityId(4)));
    assert_eq!(world.children(a), vec![b, d]);
    assert_eq!(world.parent(EntityId(0)), None);
    assert!(world.get(EntityId(5)).is_none());
}

#[test]
fn entities_are_listed_once() {
    let (mut world, a, _b, c, d) = sample();
    world.reparent(d, c);
    world.reparent(d, a);
    let ids = world.entities_dfs();
    for (i, x) in ids.iter().enumerate() {
        assert!(!ids[i + 1..].contains(x));
    }
    assert_eq!(ids.len(), 5);
}

#[test]
fn entities_dfs_is_preorder() {
    let (world, a, b, c, d) = sample();
    assert_eq!(world.entities_dfs(), vec![EntityId(0), a, b, d, c]);
}

#[test]
fn despawn_hides_entity_but_keeps_children_listed() {
    let (mut world, a, b, c, d) = sample();
    world.despawn(a);
    assert_eq!(world.entities_dfs(), vec![EntityId(0), b, d, c]);
    assert!(!world.get(a).unwrap().active);
    world.despawn(EntityId(0));
    assert!(world.get(EntityId(0)).unwrap().active);
}

#[test]
fn remove_detaches_whole_subtree() {
    let (mut world, a, b, c, d) = sample();
    world.remove(a);
    assert_eq!(world.entities_dfs(), vec![EntityId(0), c]);
    assert_eq!(world.children(EntityId(0)), vec![c]);
    assert_eq!(world.parent(a), None);
    assert_eq!(world.parent(b), None);
    assert_eq!(world.children(a), Vec::<EntityId>::new());
    assert!(world.get(d).is_some());
}

#[test]
fn remove_keeps_order_of_the_rest() {
    let (mut world, a, b, c, d) = sample();
    let e = world.spawn(d);
    world.despawn(c);
    world.remove(b);
    assert_eq!(world.entities_dfs(), vec![EntityId(0), a, d, e]);
    world.remove(d);
    assert_eq!(world.entities_dfs(), vec![EntityId(0), a]);
    // a detached entity is removed again without effect
    world.remove(d);
    assert_eq!(world.entities_dfs(), vec![EntityId(0), a]);
}

#[test]
fn reparent_moves_subtree_to_end() {
    let (mut world, a, b, c, d) = sample();
    world.reparent(a, c);
    assert_eq!(world.children(EntityId(0)), vec![c]);
    assert_eq!(world.children(c), vec![a]);
    assert_eq!(world.parent(a), Some(c));
    assert_eq!(world.entities_dfs(), vec![EntityId(0), c, a, b, d]);
    assert!(world.subtree_contains(c, d));
    assert!(!world.subtree_contains(a, c));
}

#[test]
fn path_from_root_lists_ancestors() {
    let (world, a, _b, _c, d) = sample();
    assert_eq!(world.path_from_root(d), vec![EntityId(0), a, d]);
    assert_eq!(world.path_from_root(EntityId(0)), vec![EntityId(0)]);
}

#[test]
fn primitive_tree_text() {
    let (mut world, a, b, c, _d) = sample();
    world.set_primitive(a, Primitive::ThreeD(Primitive3D::Cube));
    world.set_material(a, Some("flat".to_string()));
    world.set_primitive(b, Primitive::TwoD(Primitive2D::Circle));
    world.despawn(c);
    assert_eq!(
        format_primitive_tree(&world),
        "0: Entity\n  1: Cube [flat]\n    2: Circle\n    4: Entity\n"
    );
}

#[test]
fn from_parts_rejects_broken_parts() {
    let (world, _a, _b, _c, _d) = sample();
    let mut parts = world.to_parts();
    // a cycle: the root becomes a child of its own child
    parts.parents[0] = Some(1);
    parts.children[1].push(0);
    assert!(World::from_parts(parts).is_none());

    let mut parts = world.to_parts();
    parts.children[3].push(2); // 2 listed under 3, but its parent is 1
    assert!(World::from_parts(parts).is_none());

    let mut parts = world.to_parts();
    parts.children[0].push(1); // 1 listed twice under the root
    assert!(World::from_parts(parts).is_none());

    let mut parts = world.to_parts();
    parts.data.pop();
    assert!(World::from_parts(parts).is_none());

    let empty = WorldParts { parents: vec![], children: vec![], data: vec![] };
    assert!(World::from_parts(empty).is_none());

    assert!(World::from_parts(world.to_parts()).is_some());
}

#[test]
fn data_edits_through_get_mut_and_transforms() {
    let (mut world, a, _b, _c, _d) = sample();
    let pos = [1.0f32.to_bits(), 2.0f32.to_bits(), 3.0f32.to_bits()];
    let rot = [0.5f32.to_bits(), 0, 0];
    if let Some(data) = world.get_mut(a) {
        data.transform = Transform::with_position_rotation(pos, rot);
    }
    let t = world.get(a).unwrap().transform;
    assert_eq!(t.position, pos);
    assert_eq!(t.rotation, rot);
    assert_eq!(t.scale, [1.0f32.to_bits(); 3]);
    assert!(world.get_mut(EntityId(99)).is_none());
    assert_eq!(world.len(), 5);
}
