//! Scene types used by the web build, exercised natively.

use render::{EntityId, Primitive, Primitive2D, Transform, World};

#[test]
fn world_spawn_wasm() {
    let mut world = World::new();
    let root = EntityId(0);
    let a = world.spawn(root);

    world.set_transform(a, Transform::default());
    world.set_primitive(a, Primitive::TwoD(Primitive2D::Quad));

    let node = world.get(a).unwrap();
    assert!(node.primitive == Some(Primitive::TwoD(Primitive2D::Quad)));
}

// The web-only suite runs in the browser; natively this placeholder keeps the file's test binary.
#[test]
fn wasm_test_skipped_on_native() {}
