//! Node data stored in world graph nodes.

use vstd::prelude::*;

use super::primitive::Primitive;
use super::transform::{spec_identity_transform, Transform, F32_ONE_BITS};

verus! {

/// Data attached to each entity (graph node).
#[derive(Clone, Debug)]
pub struct NodeData {
    /// Local transform.
    pub transform: Transform,
    /// Shape to render; None = no draw.
    pub primitive: Option<Primitive>,
    /// RGBA color, as `f32` bit patterns.
    pub color: [u32; 4],
    /// Material name; None = vertex color mode.
    pub material: Option<String>,
    /// If false, entity is despawned (excluded from iteration and rendering).
    pub active: bool,
}

/// Default node data: identity transform, no primitive, opaque white, no material, active.
pub open spec fn spec_default_node_data(d: NodeData) -> bool {
    &&& d.transform == spec_identity_transform()
    &&& d.primitive is None
    &&& d.color == [F32_ONE_BITS, F32_ONE_BITS, F32_ONE_BITS, F32_ONE_BITS]
    &&& d.material is None
    &&& d.active
}

impl Default for NodeData {
    fn default() -> (d: Self)
        ensures
            spec_default_node_data(d),
    {
        NodeData {
            transform: Transform::default(),
            primitive: None,
            color: [F32_ONE_BITS, F32_ONE_BITS, F32_ONE_BITS, F32_ONE_BITS],
            material: None,
            active: true,
        }
    }
}

/// Two node data agree field by field, the material name compared by its text.
pub open spec fn same_node_data(a: NodeData, b: NodeData) -> bool {
    &&& a.transform == b.transform
    &&& a.primitive == b.primitive
    &&& a.color == b.color
    &&& a.active == b.active
    &&& (a.material is Some <==> b.material is Some)
    &&& a.material is Some ==> a.material->0@ == b.material->0@
}

impl NodeData {
    /// A copy of this node data.
    pub fn duplicate(&self) -> (d: NodeData)
        ensures
            same_node_data(d, *self),
    {
        let material = match &self.material {
            Some(m) => Some(m.clone()),
            None => None,
        };
        NodeData {
            transform: self.transform,
            primitive: self.primitive,
            color: self.color,
            material,
            active: self.active,
        }
    }
}

} // verus!
