//! Scene layer: world graph, entities, components.
//!
//! The world is a hierarchical scene graph: each entity has at most one parent and an ordered
//! list of children. Use `World::root_entity`, `World::children`, `World::parent`, and
//! `World::entities_dfs` to traverse it.

pub mod entity;
pub mod node_data;
pub mod primitive;
pub mod transform;
pub mod world;

pub use entity::EntityId;
pub use node_data::NodeData;
pub use primitive::{primitive_label, CurvePoint, Primitive, Primitive2D, Primitive3D};
pub use transform::Transform;
pub use world::{World, WorldParts};
