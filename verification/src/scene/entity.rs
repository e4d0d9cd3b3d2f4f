//! Entity identifier.

use vstd::prelude::*;

verus! {

/// Entity id: index of the node in the world graph.
#[derive(Clone, Copy, Debug, PartialEq, Eq, Structural, Hash)]
pub struct EntityId(pub usize);

} // verus!
