//! Scene-side state of the engine: the worlds, which one is active, the selected entity and the
//! display modes chosen in the scene UI.

use vstd::prelude::*;

use crate::gizmo::GizmoMode;
use crate::scene::{EntityId, World};
use crate::view_mode::ViewMode;

verus! {

/// Worlds plus the selection and display settings that the scene UI edits.
pub struct SceneState {
    /// All worlds; `active_world` indexes the one shown and edited.
    pub worlds: Vec<World>,
    /// Index of the active world in `worlds`.
    pub active_world: usize,
    /// Currently selected entity (for the primitive selector and the gizmo).
    pub selected_entity: Option<EntityId>,
    /// How scene geometry is drawn.
    pub view_mode: ViewMode,
    /// Which transform the gizmo edits.
    pub gizmo_mode: GizmoMode,
    /// Whether the gizmo is hidden (e.g. while a modifier key is held).
    pub gizmo_hidden: bool,
}

impl SceneState {
    /// The active world index is valid and every world is well-formed.
    pub open spec fn wf(self) -> bool {
        &&& self.active_world < self.worlds@.len()
        &&& forall|i: int| 0 <= i < self.worlds@.len() ==> (#[trigger] self.worlds@[i]).wf()
    }

    /// The active world.
    pub open spec fn active(self) -> World {
        self.worlds@[self.active_world as int]
    }

    /// A scene with one empty world, nothing selected, solid view and translate gizmo.
    pub fn new() -> (s: Self)
        ensures
            s.wf(),
            s.worlds@.len() == 1,
            s.active_world == 0,
            s.selected_entity is None,
            s.view_mode == ViewMode::Solid,
            s.gizmo_mode == GizmoMode::Translate,
            !s.gizmo_hidden,
    {
        let mut worlds: Vec<World> = Vec::new();
        worlds.push(World::new());
        SceneState {
            worlds,
            active_world: 0,
            selected_entity: None,
            view_mode: ViewMode::Solid,
            gizmo_mode: GizmoMode::Translate,
            gizmo_hidden: false,
        }
    }

    /// Reference to the active world.
    pub fn world(&self) -> (w: &World)
        requires
            self.wf(),
        ensures
            *w == self.active(),
    {
        &self.worlds[self.active_world]
    }

    /// Set the active world by index. No-op if the index is out of bounds.
    pub fn set_active_world(&mut self, index: usize)
        ensures
            final(self).active_world == if index < old(self).worlds@.len() {
                index
            } else {
                old(self).active_world
            },
            final(self).worlds == old(self).worlds,
            final(self).selected_entity == old(self).selected_entity,
            final(self).view_mode == old(self).view_mode,
            final(self).gizmo_mode == old(self).gizmo_mode,
            final(self).gizmo_hidden == old(self).gizmo_hidden,
    {
        if index < self.worlds.len() {
            self.active_world = index;
        }
    }
}

/// A scene stays well-formed when only its active world is replaced, by a well-formed one.
pub proof fn lemma_active_replaced(before: SceneState, after: SceneState)
    requires
        before.wf(),
        after.active_world == before.active_world,
        after.worlds@.len() == before.worlds@.len(),
        forall|i: int|
            0 <= i < before.worlds@.len() && i != before.active_world ==> #[trigger] after.worlds@[i]
                == before.worlds@[i],
        after.active().wf(),
    ensures
        after.wf(),
{
    assert forall|i: int| 0 <= i < after.worlds@.len() implies (#[trigger] after.worlds@[i]).wf() by {
        if i != before.active_world {
            assert(after.worlds@[i] == before.worlds@[i]);
        }
    }
}

} // verus!
