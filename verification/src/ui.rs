//! Logical UI control identifiers and states.

use vstd::prelude::*;

verus! {

/// Interaction state for a control.
#[derive(Clone, Copy, Debug, PartialEq, Eq, Structural)]
pub enum ControlState {
    /// Not hovered, not pressed.
    Normal,
    /// Cursor over control.
    Hover,
    /// Mouse down on control.
    Pressed,
}

impl Default for ControlState {
    fn default() -> (s: Self)
        ensures
            s == ControlState::Normal,
    {
        ControlState::Normal
    }
}

/// Unique id for a control (used for hit-test and callbacks).
#[derive(Clone, Copy, Debug, PartialEq, Eq, Structural, Hash)]
pub struct ControlId(pub u32);

/// Horizontal alignment of label text within its rect.
#[derive(Clone, Copy, Debug, PartialEq, Eq, Structural)]
pub enum LabelTextAlign {
    /// Text aligned to the left of the label rect.
    Left,
    /// Text centered horizontally within the label rect.
    Center,
    /// Text aligned to the right of the label rect.
    Right,
}

impl Default for LabelTextAlign {
    fn default() -> (a: Self)
        ensures
            a == LabelTextAlign::Left,
    {
        LabelTextAlign::Left
    }
}

} // verus!
