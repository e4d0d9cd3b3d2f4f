//! Pointer interaction of the UI layer: which control is hovered and pressed, the visual state
//! of every control, checkbox toggles, slider drags and button clicks.
//!
//! The renderer keeps the geometry (rects, slider values) of each window's controls and hit-tests
//! the cursor; this state machine holds what the interaction logic reads and decides.

use vstd::prelude::*;

use crate::ui::{ControlId, ControlState};

verus! {

/// A control under the cursor: window index, child index, and whether it is a slider's thumb.
#[derive(Clone, Copy, Debug, PartialEq, Eq, Structural)]
pub struct HoverTarget {
    /// Index of the window (last = front).
    pub window_idx: usize,
    /// Index of the child control in its window.
    pub child_idx: usize,
    /// Whether the target is a slider's thumb rather than its track.
    pub is_slider_thumb: bool,
}

/// Kind of a window child.
#[derive(Clone, Copy, Debug, PartialEq, Eq, Structural)]
pub enum ControlKind {
    /// Push button; a click emits its id.
    Button,
    /// Checkbox; a click toggles it.
    Checkbox,
    /// Slider; its thumb can be dragged.
    Slider,
    /// Text label; not interactive.
    Label,
}

/// Interaction-relevant part of a window child.
#[derive(Clone, Copy, Debug, PartialEq, Eq, Structural)]
pub struct ControlSlot {
    /// Kind of control.
    pub kind: ControlKind,
    /// Control id.
    pub id: ControlId,
    /// Hover / pressed state (unused for labels).
    pub state: ControlState,
    /// Checked state (checkboxes).
    pub checked: bool,
    /// Whether the thumb is being dragged (sliders).
    pub dragging: bool,
}

/// Interaction state of the UI layer.
pub struct UiInteraction {
    /// The controls of each window, in window order (last = front).
    pub windows: Vec<Vec<ControlSlot>>,
    /// Control under the cursor.
    pub hover: Option<HoverTarget>,
    /// Control that has the mouse pressed.
    pub pressed: Option<HoverTarget>,
    /// Last button clicked, until taken.
    pub last_clicked: Option<ControlId>,
}

/// Whether `t` points at child `ci` of window `wi`.
pub open spec fn at(t: Option<HoverTarget>, wi: int, ci: int) -> bool {
    t matches Some(h) && h.window_idx == wi && h.child_idx == ci
}

/// The state a control shows: pressed if it is the pressed control, else hovered if it is under
/// the cursor, else normal.
pub open spec fn shown_state(hover: Option<HoverTarget>, pressed: Option<HoverTarget>, wi: int, ci: int) -> ControlState {
    if at(pressed, wi, ci) {
        ControlState::Pressed
    } else if at(hover, wi, ci) {
        ControlState::Hover
    } else {
        ControlState::Normal
    }
}

/// A control after its state is synchronised: buttons, checkboxes and sliders that are not
/// being dragged take the shown state; labels and dragged sliders keep theirs.
pub open spec fn synced_slot(s: ControlSlot, st: ControlState) -> ControlSlot {
    match s.kind {
        ControlKind::Button => ControlSlot { state: st, ..s },
        ControlKind::Checkbox => ControlSlot { state: st, ..s },
        ControlKind::Slider => if s.dragging {
            s
        } else {
            ControlSlot { state: st, ..s }
        },
        ControlKind::Label => s,
    }
}

/// All controls synchronised with `hover` and `pressed`.
pub open spec fn synced(w: Seq<Seq<ControlSlot>>, hover: Option<HoverTarget>, pressed: Option<HoverTarget>) -> Seq<Seq<ControlSlot>> {
    Seq::new(
        w.len(),
        |wi: int| Seq::new(w[wi].len(), |ci: int| synced_slot(w[wi][ci], shown_state(hover, pressed, wi, ci))),
    )
}

/// Whether `t` names an existing child.
pub open spec fn in_range(w: Seq<Seq<ControlSlot>>, t: HoverTarget) -> bool {
    t.window_idx < w.len() && t.child_idx < w[t.window_idx as int].len()
}

/// The child `t` names.
pub open spec fn slot_at(w: Seq<Seq<ControlSlot>>, t: HoverTarget) -> ControlSlot {
    w[t.window_idx as int][t.child_idx as int]
}

/// `w` with the child `t` names replaced by `s`.
pub open spec fn with_slot(w: Seq<Seq<ControlSlot>>, t: HoverTarget, s: ControlSlot) -> Seq<Seq<ControlSlot>> {
    w.update(t.window_idx as int, w[t.window_idx as int].update(t.child_idx as int, s))
}

impl UiInteraction {
    /// The controls of every window as sequences.
    pub open spec fn slots(self) -> Seq<Seq<ControlSlot>> {
        self.windows@.map_values(|w: Vec<ControlSlot>| w@)
    }

    /// No windows, nothing hovered, pressed or clicked.
    pub fn new() -> (u: Self)
        ensures
            u.slots() == Seq::<Seq<ControlSlot>>::empty(),
            u.hover is None,
            u.pressed is None,
            u.last_clicked is None,
    {
        let u = UiInteraction { windows: Vec::new(), hover: None, pressed: None, last_clicked: None };
        assert(u.slots() =~= Seq::<Seq<ControlSlot>>::empty());
        u
    }

    /// Add a window with the given controls on top.
    pub fn add_window(&mut self, controls: Vec<ControlSlot>)
        ensures
            final(self).slots() == old(self).slots().push(controls@),
            final(self).hover == old(self).hover,
            final(self).pressed == old(self).pressed,
            final(self).last_clicked == old(self).last_clicked,
    {
        let ghost before = self.slots();
        self.windows.push(controls);
        assert(self.slots() =~= before.push(controls@));
    }

    /// The child `t` names, if it exists.
    fn slot(&self, t: HoverTarget) -> (r: Option<ControlSlot>)
        ensures
            r is Some <==> in_range(self.slots(), t),
            r matches Some(s) ==> s == slot_at(self.slots(), t),
    {
        if t.window_idx < self.windows.len() && t.child_idx < self.windows[t.window_idx].len() {
            Some(self.windows[t.window_idx][t.child_idx])
        } else {
            None
        }
    }

    /// Replace the child `t` names, which exists.
    fn put_slot(&mut self, t: HoverTarget, s: ControlSlot)
        requires
            in_range(old(self).slots(), t),
        ensures
            final(self).slots() == with_slot(old(self).slots(), t, s),
            final(self).hover == old(self).hover,
            final(self).pressed == old(self).pressed,
            final(self).last_clicked == old(self).last_clicked,
    {
        let ghost before = self.slots();
        let wi = t.window_idx;
        let mut row: Vec<ControlSlot> = Vec::new();
        std::mem::swap(&mut row, &mut self.windows[wi]);
        row.set(t.child_idx, s);
        std::mem::swap(&mut row, &mut self.windows[wi]);
        assert(self.slots() =~= with_slot(before, t, s));
    }
}

/// The state a control at `(wi, ci)` shows.
fn state_for(hover: Option<HoverTarget>, pressed: Option<HoverTarget>, wi: usize, ci: usize) -> (st: ControlState)
    ensures
        st == shown_state(hover, pressed, wi as int, ci as int),
{
    let is_pressed = match pressed {
        Some(p) => p.window_idx == wi && p.child_idx == ci,
        None => false,
    };
    let is_hovered = match hover {
        Some(h) => h.window_idx == wi && h.child_idx == ci,
        None => false,
    };
    if is_pressed {
        ControlState::Pressed
    } else if is_hovered {
        ControlState::Hover
    } else {
        ControlState::Normal
    }
}

/// A control synchronised to state `st`.
fn sync_slot(s: ControlSlot, st: ControlState) -> (r: ControlSlot)
    ensures
        r == synced_slot(s, st),
{
    match s.kind {
        ControlKind::Button => ControlSlot { state: st, ..s },
        ControlKind::Checkbox => ControlSlot { state: st, ..s },
        ControlKind::Slider => if s.dragging {
            s
        } else {
            ControlSlot { state: st, ..s }
        },
        ControlKind::Label => s,
    }
}

impl UiInteraction {
    /// Set every control's shown state from the hovered and pressed controls (dragged sliders
    /// and labels keep theirs).
    pub fn sync_control_states(&mut self)
        ensures
            final(self).slots() == synced(old(self).slots(), old(self).hover, old(self).pressed),
            final(self).hover == old(self).hover,
            final(self).pressed == old(self).pressed,
            final(self).last_clicked == old(self).last_clicked,
    {
        let ghost w0 = self.slots();
        let ghost target = synced(w0, self.hover, self.pressed);
        let ghost h0 = self.hover;
        let ghost p0 = self.pressed;
        let ghost l0 = self.last_clicked;
        let n = self.windows.len();
        let mut wi: usize = 0;
        while wi < n
            invariant
                n == w0.len(),
                self.windows@.len() == n,
                target == synced(w0, h0, p0),
                self.hover == h0,
                self.pressed == p0,
                self.last_clicked == l0,
                wi <= n,
                forall|i: int| 0 <= i < wi ==> #[trigger] self.slots()[i] == target[i],
                forall|i: int| wi <= i < n ==> #[trigger] self.slots()[i] == w0[i],
            decreases n - wi,
        {
            let ghost before = self.slots();
            let ghost old_windows = self.windows@;
            assert(before[wi as int] == old_windows[wi as int]@);
            let mut row: Vec<ControlSlot> = Vec::new();
            std::mem::swap(&mut row, &mut self.windows[wi]);
            assert(row == old_windows[wi as int]);
            assert(row@ == w0[wi as int]);
            let m = row.len();
            let mut ci: usize = 0;
            while ci < m
                invariant
                    row@.len() == m,
                    m == w0[wi as int].len(),
                    wi < n,
                    n == w0.len(),
                    target == synced(w0, h0, p0),
                    self.hover == h0,
                    self.pressed == p0,
                    ci <= m,
                    forall|j: int| 0 <= j < ci ==> #[trigger] row@[j] == target[wi as int][j],
                    forall|j: int| ci <= j < m ==> #[trigger] row@[j] == w0[wi as int][j],
                decreases m - ci,
            {
                let st = state_for(self.hover, self.pressed, wi, ci);
                let ns = sync_slot(row[ci], st);
                row.set(ci, ns);
                ci = ci + 1;
            }
            std::mem::swap(&mut row, &mut self.windows[wi]);
            proof {
                assert(row@.len() == 0);
                assert(self.slots()[wi as int] =~= target[wi as int]);
                assert forall|i: int| 0 <= i < n && i != wi implies #[trigger] self.slots()[i] == before[i] by {}
            }
            wi = wi + 1;
        }
        assert(self.slots() =~= target);
    }
}

/// A control given state `st` by a press or a release; a dragged slider keeps its state unless
/// `clear` is set; labels are unaffected.
pub open spec fn child_state_set(s: ControlSlot, st: ControlState, clear: bool) -> ControlSlot {
    match s.kind {
        ControlKind::Button => ControlSlot { state: st, ..s },
        ControlKind::Checkbox => ControlSlot { state: st, ..s },
        ControlKind::Slider => if !s.dragging || clear {
            ControlSlot { state: st, ..s }
        } else {
            s
        },
        ControlKind::Label => s,
    }
}

/// The controls after the mouse is pressed over `hover`: a slider thumb starts dragging, any
/// other control shows as pressed.
pub open spec fn after_press(w: Seq<Seq<ControlSlot>>, hover: Option<HoverTarget>) -> Seq<Seq<ControlSlot>> {
    match hover {
        None => w,
        Some(t) => if !in_range(w, t) {
            w
        } else if t.is_slider_thumb {
            if slot_at(w, t).kind is Slider {
                with_slot(w, t, ControlSlot { dragging: true, state: ControlState::Pressed, ..slot_at(w, t) })
            } else {
                w
            }
        } else {
            with_slot(w, t, child_state_set(slot_at(w, t), ControlState::Pressed, false))
        },
    }
}

/// The controls after the mouse is released while `pressed` was pressed and `hover` is under
/// the cursor: a dragged slider stops; a checkbox released over itself toggles; the control
/// shows as normal again.
pub open spec fn after_release(
    w: Seq<Seq<ControlSlot>>,
    pressed: Option<HoverTarget>,
    hover: Option<HoverTarget>,
) -> Seq<Seq<ControlSlot>> {
    match pressed {
        None => w,
        Some(t) => if !in_range(w, t) {
            w
        } else if t.is_slider_thumb {
            if slot_at(w, t).kind is Slider {
                with_slot(
                    w,
                    t,
                    ControlSlot {
                        dragging: false,
                        state: if hover == Some(t) {
                            ControlState::Hover
                        } else {
                            ControlState::Normal
                        },
                        ..slot_at(w, t)
                    },
                )
            } else {
                w
            }
        } else {
            let s = slot_at(w, t);
            let s1 = if s.kind is Checkbox && hover == Some(t) {
                ControlSlot { checked: !s.checked, ..s }
            } else {
                s
            };
            with_slot(w, t, child_state_set(s1, ControlState::Normal, true))
        },
    }
}

/// The button a release clicks: the pressed control when it is a button (not a slider thumb)
/// and the cursor is still over it.
pub open spec fn click_of(
    w: Seq<Seq<ControlSlot>>,
    pressed: Option<HoverTarget>,
    hover: Option<HoverTarget>,
) -> Option<ControlId> {
    match pressed {
        Some(t) => if in_range(w, t) && !t.is_slider_thumb && slot_at(w, t).kind is Button && hover
            == Some(t) {
            Some(slot_at(w, t).id)
        } else {
            None
        },
        None => None,
    }
}

/// Replacing an existing child twice keeps the second replacement.
proof fn lemma_with_slot(w: Seq<Seq<ControlSlot>>, t: HoverTarget, a: ControlSlot, b: ControlSlot)
    requires
        in_range(w, t),
    ensures
        in_range(with_slot(w, t, a), t),
        slot_at(with_slot(w, t, a), t) == a,
        with_slot(with_slot(w, t, a), t, b) == with_slot(w, t, b),
{
    let wi = t.window_idx as int;
    let ci = t.child_idx as int;
    assert(w[wi].update(ci, a).update(ci, b) =~= w[wi].update(ci, b));
    assert(with_slot(with_slot(w, t, a), t, b) =~= with_slot(w, t, b));
}

/// Whether `a` is `Some(t)`.
fn is_target(a: Option<HoverTarget>, t: HoverTarget) -> (r: bool)
    ensures
        r == (a == Some(t)),
{
    match a {
        Some(h) => h.window_idx == t.window_idx && h.child_idx == t.child_idx && h.is_slider_thumb
            == t.is_slider_thumb,
        None => false,
    }
}

impl UiInteraction {
    /// Give the child `t` names state `st` (see `child_state_set`); no-op when it does not exist.
    fn set_child_state(&mut self, t: HoverTarget, st: ControlState, clear: bool)
        ensures
            final(self).slots() == if in_range(old(self).slots(), t) {
                with_slot(old(self).slots(), t, child_state_set(slot_at(old(self).slots(), t), st, clear))
            } else {
                old(self).slots()
            },
            final(self).hover == old(self).hover,
            final(self).pressed == old(self).pressed,
            final(self).last_clicked == old(self).last_clicked,
    {
        if let Some(s) = self.slot(t) {
            let ns = match s.kind {
                ControlKind::Button => ControlSlot { state: st, ..s },
                ControlKind::Checkbox => ControlSlot { state: st, ..s },
                ControlKind::Slider => if !s.dragging || clear {
                    ControlSlot { state: st, ..s }
                } else {
                    s
                },
                ControlKind::Label => s,
            };
            self.put_slot(t, ns);
        }
    }

    /// The cursor moved over `hit` (the hit-tested control, if any). Returns the slider whose
    /// thumb is being dragged, as (window, child), when the pressed thumb is still under the
    /// cursor; the renderer then moves its value. Control states are synchronised.
    pub fn pointer_moved(&mut self, hit: Option<HoverTarget>) -> (drag: Option<(usize, usize)>)
        ensures
            final(self).hover == hit,
            final(self).pressed == old(self).pressed,
            final(self).last_clicked == old(self).last_clicked,
            final(self).slots() == synced(old(self).slots(), hit, old(self).pressed),
            drag == match old(self).pressed {
                Some(p) => if hit == Some(p) && p.is_slider_thumb && in_range(old(self).slots(), p)
                    && slot_at(old(self).slots(), p).kind is Slider {
                    Some((p.window_idx, p.child_idx))
                } else {
                    None
                },
                None => None,
            },
    {
        self.hover = hit;
        let drag = match self.pressed {
            Some(p) => if is_target(hit, p) && p.is_slider_thumb {
                match self.slot(p) {
                    Some(s) => if matches!(s.kind, ControlKind::Slider) {
                        Some((p.window_idx, p.child_idx))
                    } else {
                        None
                    },
                    None => None,
                }
            } else {
                None
            },
            None => None,
        };
        self.sync_control_states();
        drag
    }

    /// The mouse was pressed: the hovered control becomes the pressed one (see `after_press`).
    pub fn pointer_down(&mut self)
        ensures
            final(self).pressed == old(self).hover,
            final(self).hover == old(self).hover,
            final(self).last_clicked == old(self).last_clicked,
            final(self).slots() == after_press(old(self).slots(), old(self).hover),
    {
        self.pressed = self.hover;
        if let Some(t) = self.pressed {
            if t.is_slider_thumb {
                if let Some(s) = self.slot(t) {
                    if matches!(s.kind, ControlKind::Slider) {
                        self.put_slot(t, ControlSlot { dragging: true, state: ControlState::Pressed, ..s });
                    }
                }
            } else {
                self.set_child_state(t, ControlState::Pressed, false);
            }
        }
    }

    /// The mouse was released: nothing is pressed any more; a button released over itself is
    /// clicked (see `click_of`), other effects as `after_release`; states are synchronised.
    pub fn pointer_up(&mut self)
        ensures
            final(self).pressed is None,
            final(self).hover == old(self).hover,
            final(self).last_clicked == match click_of(old(self).slots(), old(self).pressed, old(self).hover) {
                Some(id) => Some(id),
                None => old(self).last_clicked,
            },
            final(self).slots() == synced(
                after_release(old(self).slots(), old(self).pressed, old(self).hover),
                old(self).hover,
                None,
            ),
    {
        let was_pressed = self.pressed.take();
        if let Some(t) = was_pressed {
            let over = is_target(self.hover, t);
            if t.is_slider_thumb {
                if let Some(s) = self.slot(t) {
                    if matches!(s.kind, ControlKind::Slider) {
                        let st = if over {
                            ControlState::Hover
                        } else {
                            ControlState::Normal
                        };
                        self.put_slot(t, ControlSlot { dragging: false, state: st, ..s });
                    }
                }
            } else {
                if let Some(s) = self.slot(t) {
                    match s.kind {
                        ControlKind::Button => {
                            if over {
                                self.last_clicked = Some(s.id);
                            }
                        },
                        ControlKind::Checkbox => {
                            if over {
                                let ns = ControlSlot { checked: !s.checked, ..s };
                                proof {
                                    lemma_with_slot(
                                        self.slots(),
                                        t,
                                        ns,
                                        child_state_set(ns, ControlState::Normal, true),
                                    );
                                }
                                self.put_slot(t, ns);
                            }
                        },
                        ControlKind::Slider => {},
                        ControlKind::Label => {},
                    }
                }
                self.set_child_state(t, ControlState::Normal, true);
            }
        }
        self.sync_control_states();
    }

    /// The last clicked button, cleared on return.
    pub fn take_clicked_control(&mut self) -> (r: Option<ControlId>)
        ensures
            r == old(self).last_clicked,
            final(self).last_clicked is None,
            final(self).hover == old(self).hover,
            final(self).pressed == old(self).pressed,
            final(self).slots() == old(self).slots(),
    {
        self.last_clicked.take()
    }
}

/// Law: pressing and releasing the mouse over a button, without moving off it, clicks that
/// button: its id is what `take_clicked_control` returns next.
pub proof fn lemma_press_release_clicks(
    u0: UiInteraction,
    u1: UiInteraction,
    u2: UiInteraction,
    t: HoverTarget,
)
    requires
        u0.hover == Some(t),
        !t.is_slider_thumb,
        in_range(u0.slots(), t),
        slot_at(u0.slots(), t).kind is Button,
        u1.pressed == u0.hover,
        u1.hover == u0.hover,
        u1.slots() == after_press(u0.slots(), u0.hover),
        u2.last_clicked == match click_of(u1.slots(), u1.pressed, u1.hover) {
            Some(id) => Some(id),
            None => u1.last_clicked,
        },
    ensures
        u2.last_clicked == Some(slot_at(u0.slots(), t).id),
{
    let w = u0.slots();
    let w1 = u1.slots();
    assert(w1 == with_slot(w, t, child_state_set(slot_at(w, t), ControlState::Pressed, false)));
    assert(in_range(w1, t));
    assert(slot_at(w1, t) == child_state_set(slot_at(w, t), ControlState::Pressed, false));
}

/// Law: a release changes the `checked` flag of a control only when the control is the pressed
/// checkbox (not a slider thumb) and the cursor is still over it, and then it flips the flag.
/// In particular a release away from the pressed checkbox leaves it as it was.
pub proof fn lemma_release_checked(
    w: Seq<Seq<ControlSlot>>,
    pressed: Option<HoverTarget>,
    hover: Option<HoverTarget>,
    wi: int,
    ci: int,
)
    requires
        0 <= wi < w.len(),
        0 <= ci < w[wi].len(),
    ensures
        ({
            let after = synced(after_release(w, pressed, hover), hover, None);
            &&& after.len() == w.len()
            &&& after[wi].len() == w[wi].len()
            &&& after[wi][ci].checked == if pressed matches Some(p) && p.window_idx == wi && p.child_idx
                == ci && !p.is_slider_thumb && hover == pressed && w[wi][ci].kind is Checkbox {
                !w[wi][ci].checked
            } else {
                w[wi][ci].checked
            }
        }),
{
    let r = after_release(w, pressed, hover);
    assert(r.len() == w.len() && r[wi].len() == w[wi].len());
    match pressed {
        Some(p) => {
            if in_range(w, p) && (p.window_idx != wi || p.child_idx != ci) {
                if p.window_idx == wi {
                    assert(r[wi][ci] == w[wi][ci]);
                } else {
                    assert(r[wi] == w[wi]);
                }
            }
        },
        None => {},
    }
}

/// Law: pressing the mouse and moving the cursor never change the `checked` flag of a control.
pub proof fn lemma_press_move_keep_checked(
    w: Seq<Seq<ControlSlot>>,
    hover: Option<HoverTarget>,
    pressed: Option<HoverTarget>,
    wi: int,
    ci: int,
)
    requires
        0 <= wi < w.len(),
        0 <= ci < w[wi].len(),
    ensures
        after_press(w, hover).len() == w.len(),
        after_press(w, hover)[wi].len() == w[wi].len(),
        after_press(w, hover)[wi][ci].checked == w[wi][ci].checked,
        synced(w, hover, pressed).len() == w.len(),
        synced(w, hover, pressed)[wi].len() == w[wi].len(),
        synced(w, hover, pressed)[wi][ci].checked == w[wi][ci].checked,
{
    let r = after_press(w, hover);
    match hover {
        Some(t) => {
            if in_range(w, t) && (t.window_idx != wi || t.child_idx != ci) {
                if t.window_idx == wi {
                    assert(r[wi][ci] == w[wi][ci]);
                } else {
                    assert(r[wi] == w[wi]);
                }
            }
        },
        None => {},
    }
}

/// Law: a release clicks a button exactly when a button (not a slider thumb) was pressed and the
/// cursor is still over it; the click names that button.
pub proof fn lemma_click_only_over_pressed_button(
    w: Seq<Seq<ControlSlot>>,
    pressed: Option<HoverTarget>,
    hover: Option<HoverTarget>,
)
    ensures
        click_of(w, pressed, hover) is Some <==> (pressed matches Some(t) && hover == pressed && !t.is_slider_thumb
            && t.window_idx < w.len() && t.child_idx < w[t.window_idx as int].len()
            && w[t.window_idx as int][t.child_idx as int].kind is Button),
        click_of(w, pressed, hover) matches Some(id) ==> id == w[pressed->0.window_idx as int][pressed->0.child_idx as int].id,
{
}

} // verus!
