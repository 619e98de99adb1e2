//! Decisions of the interactive canvas: the selection handles, the tools, the
//! transform modes and what a press or a release of the pointer does.
//!
//! Geometry (distances, hit radii, bounding boxes) is measured by the caller;
//! the functions here take its outcome as plain values and decide.
use vstd::prelude::*;

use crate::selection::{merge_rect_selection, merged, select_only, toggle_selection, toggled};

verus! {

/// The handles drawn around a selection: eight resize handles on the box and
/// one rotate handle above it.
#[derive(Clone, Copy, Debug, PartialEq, Eq, Structural)]
pub enum HandlePosition {
    TopLeft,
    TopCenter,
    TopRight,
    MiddleLeft,
    MiddleRight,
    BottomLeft,
    BottomCenter,
    BottomRight,
    Rotate,
}

/// The handle across the box from `h`; the rotate handle is its own opposite.
pub open spec fn opposite_of(h: HandlePosition) -> HandlePosition {
    match h {
        HandlePosition::TopLeft => HandlePosition::BottomRight,
        HandlePosition::TopCenter => HandlePosition::BottomCenter,
        HandlePosition::TopRight => HandlePosition::BottomLeft,
        HandlePosition::MiddleLeft => HandlePosition::MiddleRight,
        HandlePosition::MiddleRight => HandlePosition::MiddleLeft,
        HandlePosition::BottomLeft => HandlePosition::TopRight,
        HandlePosition::BottomCenter => HandlePosition::TopCenter,
        HandlePosition::BottomRight => HandlePosition::TopLeft,
        HandlePosition::Rotate => HandlePosition::Rotate,
    }
}

/// Where a resize handle sits on the box, as (row, column): rows 0, 1, 2 from
/// top to bottom, columns 0, 1, 2 from left to right. The rotate handle has
/// no place on the box.
pub open spec fn handle_cell(h: HandlePosition) -> Option<(int, int)> {
    match h {
        HandlePosition::TopLeft => Some((0, 0)),
        HandlePosition::TopCenter => Some((0, 1)),
        HandlePosition::TopRight => Some((0, 2)),
        HandlePosition::MiddleLeft => Some((1, 0)),
        HandlePosition::MiddleRight => Some((1, 2)),
        HandlePosition::BottomLeft => Some((2, 0)),
        HandlePosition::BottomCenter => Some((2, 1)),
        HandlePosition::BottomRight => Some((2, 2)),
        HandlePosition::Rotate => None,
    }
}

impl HandlePosition {
    /// The handle that stays fixed while this one is dragged.
    pub fn opposite(&self) -> (r: HandlePosition)
        ensures
            r == opposite_of(*self),
    {
        match self {
            HandlePosition::TopLeft => HandlePosition::BottomRight,
            HandlePosition::TopCenter => HandlePosition::BottomCenter,
            HandlePosition::TopRight => HandlePosition::BottomLeft,
            HandlePosition::MiddleLeft => HandlePosition::MiddleRight,
            HandlePosition::MiddleRight => HandlePosition::MiddleLeft,
            HandlePosition::BottomLeft => HandlePosition::TopRight,
            HandlePosition::BottomCenter => HandlePosition::TopCenter,
            HandlePosition::BottomRight => HandlePosition::TopLeft,
            HandlePosition::Rotate => HandlePosition::Rotate,
        }
    }
}

/// Taking the opposite twice gives the handle back, and only the rotate
/// handle is its own opposite.
pub proof fn lemma_opposite_involution(h: HandlePosition)
    ensures
        opposite_of(opposite_of(h)) == h,
        opposite_of(h) == h <==> h == HandlePosition::Rotate,
{
}

/// The opposite of a resize handle is its reflection through the centre of
/// the box: row and column both mirrored.
pub proof fn lemma_opposite_mirrors(h: HandlePosition)
    requires
        h != HandlePosition::Rotate,
    ensures
        handle_cell(h) matches Some(c) && handle_cell(opposite_of(h)) == Some((2 - c.0, 2 - c.1)),
{
}

/// The canvas tools.
#[derive(Clone, Copy, Debug, PartialEq, Eq, Structural)]
pub enum Tool {
    Select,
    Pan,
}

impl Default for Tool {
    /// The select tool.
    fn default() -> (t: Tool)
        ensures
            t == Tool::Select,
    {
        Tool::Select
    }
}

/// What a drag on the canvas is doing.
#[derive(Clone, Copy, Debug, PartialEq, Eq, Structural)]
pub enum TransformMode {
    Idle,
    Moving,
    Scaling { handle: HandlePosition },
    EditingPoint { path_id: u128, element_idx: usize },
    RectSelect,
    Rotating,
}

/// What the caller measured at a press (click or start of a drag) of the
/// select tool, in the order in which the canvas tests it.
#[derive(Clone, Copy, Debug)]
pub struct PressFacts {
    /// The first selection handle within reach of the pointer, if any.
    pub handle: Option<HandlePosition>,
    /// Whether the pointer is near one of the selected paths.
    pub on_selected_path: bool,
    /// With exactly one path selected: the element of that path whose end
    /// point is nearest within reach.
    pub selected_vertex: Option<usize>,
    /// The nearest visible path of the active layer within reach.
    pub hit: Option<u128>,
    /// When the hit path has exactly two elements: its element whose end
    /// point is nearest within reach.
    pub hit_vertex: Option<usize>,
    /// Whether shift is held.
    pub shift: bool,
    /// Whether this press starts a drag (rather than being a click).
    pub drag_started: bool,
}

/// The selection and the mode after a press (see `InteractiveCanvas::press`);
/// a mode of `None` leaves the current mode as it is.
pub open spec fn press_outcome(sel: Seq<u128>, f: PressFacts) -> (Seq<u128>, Option<TransformMode>) {
    if f.handle is Some {
        let h = f.handle->0;
        if h == HandlePosition::Rotate {
            (sel, Some(TransformMode::Rotating))
        } else {
            (sel, Some(TransformMode::Scaling { handle: h }))
        }
    } else if f.on_selected_path {
        (sel, Some(TransformMode::Moving))
    } else if sel.len() == 1 && f.selected_vertex is Some {
        (sel, Some(TransformMode::EditingPoint { path_id: sel[0], element_idx: f.selected_vertex->0 }))
    } else if f.hit is Some {
        let id = f.hit->0;
        let s = if f.shift { toggled(sel, id) } else { seq![id] };
        if s.len() == 1 && f.hit_vertex is Some {
            (s, Some(TransformMode::EditingPoint { path_id: id, element_idx: f.hit_vertex->0 }))
        } else {
            (s, Some(TransformMode::Idle))
        }
    } else if f.drag_started && !f.shift {
        (sel, Some(TransformMode::RectSelect))
    } else if !f.shift {
        (Seq::empty(), None)
    } else {
        (sel, None)
    }
}

/// Whether `keys[i]` is a key below `limit`.
pub open spec fn below(keys: Seq<Option<u64>>, limit: u64, i: int) -> bool {
    keys[i] matches Some(k) && k < limit
}

/// `i` is the nearest candidate: its key is below `limit`, no key below
/// `limit` is smaller, and every earlier one is larger (the first of equals).
pub open spec fn is_nearest_below(keys: Seq<Option<u64>>, limit: u64, i: int) -> bool {
    &&& 0 <= i < keys.len()
    &&& below(keys, limit, i)
    &&& forall|j: int| 0 <= j < keys.len() && below(keys, limit, j) ==> keys[i]->0 <= #[trigger] keys[j]->0
    &&& forall|j: int| 0 <= j < i && below(keys, limit, j) ==> keys[i]->0 < #[trigger] keys[j]->0
}

/// The canvas on which paths are drawn, selected and transformed.
pub struct InteractiveCanvas;

impl InteractiveCanvas {
    /// Whether a pointer gesture pans the view: a drag with the middle or the
    /// secondary button, or a drag with shift held or with the pan tool.
    pub fn is_pan(dragged_middle: bool, dragged_secondary: bool, dragged: bool, shift: bool, tool: Tool) -> (r: bool)
        ensures
            r == (dragged_middle || dragged_secondary || (dragged && shift) || (dragged && tool == Tool::Pan)),
    {
        dragged_middle || dragged_secondary || (dragged && shift) || (dragged && tool == Tool::Pan)
    }

    /// Whether the pointer acts on paths: with the select tool, when not panning.
    pub fn selects(tool: Tool, panning: bool) -> (r: bool)
        ensures
            r == (tool == Tool::Select && !panning),
    {
        tool == Tool::Select && !panning
    }

    /// A press of the select tool, tested in order: a handle starts a resize
    /// (or a rotation for the rotate handle); a selected path under the
    /// pointer starts a move; with one path selected, a vertex of it under the
    /// pointer starts a point edit; a path under the pointer becomes the
    /// selection (shift toggles it in or out) and, when it is then the only
    /// one selected and has a vertex under the pointer, starts a point edit;
    /// otherwise a drag without shift starts a rectangle selection and a
    /// click without shift clears the selection. Returns the new mode, or
    /// `None` to keep the current one (see `press_outcome`).
    pub fn press(sel: &mut Vec<u128>, facts: &PressFacts) -> (r: Option<TransformMode>)
        ensures
            (final(sel)@, r) == press_outcome(old(sel)@, *facts),
    {
        if let Some(h) = facts.handle {
            if h == HandlePosition::Rotate {
                return Some(TransformMode::Rotating);
            }
            return Some(TransformMode::Scaling { handle: h });
        }
        if facts.on_selected_path {
            return Some(TransformMode::Moving);
        }
        if sel.len() == 1 {
            if let Some(idx) = facts.selected_vertex {
                return Some(TransformMode::EditingPoint { path_id: sel[0], element_idx: idx });
            }
        }
        if let Some(id) = facts.hit {
            if facts.shift {
                toggle_selection(sel, id);
            } else {
                select_only(sel, id);
            }
            if sel.len() == 1 {
                if let Some(idx) = facts.hit_vertex {
                    return Some(TransformMode::EditingPoint { path_id: id, element_idx: idx });
                }
            }
            return Some(TransformMode::Idle);
        }
        if facts.drag_started && !facts.shift {
            return Some(TransformMode::RectSelect);
        }
        if !facts.shift {
            sel.clear();
        }
        None
    }

    /// The end of a drag. A rectangle selection replaces the selection by the
    /// paths it hit (`hits`, in document order), or adds them with shift held,
    /// and returns `false`; any other mode returns `true`: the caller then
    /// turns the drag into a pending transform. Either way the mode goes back
    /// to `Idle`.
    pub fn release(sel: &mut Vec<u128>, mode: &mut TransformMode, hits: &Vec<u128>, shift: bool) -> (r: bool)
        ensures
            r == (*old(mode) != TransformMode::RectSelect),
            *final(mode) == TransformMode::Idle,
            *old(mode) == TransformMode::RectSelect ==> final(sel)@ == merged(
                if shift { old(sel)@ } else { Seq::empty() },
                hits@,
            ),
            *old(mode) != TransformMode::RectSelect ==> final(sel)@ == old(sel)@,
    {
        let ended = *mode;
        *mode = TransformMode::Idle;
        if ended == TransformMode::RectSelect {
            let r = merge_rect_selection(sel, hits, shift);
            *sel = r;
            false
        } else {
            true
        }
    }

    /// The nearest of a set of candidates: `keys[i]` is the distance to
    /// candidate `i` (the bit pattern of a non-negative double, which orders
    /// as the distance does), or `None` for one that is not considered.
    /// Returns the first candidate with the smallest key below `limit`, or
    /// `None` when no key is below `limit`.
    pub fn nearest_below(keys: &Vec<Option<u64>>, limit: u64) -> (r: Option<usize>)
        ensures
            r matches Some(i) ==> is_nearest_below(keys@, limit, i as int),
            r is None <==> forall|j: int| 0 <= j < keys@.len() ==> !#[trigger] below(keys@, limit, j),
    {
        let mut best: Option<usize> = None;
        let mut best_key: u64 = 0;
        let mut i: usize = 0;
        while i < keys.len()
            invariant
                i <= keys@.len(),
                best is None ==> forall|j: int| 0 <= j < i ==> !#[trigger] below(keys@, limit, j),
                best matches Some(b) ==> {
                    &&& b < i
                    &&& below(keys@, limit, b as int)
                    &&& keys@[b as int]->0 == best_key
                    &&& forall|j: int| 0 <= j < i && below(keys@, limit, j) ==> best_key <= #[trigger] keys@[j]->0
                    &&& forall|j: int| 0 <= j < b && below(keys@, limit, j) ==> best_key < #[trigger] keys@[j]->0
                },
            decreases keys@.len() - i,
        {
            if let Some(k) = keys[i] {
                if k < limit {
                    match best {
                        Some(_) => {
                            if k < best_key {
                                best = Some(i);
                                best_key = k;
                            }
                        },
                        None => {
                            best = Some(i);
                            best_key = k;
                        },
                    }
                }
            }
            assert(keys@[i as int] matches Some(k) ==> keys@[i as int]->0 == k);
            i = i + 1;
        }
        best
    }
}

} // verus!
