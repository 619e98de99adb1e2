use plotterdesigner::canvas::{HandlePosition, InteractiveCanvas, PressFacts, Tool, TransformMode};

const ALL: [HandlePosition; 9] = [
    HandlePosition::TopLeft,
    HandlePosition::TopCenter,
    HandlePosition::TopRight,
    HandlePosition::MiddleLeft,
    HandlePosition::MiddleRight,
    HandlePosition::BottomLeft,
    HandlePosition::BottomCenter,
    HandlePosition::BottomRight,
    HandlePosition::Rotate,
];

fn facts() -> PressFacts {
    PressFacts {
        handle: None,
        on_selected_path: false,
        selected_vertex: None,
        hit: None,
        hit_vertex: None,
        shift: false,
        drag_started: false,
    }
}

#[test]
fn opposite_handles() {
    assert_eq!(HandlePosition::TopLeft.opposite(), HandlePosition::BottomRight);
    assert_eq!(HandlePosition::TopCenter.opposite(), HandlePosition::BottomCenter);
    assert_eq!(HandlePosition::MiddleLeft.opposite(), HandlePosition::MiddleRight);
    assert_eq!(HandlePosition::BottomLeft.opposite(), HandlePosition::TopRight);
    assert_eq!(HandlePosition::Rotate.opposite(), HandlePosition::Rotate);
}

#[test]
fn opposite_is_an_involution_fixing_only_rotate() {
    for h in ALL {
        assert_eq!(h.opposite().opposite(), h);
        assert_eq!(h.opposite() == h, h == HandlePosition::Rotate);
    }
}

#[test]
fn default_tool_is_select() {
    assert_eq!(Tool::default(), Tool::Select);
}

#[test]
fn panning_gestures() {
    assert!(InteractiveCanvas::is_pan(true, false, false, false, Tool::Select));
    assert!(InteractiveCanvas::is_pan(false, true, false, false, Tool::Select));
    assert!(InteractiveCanvas::is_pan(false, false, true, true, Tool::Select));
    assert!(InteractiveCanvas::is_pan(false, false, true, false, Tool::Pan));
    assert!(!InteractiveCanvas::is_pan(false, false, true, false, Tool::Select));
    assert!(!InteractiveCanvas::is_pan(false, false, false, true, Tool::Pan));
    assert!(InteractiveCanvas::selects(Tool::Select, false));
    assert!(!InteractiveCanvas::selects(Tool::Select, true));
    assert!(!InteractiveCanvas::selects(Tool::Pan, false));
}

#[test]
fn press_on_a_handle_scales_or_rotates() {
    let mut sel = vec![1u128];
    let f = PressFacts { handle: Some(HandlePosition::TopRight), on_selected_path: true, ..facts() };
    assert_eq!(
        InteractiveCanvas::press(&mut sel, &f),
        Some(TransformMode::Scaling { handle: HandlePosition::TopRight })
    );
    let f = PressFacts { handle: Some(HandlePosition::Rotate), ..facts() };
    assert_eq!(InteractiveCanvas::press(&mut sel, &f), Some(TransformMode::Rotating));
    assert_eq!(sel, vec![1]);
}

#[test]
fn press_on_a_selected_path_moves() {
    let mut sel = vec![1u128, 2];
    let f = PressFacts { on_selected_path: true, hit: Some(3), ..facts() };
    assert_eq!(InteractiveCanvas::press(&mut sel, &f), Some(TransformMode::Moving));
    assert_eq!(sel, vec![1, 2]);
}

#[test]
fn press_on_a_vertex_of_the_only_selected_path_edits_it() {
    let mut sel = vec![4u128];
    let f = PressFacts { selected_vertex: Some(2), ..facts() };
    assert_eq!(
        InteractiveCanvas::press(&mut sel, &f),
        Some(TransformMode::EditingPoint { path_id: 4, element_idx: 2 })
    );
    let mut two = vec![4u128, 5];
    let f = PressFacts { selected_vertex: Some(2), ..facts() };
    assert_eq!(InteractiveCanvas::press(&mut two, &f), None);
    assert_eq!(two, Vec::<u128>::new());
}

#[test]
fn press_on_a_path_selects_it() {
    let mut sel = vec![1u128, 2];
    let f = PressFacts { hit: Some(3), ..facts() };
    assert_eq!(InteractiveCanvas::press(&mut sel, &f), Some(TransformMode::Idle));
    assert_eq!(sel, vec![3]);
}

#[test]
fn shift_press_on_a_path_toggles_it() {
    let mut sel = vec![1u128, 2];
    let f = PressFacts { hit: Some(2), shift: true, ..facts() };
    assert_eq!(InteractiveCanvas::press(&mut sel, &f), Some(TransformMode::Idle));
    assert_eq!(sel, vec![1]);
    let f = PressFacts { hit: Some(7), shift: true, ..facts() };
    InteractiveCanvas::press(&mut sel, &f);
    assert_eq!(sel, vec![1, 7]);
}

#[test]
fn press_on_a_two_element_path_edits_its_vertex() {
    let mut sel = vec![];
    let f = PressFacts { hit: Some(9), hit_vertex: Some(1), ..facts() };
    assert_eq!(
        InteractiveCanvas::press(&mut sel, &f),
        Some(TransformMode::EditingPoint { path_id: 9, element_idx: 1 })
    );
    assert_eq!(sel, vec![9]);
}

#[test]
fn press_on_empty_canvas() {
    let mut sel = vec![1u128];
    let drag = PressFacts { drag_started: true, ..facts() };
    assert_eq!(InteractiveCanvas::press(&mut sel, &drag), Some(TransformMode::RectSelect));
    assert_eq!(sel, vec![1]);
    let click = facts();
    assert_eq!(InteractiveCanvas::press(&mut sel, &click), None);
    assert!(sel.is_empty());
    let mut sel = vec![1u128];
    let shift_drag = PressFacts { drag_started: true, shift: true, ..facts() };
    assert_eq!(InteractiveCanvas::press(&mut sel, &shift_drag), None);
    assert_eq!(sel, vec![1]);
}

#[test]
fn release_of_a_rectangle_selection() {
    let mut sel = vec![1u128];
    let mut mode = TransformMode::RectSelect;
    assert!(!InteractiveCanvas::release(&mut sel, &mut mode, &vec![2, 1, 3], false));
    assert_eq!(sel, vec![2, 1, 3]);
    assert_eq!(mode, TransformMode::Idle);
    let mut mode = TransformMode::RectSelect;
    assert!(!InteractiveCanvas::release(&mut sel, &mut mode, &vec![4, 2], true));
    assert_eq!(sel, vec![2, 1, 3, 4]);
}

#[test]
fn release_of_a_transform_asks_for_the_pending_action() {
    let mut sel = vec![1u128];
    let mut mode = TransformMode::Moving;
    assert!(InteractiveCanvas::release(&mut sel, &mut mode, &vec![5], false));
    assert_eq!(mode, TransformMode::Idle);
    assert!(InteractiveCanvas::release(&mut sel, &mut mode, &vec![5], false));
    assert_eq!(sel, vec![1]);
}

#[test]
fn nearest_below_the_limit() {
    let k = |d: f64| Some(d.to_bits());
    let limit = 12.0f64.to_bits();
    assert_eq!(InteractiveCanvas::nearest_below(&vec![k(5.0), None, k(3.0), k(3.0), k(20.0)], limit), Some(2));
    assert_eq!(InteractiveCanvas::nearest_below(&vec![k(12.0), None, k(30.0)], limit), None);
    assert_eq!(InteractiveCanvas::nearest_below(&vec![], limit), None);
    assert_eq!(InteractiveCanvas::nearest_below(&vec![k(0.0)], limit), Some(0));
}
