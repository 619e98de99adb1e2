use plotterdesigner::model::{Document, Layer, Pen, PlotPath};
use plotterdesigner::path::{PathEl, Point};
use plotterdesigner::selection::{
    contains_id, delete_selected, duplicate_selection, edit_point, find_path_location, locations_of,
    merge_rect_selection, select_only, selection_fill_state, set_fill_for_selection, toggle_selection,
};

fn pt(x: f64, y: f64) -> Point {
    Point { x: x.to_bits(), y: y.to_bits() }
}

fn named(name: &str) -> PlotPath {
    PlotPath::new(vec![PathEl::MoveTo(pt(0.0, 0.0)), PathEl::LineTo(pt(3.0, 4.0))], false)
        .with_name(name.to_string())
}

/// Two layers: "A" with paths a0, a1; "B" with path b0.
fn sample() -> (Document, Vec<u128>) {
    let mut d = Document::default();
    d.layers.clear();
    let mut a = Layer::new("A".to_string(), Pen::default());
    a.paths.push(named("a0"));
    a.paths.push(named("a1"));
    let mut b = Layer::new("B".to_string(), Pen::default());
    b.paths.push(named("b0"));
    let ids = vec![a.paths[0].id, a.paths[1].id, b.paths[0].id];
    d.add_layer(a);
    d.add_layer(b);
    (d, ids)
}

#[test]
fn toggling_twice_restores_the_selection() {
    let mut sel = vec![1u128, 2, 3];
    toggle_selection(&mut sel, 2);
    assert_eq!(sel, vec![1, 3]);
    toggle_selection(&mut sel, 2);
    assert_eq!(sel, vec![1, 3, 2]);
    toggle_selection(&mut sel, 9);
    toggle_selection(&mut sel, 9);
    assert_eq!(sel, vec![1, 3, 2]);
}

#[test]
fn select_only_replaces_the_selection() {
    let mut sel = vec![1u128, 2];
    select_only(&mut sel, 7);
    assert_eq!(sel, vec![7]);
}

#[test]
fn contains_id_finds_members() {
    let sel = vec![4u128, 5];
    assert!(contains_id(&sel, 5));
    assert!(!contains_id(&sel, 6));
}

#[test]
fn rect_selection_replaces_or_extends_without_duplicates() {
    let current = vec![1u128, 2];
    let hits = vec![2u128, 3, 3, 4];
    assert_eq!(merge_rect_selection(&current, &hits, false), vec![2, 3, 4]);
    assert_eq!(merge_rect_selection(&current, &hits, true), vec![1, 2, 3, 4]);
    assert_eq!(merge_rect_selection(&current, &vec![], false), Vec::<u128>::new());
}

#[test]
fn delete_removes_selected_paths_from_every_layer() {
    let (mut d, ids) = sample();
    delete_selected(&mut d, &vec![ids[0], ids[2]]);
    assert_eq!(d.layers[0].paths.len(), 1);
    assert_eq!(d.layers[0].paths[0].name, "a1");
    assert_eq!(d.layers[1].paths.len(), 0);
    assert_eq!(d.layers.len(), 2);
}

#[test]
fn duplicate_appends_copies_with_fresh_ids() {
    let (mut d, ids) = sample();
    duplicate_selection(&mut d, &vec![ids[1], ids[2]]);
    assert_eq!(d.layers[0].paths.len(), 3);
    assert_eq!(d.layers[0].paths[2].name, "a1 (copy)");
    assert_ne!(d.layers[0].paths[2].id, ids[1]);
    assert_eq!(d.layers[0].paths[2].geometry, d.layers[0].paths[1].geometry);
    assert_eq!(d.layers[1].paths.len(), 2);
    assert_eq!(d.layers[1].paths[1].name, "b0 (copy)");
}

#[test]
fn fill_state_and_setting_fill() {
    let (mut d, ids) = sample();
    let sel = vec![ids[0], ids[2]];
    assert_eq!(selection_fill_state(&d, &sel), (false, false));
    set_fill_for_selection(&mut d, &vec![ids[0]], true);
    assert_eq!(selection_fill_state(&d, &sel), (false, true));
    set_fill_for_selection(&mut d, &sel, true);
    assert_eq!(selection_fill_state(&d, &sel), (true, true));
    assert!(!d.layers[0].paths[1].filled);
    assert_eq!(selection_fill_state(&d, &vec![]), (true, false));
}

#[test]
fn locations_of_paths() {
    let (d, ids) = sample();
    assert_eq!(find_path_location(&d, ids[2]), Some((1, 0)));
    assert_eq!(find_path_location(&d, 12345), None);
    assert_eq!(locations_of(&d, &vec![ids[2], 999, ids[0]]), vec![(0, 0), (1, 0)]);
}

#[test]
fn edit_point_moves_one_end_point() {
    let (mut d, ids) = sample();
    edit_point(&mut d, ids[1], 1, pt(9.0, 9.0));
    assert_eq!(d.layers[0].paths[1].geometry[1], PathEl::LineTo(pt(9.0, 9.0)));
    assert_eq!(d.layers[0].paths[1].geometry[0], PathEl::MoveTo(pt(0.0, 0.0)));
    assert_eq!(d.layers[0].paths[0].geometry[1], PathEl::LineTo(pt(3.0, 4.0)));
    edit_point(&mut d, ids[1], 5, pt(1.0, 1.0));
    assert_eq!(d.layers[0].paths[1].geometry.len(), 2);
}
