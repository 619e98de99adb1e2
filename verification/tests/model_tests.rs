use plotterdesigner::model::{
    Color, Document, Layer, Pen, PlotPath, Unit, A4_HEIGHT_CM_BITS, A4_WIDTH_CM_BITS, FIVE_BITS,
    HALF_MM_BITS,
};
use plotterdesigner::path::{PathEl, Point};

fn pt(x: f64, y: f64) -> Point {
    Point { x: x.to_bits(), y: y.to_bits() }
}

fn line(name: &str) -> PlotPath {
    PlotPath::new(vec![PathEl::MoveTo(pt(0.0, 0.0)), PathEl::LineTo(pt(1.0, 1.0))], false)
        .with_name(name.to_string())
}

fn doc_with_layers(names: &[&str]) -> Document {
    let mut d = Document::default();
    d.layers.clear();
    for n in names {
        d.add_layer(Layer::new(n.to_string(), Pen::default()));
    }
    d
}

#[test]
fn default_document_matches_new_drawing() {
    let d = Document::default();
    assert_eq!(d.layers.len(), 1);
    assert_eq!(d.layers[0].name, "Layer 1");
    assert!(d.layers[0].visible);
    assert!(!d.layers[0].locked);
    assert!(d.layers[0].paths.is_empty());
    assert_eq!(d.active_layer_idx, 0);
    assert_eq!(f64::from_bits(d.paper_width_cm), 21.0);
    assert_eq!(f64::from_bits(d.paper_height_cm), 29.7);
    assert_eq!(d.paper_width_cm, A4_WIDTH_CM_BITS);
    assert_eq!(d.paper_height_cm, A4_HEIGHT_CM_BITS);
    assert!(!d.snap_to_grid);
    assert_eq!(f64::from_bits(d.grid_size), 5.0);
    assert_eq!(d.grid_size, FIVE_BITS);
    assert!(d.show_border);
    assert!(d.border_dashed);
    assert_eq!(d.unit, Unit::Cm);
}

#[test]
fn default_pen_is_black_half_millimetre() {
    let p = Pen::default();
    assert_eq!(p.color, Color { r: 0, g: 0, b: 0, a: 255 });
    assert_eq!(f64::from_bits(p.width_mm), 0.5);
    assert_eq!(p.width_mm, HALF_MM_BITS);
    assert_eq!(f64::from_bits(p.lift_height), 5.0);
    assert_eq!(p.label, "Black");
}

#[test]
fn unit_labels() {
    assert_eq!(Unit::Cm.label(), "cm");
    assert_eq!(Unit::Mm.label(), "mm");
}

#[test]
fn color_from_rgb_is_opaque() {
    assert_eq!(Color::from_rgb(1, 2, 3), Color { r: 1, g: 2, b: 3, a: 255 });
}

#[test]
fn new_path_is_visible_unfilled_and_unnamed() {
    let p = PlotPath::new(vec![PathEl::MoveTo(pt(1.0, 2.0))], true);
    assert_eq!(p.name, "");
    assert!(p.closed);
    assert!(p.visible);
    assert!(!p.filled);
    let q = PlotPath::new(vec![], false);
    assert_ne!(p.id, q.id);
    let named = p.with_name("Spiral".to_string());
    assert_eq!(named.name, "Spiral");
}

#[test]
fn new_layers_get_fresh_ids() {
    let a = Layer::new("A".to_string(), Pen::default());
    let b = Layer::new("B".to_string(), Pen::default());
    assert_ne!(a.id, b.id);
    assert!(a.visible && !a.locked && a.paths.is_empty());
}

#[test]
fn remove_layer_refuses_the_only_layer() {
    let mut d = Document::default();
    assert!(!d.remove_layer(0));
    assert_eq!(d.layers.len(), 1);
}

#[test]
fn remove_layer_refuses_an_index_out_of_range() {
    let mut d = doc_with_layers(&["A", "B"]);
    assert!(!d.remove_layer(2));
    assert_eq!(d.layers.len(), 2);
}

#[test]
fn remove_layer_clamps_the_active_index() {
    let mut d = doc_with_layers(&["A", "B", "C"]);
    d.active_layer_idx = 2;
    assert!(d.remove_layer(2));
    assert_eq!(d.layers.len(), 2);
    assert_eq!(d.active_layer_idx, 1);
    assert_eq!(d.layers[1].name, "B");
}

#[test]
fn remove_layer_keeps_an_active_index_in_range() {
    let mut d = doc_with_layers(&["A", "B", "C"]);
    d.active_layer_idx = 2;
    assert!(d.remove_layer(0));
    assert_eq!(d.active_layer_idx, 1);
    assert_eq!(d.layers[0].name, "B");
    assert_eq!(d.layers[1].name, "C");
}

#[test]
fn move_up_then_down_restores_the_order() {
    let mut d = doc_with_layers(&["A", "B", "C"]);
    d.active_layer_idx = 2;
    d.move_layer_up(2);
    let names: Vec<&str> = d.layers.iter().map(|l| l.name.as_str()).collect();
    assert_eq!(names, vec!["A", "C", "B"]);
    assert_eq!(d.active_layer_idx, 1);
    d.move_layer_down(1);
    let names: Vec<&str> = d.layers.iter().map(|l| l.name.as_str()).collect();
    assert_eq!(names, vec!["A", "B", "C"]);
    assert_eq!(d.active_layer_idx, 2);
}

#[test]
fn moving_layers_keeps_the_active_layer() {
    let mut d = doc_with_layers(&["A", "B", "C"]);
    d.active_layer_idx = 0;
    d.move_layer_down(0);
    assert_eq!(d.layers[d.active_layer_idx].name, "A");
    d.move_layer_up(1);
    assert_eq!(d.layers[d.active_layer_idx].name, "A");
}

#[test]
fn moving_past_the_ends_changes_nothing() {
    let mut d = doc_with_layers(&["A", "B"]);
    d.move_layer_up(0);
    d.move_layer_down(1);
    d.move_layer_down(7);
    let names: Vec<&str> = d.layers.iter().map(|l| l.name.as_str()).collect();
    assert_eq!(names, vec!["A", "B"]);
}

#[test]
fn active_layer_is_none_out_of_range() {
    let mut d = Document::default();
    assert!(d.active_layer().is_some());
    d.active_layer_idx = 3;
    assert!(d.active_layer().is_none());
}

#[test]
fn paths_go_to_the_active_layer_and_clear_removes_them() {
    let mut d = doc_with_layers(&["A", "B"]);
    d.active_layer_idx = 1;
    d.add_paths_to_active(vec![line("one"), line("two")]);
    assert_eq!(d.layers[0].paths.len(), 0);
    assert_eq!(d.layers[1].paths.len(), 2);
    assert_eq!(d.layers[1].paths[1].name, "two");
    assert_eq!(d.path_count(), 2);
    d.clear_active_layer();
    assert_eq!(d.layers[1].paths.len(), 0);
    assert_eq!(d.path_count(), 0);
}

#[test]
fn path_count_sums_all_layers() {
    let mut d = doc_with_layers(&["A", "B"]);
    d.layers[0].paths.push(line("a"));
    d.layers[1].paths.push(line("b"));
    d.layers[1].paths.push(line("c"));
    assert_eq!(d.path_count(), 3);
}

#[test]
fn adding_then_removing_a_layer_restores_the_document() {
    let mut d = doc_with_layers(&["A", "B"]);
    d.active_layer_idx = 1;
    d.add_layer(Layer::new("C".to_string(), Pen::default()));
    assert!(d.remove_layer(2));
    let names: Vec<&str> = d.layers.iter().map(|l| l.name.as_str()).collect();
    assert_eq!(names, vec!["A", "B"]);
    assert_eq!(d.active_layer_idx, 1);
}
