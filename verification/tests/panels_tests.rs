use plotterdesigner::canvas::Tool;
use plotterdesigner::model::{Color, Document, Layer, Pen, PlotPath, HALF_MM_BITS};
use plotterdesigner::panels::{
    DialogAction, DialogFlags, Dialogs, GeneratorPanel, Keys, LayerPanel, PenPreview, Shortcuts,
    Toolbar,
};
use plotterdesigner::path::{PathEl, Point};

fn pt(x: f64, y: f64) -> Point {
    Point { x: x.to_bits(), y: y.to_bits() }
}

fn stroke() -> Vec<PathEl<Point>> {
    vec![PathEl::MoveTo(pt(0.0, 0.0)), PathEl::LineTo(pt(1.0, 0.0))]
}

fn two_layer_doc() -> Document {
    let mut d = Document::default();
    d.add_layer(Layer::new("Second".to_string(), Pen::default()));
    d
}

#[test]
fn generate_appends_and_replace_replaces() {
    let mut d = Document::default();
    d.layers[0].paths.push(PlotPath::new(stroke(), false).with_name("old".to_string()));
    let gen = vec![PlotPath::new(stroke(), false).with_name("new".to_string())];
    GeneratorPanel::apply_generated(&mut d, gen, false);
    let names: Vec<&str> = d.layers[0].paths.iter().map(|p| p.name.as_str()).collect();
    assert_eq!(names, vec!["old", "new"]);
    let gen = vec![PlotPath::new(stroke(), false).with_name("only".to_string())];
    GeneratorPanel::apply_generated(&mut d, gen, true);
    let names: Vec<&str> = d.layers[0].paths.iter().map(|p| p.name.as_str()).collect();
    assert_eq!(names, vec!["only"]);
}

#[test]
fn generated_paths_need_an_active_layer() {
    let mut d = Document::default();
    d.active_layer_idx = 5;
    GeneratorPanel::apply_generated(&mut d, vec![PlotPath::new(stroke(), false)], true);
    GeneratorPanel::add_shape(&mut d, stroke(), "Line");
    assert_eq!(d.path_count(), 0);
}

#[test]
fn shapes_are_closed_and_named() {
    let mut d = two_layer_doc();
    d.active_layer_idx = 1;
    GeneratorPanel::add_shape(&mut d, stroke(), "Rectangle");
    assert_eq!(d.layers[0].paths.len(), 0);
    let p = &d.layers[1].paths[0];
    assert_eq!(p.name, "Rectangle");
    assert!(p.closed);
    assert_eq!(p.geometry, stroke());
}

#[test]
fn text_outlines_are_named_by_part() {
    let mut d = Document::default();
    GeneratorPanel::add_text(&mut d, "Hi", vec![stroke(), stroke(), stroke()]);
    let names: Vec<&str> = d.layers[0].paths.iter().map(|p| p.name.as_str()).collect();
    assert_eq!(names, vec!["Text: Hi", "Text: Hi (part 2)", "Text: Hi (part 3)"]);
    assert!(d.layers[0].paths.iter().all(|p| p.closed));
}

#[test]
fn listed_names_fall_back_to_the_position() {
    let unnamed = PlotPath::new(stroke(), false);
    assert_eq!(LayerPanel::listed_path_name(&unnamed, 0), "Path 1");
    assert_eq!(LayerPanel::listed_path_name(&unnamed, 41), "Path 42");
    let named = PlotPath::new(stroke(), false).with_name("Wave 3".to_string());
    assert_eq!(LayerPanel::listed_path_name(&named, 0), "Wave 3");
}

#[test]
fn selected_name_and_rename() {
    let mut d = two_layer_doc();
    let p = PlotPath::new(stroke(), false);
    let id = p.id;
    d.layers[1].paths.push(p);
    assert_eq!(LayerPanel::selected_name(&d, id), "Path");
    assert_eq!(LayerPanel::selected_name(&d, 77), "");
    LayerPanel::rename_selected(&mut d, id, "Outline");
    assert_eq!(d.layers[1].paths[0].name, "Outline");
    assert_eq!(LayerPanel::selected_name(&d, id), "Outline");
}

#[test]
fn rename_touches_only_the_first_path_with_the_id() {
    let mut d = Document::default();
    let p = PlotPath::new(stroke(), false).with_name("a".to_string());
    let mut twin = PlotPath::new(stroke(), false).with_name("b".to_string());
    twin.id = p.id;
    let id = p.id;
    d.layers[0].paths.push(p);
    d.layers[0].paths.push(twin);
    LayerPanel::rename_selected(&mut d, id, "c");
    assert_eq!(d.layers[0].paths[0].name, "c");
    assert_eq!(d.layers[0].paths[1].name, "b");
    assert_eq!(LayerPanel::selected_name(&d, id), "c");
}

#[test]
fn new_layers_are_numbered() {
    let mut d = Document::default();
    LayerPanel::add_layer_with_color(&mut d, Color::from_rgb(1, 2, 3));
    assert_eq!(d.layers.len(), 2);
    assert_eq!(d.layers[1].name, "Layer 2");
    assert_eq!(d.layers[1].pen.color, Color::from_rgb(1, 2, 3));
    assert_eq!(d.layers[1].pen.width_mm, HALF_MM_BITS);
    assert_eq!(d.layers[1].pen.label, "Black");
    LayerPanel::add_layer(&mut d);
    assert_eq!(d.layers[2].name, "Layer 3");
    assert_eq!(d.layers[2].pen.color.a, 255);
}

#[test]
fn deleting_a_layer_clears_the_selection() {
    let mut d = two_layer_doc();
    let mut sel = vec![1u128, 2];
    assert!(LayerPanel::delete_layer(&mut d, &mut sel, 0));
    assert!(sel.is_empty());
    assert_eq!(d.layers[0].name, "Second");
    let mut sel = vec![3u128];
    assert!(!LayerPanel::delete_layer(&mut d, &mut sel, 0));
    assert!(sel.is_empty());
}

#[test]
fn delete_and_clear_all() {
    let mut d = Document::default();
    let a = PlotPath::new(stroke(), false);
    let b = PlotPath::new(stroke(), false);
    let keep = b.id;
    let mut sel = vec![a.id];
    d.layers[0].paths.push(a);
    d.layers[0].paths.push(b);
    LayerPanel::delete_selection(&mut d, &mut sel);
    assert!(sel.is_empty());
    assert_eq!(d.layers[0].paths.len(), 1);
    assert_eq!(d.layers[0].paths[0].id, keep);
    let mut sel = vec![keep];
    LayerPanel::clear_all(&mut d, &mut sel);
    assert!(sel.is_empty());
    assert!(d.layers[0].paths.is_empty());
}

#[test]
fn paths_heading_text() {
    assert_eq!(LayerPanel::paths_heading(0), "Paths (0)");
    assert_eq!(LayerPanel::paths_heading(12), "Paths (12)");
}

fn flags() -> DialogFlags {
    DialogFlags { export: true, import: true, save: true, open: true }
}

#[test]
fn dialog_actions_close_their_dialog() {
    let mut f = flags();
    assert_eq!(Dialogs::resolve(&mut f, DialogAction::ExportSvg), DialogAction::ExportSvg);
    assert_eq!(f, DialogFlags { export: false, ..flags() });
    let mut f = flags();
    assert_eq!(Dialogs::resolve(&mut f, DialogAction::OpenProject), DialogAction::OpenProject);
    assert_eq!(f, DialogFlags { open: false, ..flags() });
}

#[test]
fn dismiss_closes_every_dialog_and_idle_changes_nothing() {
    let mut f = flags();
    assert_eq!(Dialogs::resolve(&mut f, DialogAction::Idle), DialogAction::Idle);
    assert_eq!(f, flags());
    assert_eq!(Dialogs::resolve(&mut f, DialogAction::Dismiss), DialogAction::Idle);
    assert_eq!(f, DialogFlags { export: false, import: false, save: false, open: false });
}

#[test]
fn toolbar_and_pen_preview_texts() {
    assert_eq!(Toolbar::entries(), vec![(Tool::Select, "Select"), (Tool::Pan, "Pan")]);
    assert_eq!(PenPreview::note(true), Some("(paths render at physical pen width)"));
    assert_eq!(PenPreview::note(false), None);
}

fn keys() -> Keys {
    Keys { delete: false, left: false, right: false, up: false, down: false, duplicate: false, shift: false }
}

#[test]
fn shortcuts_need_a_selection() {
    let k = Keys { delete: true, left: true, duplicate: true, ..keys() };
    let p = Shortcuts::plan(k, false);
    assert!(!p.delete && !p.duplicate && p.nudges.is_empty());
}

#[test]
fn arrow_keys_nudge_by_one_or_ten() {
    let k = Keys { left: true, down: true, ..keys() };
    assert_eq!(Shortcuts::plan(k, true).nudges, vec![(-1, 0), (0, 1)]);
    let k = Keys { right: true, up: true, shift: true, delete: true, duplicate: true, ..keys() };
    let p = Shortcuts::plan(k, true);
    assert_eq!(p.nudges, vec![(10, 0), (0, -10)]);
    assert!(p.delete && p.duplicate);
}
