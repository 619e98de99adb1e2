use plotterdesigner::font::{FontFace, OutlineAssembler, OutlineEvent};
use plotterdesigner::generators::{
    text_paths, GeneratorKind, GridGenerator, HoneycombGenerator, SpiralGenerator,
    SpirographGenerator, VoronoiGenerator, WaveGenerator,
};
use plotterdesigner::import::{collect_paths, ImportedPath, SvgImporter, SvgNode};
use plotterdesigner::model::{Color, HALF_MM_BITS};
use plotterdesigner::path::{PathEl, Point};

fn pt(x: f64, y: f64) -> Point {
    Point { x: x.to_bits(), y: y.to_bits() }
}

#[test]
fn generator_names_and_kinds() {
    assert_eq!(GridGenerator.name(), "Grid");
    assert_eq!(GridGenerator.kind(), GeneratorKind::Grid);
    assert_eq!(WaveGenerator.name(), "Wave");
    assert_eq!(SpiralGenerator.name(), "Spiral");
    assert_eq!(SpirographGenerator.name(), "Spirograph");
    assert_eq!(VoronoiGenerator.name(), "Voronoi");
    assert_eq!(HoneycombGenerator.name(), "Honeycomb");
    assert_eq!(HoneycombGenerator.kind(), GeneratorKind::Honeycomb);
    assert_eq!(GeneratorKind::LSystem.name(), "L-System");
}

#[test]
fn grid_lines_are_named_by_direction_and_index() {
    let v = vec![(pt(0.0, 0.0), pt(0.0, 10.0)), (pt(5.0, 0.0), pt(5.0, 10.0))];
    let h = vec![(pt(0.0, 0.0), pt(5.0, 0.0))];
    let paths = GridGenerator::assemble(&v, &h);
    let names: Vec<&str> = paths.iter().map(|p| p.name.as_str()).collect();
    assert_eq!(names, vec!["Grid V0", "Grid V1", "Grid H0"]);
    assert_eq!(paths[1].geometry, vec![PathEl::MoveTo(pt(5.0, 0.0)), PathEl::LineTo(pt(5.0, 10.0))]);
    assert!(paths.iter().all(|p| !p.closed));
}

#[test]
fn waves_are_numbered_from_one() {
    let waves = vec![vec![pt(0.0, 0.0), pt(1.0, 1.0)], vec![pt(0.0, 2.0)]];
    let paths = WaveGenerator::assemble(&waves);
    assert_eq!(paths[0].name, "Wave 1");
    assert_eq!(paths[1].name, "Wave 2");
    assert_eq!(paths[1].geometry, vec![PathEl::MoveTo(pt(0.0, 2.0))]);
}

#[test]
fn spiral_and_spirograph_are_single_open_polylines() {
    let pts = vec![pt(0.0, 0.0), pt(1.0, 0.0), pt(1.0, 1.0)];
    let s = SpiralGenerator::assemble(&pts);
    assert_eq!(s.len(), 1);
    assert_eq!(s[0].name, "Spiral");
    assert!(!s[0].closed);
    assert_eq!(s[0].geometry.len(), 3);
    let g = SpirographGenerator::assemble(&pts);
    assert_eq!(g[0].name, "Spirograph");
    assert_eq!(g[0].geometry[2], PathEl::LineTo(pt(1.0, 1.0)));
}

#[test]
fn voronoi_cells_and_hexagons_are_closed_and_unnamed() {
    let cells = vec![vec![pt(0.0, 0.0), pt(1.0, 0.0), pt(0.0, 1.0)]];
    let v = VoronoiGenerator::assemble(&cells);
    assert_eq!(v[0].name, "");
    assert!(v[0].closed);
    assert_eq!(v[0].geometry.last(), Some(&PathEl::ClosePath));
    let h = HoneycombGenerator::assemble(&cells);
    assert_eq!(h[0].geometry, v[0].geometry);
}

#[test]
fn honeycomb_odd_rows_hold_one_cell_fewer() {
    let cells = HoneycombGenerator::cells(3, 3);
    assert_eq!(cells, vec![(0, 0), (0, 1), (0, 2), (1, 0), (1, 1), (2, 0), (2, 1), (2, 2)]);
    assert_eq!(HoneycombGenerator::cells(0, 1), vec![]);
    assert_eq!(HoneycombGenerator::cells(4, 0), vec![]);
}

#[test]
fn text_parts_are_numbered_from_two() {
    let outlines = vec![vec![PathEl::MoveTo(pt(0.0, 0.0))], vec![PathEl::ClosePath]];
    let paths = text_paths("Ab", outlines);
    assert_eq!(paths[0].name, "Text: Ab");
    assert_eq!(paths[1].name, "Text: Ab (part 2)");
    assert!(paths[1].closed);
}

fn fonts() -> [FontFace; 2] {
    [FontFace { name: "Sans", data: &[1, 2, 3] }, FontFace { name: "Sans Bold", data: &[4] }]
}

#[test]
fn font_choice_falls_back_to_the_first() {
    let fonts = fonts();
    assert_eq!(FontFace::pick(&fonts, 1).name, "Sans Bold");
    assert_eq!(FontFace::pick(&fonts, 9).name, "Sans");
    assert_eq!(FontFace::pick(&fonts, 9).data, &[1, 2, 3]);
    assert_eq!(FontFace::shown_name(&fonts, 0), "Sans");
    assert_eq!(FontFace::shown_name(&fonts, 2), "?");
}

#[test]
fn outline_events_become_one_path_of_closed_contours() {
    let mut a = OutlineAssembler::new();
    a.feed(OutlineEvent::LineTo(pt(9.0, 9.0)));
    a.feed(OutlineEvent::MoveTo(pt(0.0, 0.0)));
    a.feed(OutlineEvent::LineTo(pt(1.0, 0.0)));
    a.feed(OutlineEvent::QuadTo(pt(2.0, 1.0), pt(1.0, 2.0)));
    a.feed(OutlineEvent::Close);
    a.feed(OutlineEvent::MoveTo(pt(5.0, 5.0)));
    a.feed(OutlineEvent::CurveTo(pt(6.0, 6.0), pt(7.0, 6.0), pt(8.0, 5.0)));
    a.feed(OutlineEvent::MoveTo(pt(3.0, 3.0)));
    let paths = a.take_paths();
    assert_eq!(
        paths,
        vec![vec![
            PathEl::MoveTo(pt(0.0, 0.0)),
            PathEl::LineTo(pt(1.0, 0.0)),
            PathEl::QuadTo(pt(2.0, 1.0), pt(1.0, 2.0)),
            PathEl::ClosePath,
            PathEl::MoveTo(pt(5.0, 5.0)),
            PathEl::CurveTo(pt(6.0, 6.0), pt(7.0, 6.0), pt(8.0, 5.0)),
            PathEl::ClosePath,
            PathEl::MoveTo(pt(3.0, 3.0)),
        ]]
    );
    assert!(a.take_paths().is_empty());
}

#[test]
fn an_empty_glyph_gives_no_path() {
    let mut a = OutlineAssembler::new();
    a.feed(OutlineEvent::Close);
    assert!(a.take_paths().is_empty());
}

fn imported(g: Vec<PathEl<Point>>, fill: Option<Color>, width: Option<f64>) -> ImportedPath {
    ImportedPath { geometry: g, fill, stroke_width: width.map(|w| w.to_bits()) }
}

#[test]
fn import_keeps_non_empty_paths_in_one_layer() {
    let doc = SvgImporter::assemble(vec![
        imported(vec![], Some(Color::from_rgb(9, 9, 9)), Some(3.0)),
        imported(vec![PathEl::MoveTo(pt(1.0, 1.0))], Some(Color::from_rgb(255, 0, 0)), Some(2.0)),
        imported(vec![PathEl::MoveTo(pt(2.0, 2.0)), PathEl::ClosePath], None, None),
    ]);
    assert_eq!(doc.layers.len(), 1);
    assert_eq!(doc.active_layer_idx, 0);
    let l = &doc.layers[0];
    assert_eq!(l.name, "Imported");
    assert_eq!(l.pen.color, Color::from_rgb(255, 0, 0));
    assert_eq!(f64::from_bits(l.pen.width_mm), 2.0);
    let names: Vec<&str> = l.paths.iter().map(|p| p.name.as_str()).collect();
    assert_eq!(names, vec!["Path 1", "Path 2"]);
    assert!(l.paths.iter().all(|p| !p.closed && p.visible));
    assert_eq!(l.paths[1].geometry, vec![PathEl::MoveTo(pt(2.0, 2.0)), PathEl::ClosePath]);
}

#[test]
fn import_pen_defaults_to_black_half_millimetre() {
    let doc = SvgImporter::assemble(vec![imported(vec![PathEl::ClosePath], None, None)]);
    assert_eq!(doc.layers[0].pen.color, Color::from_rgb(0, 0, 0));
    assert_eq!(doc.layers[0].pen.width_mm, HALF_MM_BITS);
}

#[test]
fn import_without_paths_gives_an_empty_first_layer() {
    let doc = SvgImporter::assemble(vec![imported(vec![], None, Some(1.0))]);
    assert_eq!(doc.layers.len(), 1);
    assert_eq!(doc.layers[0].name, "Layer 1");
    assert!(doc.layers[0].paths.is_empty());
    assert_eq!(doc.layers[0].pen.width_mm, HALF_MM_BITS);
}


fn node(x: f64) -> SvgNode {
    SvgNode::Path { segments: vec![PathEl::MoveTo(pt(x, 0.0))], fill: None, stroke_width: None }
}

#[test]
fn paths_are_collected_depth_first() {
    let tree = vec![node(1.0), SvgNode::Group(vec![node(2.0), SvgNode::Other, SvgNode::Group(vec![node(3.0)])]), node(4.0)];
    let found = collect_paths(&tree);
    let xs: Vec<f64> = found
        .iter()
        .map(|p| match p.geometry[0] {
            PathEl::MoveTo(q) => f64::from_bits(q.x),
            _ => f64::NAN,
        })
        .collect();
    assert_eq!(xs, vec![1.0, 2.0, 3.0, 4.0]);
}

#[test]
fn parsed_tree_and_parse_errors() {
    let doc = SvgImporter::import_parsed(Ok(vec![SvgNode::Group(vec![node(1.0)])])).unwrap();
    assert_eq!(doc.layers[0].name, "Imported");
    assert_eq!(doc.layers[0].paths[0].name, "Path 1");
    let err = SvgImporter::import_parsed(Err("bad".to_string())).err().unwrap();
    assert_eq!(err, "SVG parse error: bad");
}

#[test]
fn import_svg_text() {
    let svg = r##"<svg xmlns="http://www.w3.org/2000/svg" width="100" height="100">
        <g><path d="M 1 2 L 3 4" fill="#ff0000" stroke="#000000" stroke-width="2"/></g>
        <path d="M 0 0 L 5 0" stroke="#0000ff"/>
    </svg>"##;
    let doc = SvgImporter::import_from_str(svg).unwrap();
    let l = &doc.layers[0];
    assert_eq!(l.name, "Imported");
    assert_eq!(l.pen.color, Color::from_rgb(255, 0, 0));
    assert_eq!(f64::from_bits(l.pen.width_mm), 2.0);
    assert_eq!(l.paths.len(), 2);
    assert_eq!(l.paths[0].name, "Path 1");
    assert_eq!(l.paths[0].geometry, vec![PathEl::MoveTo(pt(1.0, 2.0)), PathEl::LineTo(pt(3.0, 4.0))]);
    assert_eq!(l.paths[1].name, "Path 2");
}

#[test]
fn import_rejects_text_that_is_not_svg() {
    let err = SvgImporter::import_from_str("not an svg").err().unwrap();
    assert!(err.starts_with("SVG parse error: "));
}
