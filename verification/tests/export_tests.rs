use plotterdesigner::export::{
    remove_overlapping_segments, segments_of, ExportOptions, NearestOrder, OptimizedPath,
    PathOptimizer, Segment, SvgEntry, SvgWriter, ViewBox, MAX_DISTANCE_KEY,
};
use plotterdesigner::model::{Color, Layer, Pen, PlotPath};
use plotterdesigner::path::{reverse_path, PathEl, Point};

fn pt(x: f64, y: f64) -> Point {
    Point { x: x.to_bits(), y: y.to_bits() }
}

fn key(d: f64) -> u64 {
    d.to_bits()
}

fn seg(a: (f64, f64), b: (f64, f64)) -> Vec<PathEl<Point>> {
    vec![PathEl::MoveTo(pt(a.0, a.1)), PathEl::LineTo(pt(b.0, b.1))]
}

fn opt(layer: &str, path: Vec<PathEl<Point>>) -> OptimizedPath {
    OptimizedPath {
        path,
        layer_name: layer.to_string(),
        stroke_color: "#000000".to_string(),
        stroke_width: 0.5f64.to_bits(),
    }
}

#[test]
fn export_options_default_off() {
    assert!(!ExportOptions::default().remove_overlaps);
}

#[test]
fn colour_as_upper_case_hex() {
    assert_eq!(PathOptimizer::color_to_svg_hex(Color::from_rgb(10, 11, 255)), "#0A0BFF");
    assert_eq!(PathOptimizer::color_to_svg_hex(Color::from_rgb(0, 0, 0)), "#000000");
}

#[test]
fn distance_keys_order_as_distances() {
    assert!(key(0.5) < key(2.0));
    assert!(key(2.0) < key(1e300));
    assert!(key(f64::MAX) < MAX_DISTANCE_KEY + 1);
    assert_eq!(key(f64::MAX), MAX_DISTANCE_KEY);
}

#[test]
fn pick_nearest_prefers_the_nearest_end() {
    let used = vec![true, false, false];
    let starts = vec![key(0.0), key(5.0), key(3.0)];
    let ends = vec![key(0.0), key(1.0), key(4.0)];
    assert_eq!(PathOptimizer::pick_nearest(&used, &starts, &ends), Some((1, true)));
}

#[test]
fn pick_nearest_takes_the_first_of_equal_distances() {
    let used = vec![false, false];
    let starts = vec![key(2.0), key(2.0)];
    let ends = vec![key(2.0), key(1.0)];
    assert_eq!(PathOptimizer::pick_nearest(&used, &starts, &ends), Some((1, true)));
    let ends2 = vec![key(2.0), key(2.0)];
    assert_eq!(PathOptimizer::pick_nearest(&used, &starts, &ends2), Some((0, false)));
}

#[test]
fn pick_nearest_none_when_all_used_or_infinitely_far() {
    let used = vec![true, false];
    let far = vec![key(0.0), key(f64::INFINITY)];
    assert_eq!(PathOptimizer::pick_nearest(&used, &far, &far), None);
    assert_eq!(PathOptimizer::pick_nearest(&vec![true], &vec![key(1.0)], &vec![key(1.0)]), None);
}

#[test]
fn nearest_order_places_every_path_once() {
    // Three horizontal strokes; the second is best entered from its right end.
    let paths = vec![seg((0.0, 0.0), (1.0, 0.0)), seg((5.0, 0.0), (2.0, 0.0)), seg((6.0, 0.0), (7.0, 0.0))];
    let mut order = NearestOrder::begin(&paths);
    assert_eq!(order.last_end(), pt(1.0, 0.0));
    for _ in 1..paths.len() {
        let here = order.last_end();
        let (hx, hy) = (f64::from_bits(here.x), f64::from_bits(here.y));
        let dist = |p: Point| {
            let (x, y) = (f64::from_bits(p.x), f64::from_bits(p.y));
            key(((x - hx).powi(2) + (y - hy).powi(2)).sqrt())
        };
        let starts: Vec<u64> = paths.iter().map(|p| dist(plotterdesigner::path::path_startpoint(p))).collect();
        let ends: Vec<u64> = paths.iter().map(|p| dist(plotterdesigner::path::path_endpoint(p))).collect();
        assert!(order.step(&paths, &starts, &ends).is_some());
    }
    let out = order.ordered(&paths);
    assert_eq!(out.len(), 3);
    assert_eq!(out[0], paths[0]);
    assert_eq!(out[1], reverse_path(&paths[1]));
    assert_eq!(out[2], paths[2]);
}

#[test]
fn visible_paths_and_layer_entries() {
    let mut layer = Layer::new("Ink".to_string(), Pen::default());
    layer.pen.color = Color::from_rgb(255, 0, 16);
    let mut hidden = PlotPath::new(seg((0.0, 0.0), (1.0, 1.0)), false);
    hidden.visible = false;
    layer.paths.push(PlotPath::new(seg((2.0, 2.0), (3.0, 3.0)), false));
    layer.paths.push(hidden);
    let vis = PathOptimizer::visible_paths(&layer);
    assert_eq!(vis, vec![seg((2.0, 2.0), (3.0, 3.0))]);
    let entries = PathOptimizer::layer_entries(&layer, vis);
    assert_eq!(entries.len(), 1);
    assert_eq!(entries[0].layer_name, "Ink");
    assert_eq!(entries[0].stroke_color, "#FF0010");
    assert_eq!(f64::from_bits(entries[0].stroke_width), 0.5);
}

#[test]
fn segments_skip_moves_and_closes() {
    let paths = vec![opt(
        "L",
        vec![
            PathEl::MoveTo(pt(0.0, 0.0)),
            PathEl::LineTo(pt(1.0, 0.0)),
            PathEl::MoveTo(pt(5.0, 5.0)),
            PathEl::QuadTo(pt(6.0, 6.0), pt(7.0, 5.0)),
            PathEl::ClosePath,
        ],
    )];
    let s = segments_of(&paths);
    assert_eq!(
        s,
        vec![
            Segment { owner: 0, a: pt(0.0, 0.0), b: pt(1.0, 0.0) },
            Segment { owner: 0, a: pt(5.0, 5.0), b: pt(7.0, 5.0) },
        ]
    );
}

#[test]
fn overlap_removal_drops_later_coinciding_paths_of_the_same_layer() {
    let mut paths = vec![
        opt("A", seg((0.0, 0.0), (10.0, 0.0))),
        opt("A", seg((10.0, 0.0), (0.0, 0.0))),
        opt("B", seg((0.0, 0.0), (10.0, 0.0))),
        opt("A", seg((0.0, 5.0), (10.0, 5.0))),
    ];
    // Segment i is path i's only segment; 0 coincides with 1 (reversed) and 2.
    let coincident = vec![vec![1, 2], vec![0, 2], vec![0, 1], vec![]];
    remove_overlapping_segments(&mut paths, &coincident);
    let names: Vec<(&str, usize)> = paths.iter().map(|p| (p.layer_name.as_str(), p.path.len())).collect();
    assert_eq!(names, vec![("A", 2), ("B", 2), ("A", 2)]);
    assert_eq!(paths[2].path, seg((0.0, 5.0), (10.0, 5.0)));
}

#[test]
fn overlap_removal_without_coincidence_keeps_everything() {
    let mut paths = vec![opt("A", seg((0.0, 0.0), (1.0, 0.0))), opt("A", seg((0.0, 0.0), (1.0, 0.0)))];
    remove_overlapping_segments(&mut paths, &vec![vec![], vec![]]);
    assert_eq!(paths.len(), 2);
}

fn entry(layer: &str, path: Vec<PathEl<String>>) -> SvgEntry {
    SvgEntry {
        layer_name: layer.to_string(),
        stroke_color: "#FF0000".to_string(),
        stroke_width: "0.5".to_string(),
        path,
    }
}

#[test]
fn path_data_text() {
    let d = SvgWriter::bezpath_to_svg_d(&vec![
        PathEl::MoveTo("1.000 2.000".to_string()),
        PathEl::LineTo("3.000 4.000".to_string()),
        PathEl::QuadTo("5.000 6.000".to_string(), "7.000 8.000".to_string()),
        PathEl::CurveTo("1.000 1.000".to_string(), "2.000 2.000".to_string(), "3.000 3.000".to_string()),
        PathEl::ClosePath,
    ]);
    assert_eq!(
        d,
        "M 1.000 2.000 L 3.000 4.000 Q 5.000 6.000 7.000 8.000 C 1.000 1.000 2.000 2.000 3.000 3.000 Z"
    );
}

#[test]
fn svg_document_groups_paths_by_layer() {
    let vb = ViewBox { x: -396, y: -561, width: 793, height: 1122 };
    let entries = vec![
        entry("Layer 1", vec![PathEl::MoveTo("0.000 0.000".to_string()), PathEl::LineTo("1.000 0.000".to_string())]),
        entry("Layer 1", vec![PathEl::MoveTo("2.000 0.000".to_string())]),
        entry("Top", vec![PathEl::ClosePath]),
    ];
    let svg = SvgWriter::render(vb, &entries);
    let expected = [
        "<?xml version=\"1.0\" encoding=\"UTF-8\"?>\n",
        "<svg xmlns=\"http://www.w3.org/2000/svg\" viewBox=\"-396 -561 793 1122\" width=\"793\" height=\"1122\">\n",
        "  <g id=\"Layer 1\" stroke=\"#FF0000\" stroke-width=\"0.5mm\" fill=\"none\">\n",
        "    <path d=\"M 0.000 0.000 L 1.000 0.000 \" />\n",
        "    <path d=\"M 2.000 0.000 \" />\n",
        "  </g>\n",
        "  <g id=\"Top\" stroke=\"#FF0000\" stroke-width=\"0.5mm\" fill=\"none\">\n",
        "    <path d=\"Z\" />\n",
        "  </g>\n",
        "</svg>\n",
    ]
    .concat();
    assert_eq!(svg, expected);
}

#[test]
fn svg_document_without_paths() {
    let vb = ViewBox { x: 0, y: 0, width: 10, height: 20 };
    let svg = SvgWriter::render(vb, &vec![]);
    assert_eq!(
        svg,
        "<?xml version=\"1.0\" encoding=\"UTF-8\"?>\n<svg xmlns=\"http://www.w3.org/2000/svg\" viewBox=\"0 0 10 20\" width=\"10\" height=\"20\">\n</svg>\n"
    );
}

#[test]
fn nearest_order_skips_a_step_without_candidate() {
    let paths = vec![seg((0.0, 0.0), (1.0, 0.0)), seg((5.0, 0.0), (6.0, 0.0))];
    let mut order = NearestOrder::begin(&paths);
    let far = vec![key(f64::INFINITY), key(f64::INFINITY)];
    assert_eq!(order.step(&paths, &far, &far), None);
    assert_eq!(order.ordered(&paths), vec![paths[0].clone()]);
}

fn table(paths: &[Vec<PathEl<Point>>]) -> Vec<Vec<u64>> {
    let d = |a: Point, b: Point| {
        let (ax, ay, bx, by) = (f64::from_bits(a.x), f64::from_bits(a.y), f64::from_bits(b.x), f64::from_bits(b.y));
        key(((ax - bx).powi(2) + (ay - by).powi(2)).sqrt())
    };
    let targets: Vec<Point> = paths
        .iter()
        .flat_map(|p| [plotterdesigner::path::path_startpoint(p), plotterdesigner::path::path_endpoint(p)])
        .collect();
    let mut t = Vec::new();
    for p in paths {
        for pen in [plotterdesigner::path::path_endpoint(p), plotterdesigner::path::path_endpoint(&reverse_path(p))] {
            t.push(targets.iter().map(|q| d(pen, *q)).collect());
        }
    }
    t
}

#[test]
fn sorting_reverses_a_path_to_shorten_travel_and_keeps_its_segment() {
    let paths = vec![seg((0.0, 0.0), (1.0, 0.0)), seg((5.0, 0.0), (2.0, 0.0)), seg((6.0, 0.0), (7.0, 0.0))];
    let t = table(&paths);
    let out = PathOptimizer::sort_by_nearest_neighbor(paths.clone(), &t);
    assert_eq!(out, vec![paths[0].clone(), seg((2.0, 0.0), (5.0, 0.0)), paths[2].clone()]);
}

#[test]
fn optimize_sorts_each_visible_layer() {
    let mut doc = plotterdesigner::model::Document::default();
    let mut hidden = Layer::new("Hidden".to_string(), Pen::default());
    hidden.visible = false;
    hidden.paths.push(PlotPath::new(seg((0.0, 0.0), (1.0, 0.0)), false));
    doc.layers[0].paths.push(PlotPath::new(seg((0.0, 0.0), (1.0, 0.0)), false));
    doc.layers[0].paths.push(PlotPath::new(seg((9.0, 0.0), (2.0, 0.0)), false));
    doc.add_layer(hidden);
    let vis = PathOptimizer::visible_paths(&doc.layers[0]);
    let tables = vec![table(&vis), vec![]];
    let out = PathOptimizer::optimize(&doc, &tables);
    assert_eq!(out.len(), 2);
    assert_eq!(out[1].path, seg((2.0, 0.0), (9.0, 0.0)));
    assert_eq!(out[1].layer_name, "Layer 1");
    assert_eq!(out[1].stroke_color, "#000000");
}

#[test]
fn sorting_reverses_a_closed_square_and_keeps_its_closing_edge() {
    let square = vec![
        PathEl::MoveTo(pt(10.0, 0.0)),
        PathEl::LineTo(pt(10.0, 4.0)),
        PathEl::LineTo(pt(3.0, 4.0)),
        PathEl::LineTo(pt(3.0, 0.0)),
        PathEl::ClosePath,
    ];
    let paths = vec![seg((0.0, 0.0), (2.0, 0.0)), square];
    let t = table(&paths);
    let out = PathOptimizer::sort_by_nearest_neighbor(paths.clone(), &t);
    assert_eq!(
        out,
        vec![
            paths[0].clone(),
            vec![
                PathEl::MoveTo(pt(3.0, 0.0)),
                PathEl::LineTo(pt(3.0, 4.0)),
                PathEl::LineTo(pt(10.0, 4.0)),
                PathEl::LineTo(pt(10.0, 0.0)),
                PathEl::ClosePath,
            ],
        ]
    );
}
