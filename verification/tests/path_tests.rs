use plotterdesigner::path::{
    path_endpoint, path_startpoint, polyline_path, reverse_path, segment_count, set_element_end,
    PathEl, Point,
};

fn pt(x: f64, y: f64) -> Point {
    Point { x: x.to_bits(), y: y.to_bits() }
}

#[test]
fn start_and_end_points() {
    let p = vec![
        PathEl::MoveTo(pt(1.0, 2.0)),
        PathEl::LineTo(pt(3.0, 4.0)),
        PathEl::CurveTo(pt(5.0, 5.0), pt(6.0, 6.0), pt(7.0, 8.0)),
        PathEl::ClosePath,
    ];
    assert_eq!(path_startpoint(&p), pt(1.0, 2.0));
    assert_eq!(path_endpoint(&p), pt(7.0, 8.0));
}

#[test]
fn empty_path_starts_and_ends_at_origin() {
    let p: Vec<PathEl<Point>> = vec![];
    assert_eq!(path_startpoint(&p), Point::zero());
    assert_eq!(path_endpoint(&p), Point::zero());
    let c = vec![PathEl::ClosePath];
    assert_eq!(path_startpoint(&c), Point::zero());
    assert_eq!(path_endpoint(&c), Point::zero());
}

#[test]
fn reverse_draws_each_segment_from_its_other_end() {
    let p = vec![
        PathEl::MoveTo(pt(0.0, 0.0)),
        PathEl::LineTo(pt(1.0, 0.0)),
        PathEl::QuadTo(pt(2.0, 1.0), pt(3.0, 0.0)),
        PathEl::CurveTo(pt(4.0, 1.0), pt(5.0, 1.0), pt(6.0, 0.0)),
    ];
    let r = reverse_path(&p);
    assert_eq!(
        r,
        vec![
            PathEl::MoveTo(pt(6.0, 0.0)),
            PathEl::CurveTo(pt(5.0, 1.0), pt(4.0, 1.0), pt(3.0, 0.0)),
            PathEl::QuadTo(pt(2.0, 1.0), pt(1.0, 0.0)),
            PathEl::LineTo(pt(0.0, 0.0)),
        ]
    );
    assert_eq!(r.len(), p.len());
    assert_eq!(path_startpoint(&r), path_endpoint(&p));
}

#[test]
fn reverse_keeps_short_paths() {
    let p = vec![PathEl::MoveTo(pt(1.0, 1.0))];
    assert_eq!(reverse_path(&p), p);
    let e: Vec<PathEl<Point>> = vec![];
    assert_eq!(reverse_path(&e), e);
}

#[test]
fn reverse_keeps_the_segment_count() {
    let p = vec![
        PathEl::MoveTo(pt(0.0, 0.0)),
        PathEl::LineTo(pt(1.0, 0.0)),
        PathEl::LineTo(pt(1.0, 1.0)),
        PathEl::ClosePath,
    ];
    assert_eq!(segment_count(&p), 2);
    assert_eq!(segment_count(&reverse_path(&p)), 2);
}

#[test]
fn polyline_open_and_closed() {
    let pts = vec![pt(0.0, 0.0), pt(1.0, 0.0), pt(1.0, 1.0)];
    assert_eq!(
        polyline_path(&pts, false),
        vec![PathEl::MoveTo(pts[0]), PathEl::LineTo(pts[1]), PathEl::LineTo(pts[2])]
    );
    assert_eq!(
        polyline_path(&pts, true),
        vec![PathEl::MoveTo(pts[0]), PathEl::LineTo(pts[1]), PathEl::LineTo(pts[2]), PathEl::ClosePath]
    );
    assert_eq!(polyline_path(&vec![], true), vec![PathEl::ClosePath]);
}

#[test]
fn set_element_end_moves_only_the_end_point() {
    let mut p = vec![
        PathEl::MoveTo(pt(0.0, 0.0)),
        PathEl::QuadTo(pt(1.0, 1.0), pt(2.0, 0.0)),
        PathEl::ClosePath,
    ];
    set_element_end(&mut p, 1, pt(9.0, 9.0));
    assert_eq!(p[1], PathEl::QuadTo(pt(1.0, 1.0), pt(9.0, 9.0)));
    set_element_end(&mut p, 2, pt(5.0, 5.0));
    assert_eq!(p[2], PathEl::ClosePath);
    set_element_end(&mut p, 10, pt(5.0, 5.0));
    assert_eq!(p.len(), 3);
}

#[test]
fn reversed_line_is_the_same_segment_from_its_other_end() {
    let p = vec![PathEl::MoveTo(pt(5.0, 0.0)), PathEl::LineTo(pt(2.0, 0.0))];
    assert_eq!(reverse_path(&p), vec![PathEl::MoveTo(pt(2.0, 0.0)), PathEl::LineTo(pt(5.0, 0.0))]);
}

#[test]
fn reversing_twice_gives_a_stroke_back() {
    let p = vec![
        PathEl::MoveTo(pt(0.0, 0.0)),
        PathEl::LineTo(pt(1.0, 0.0)),
        PathEl::CurveTo(pt(2.0, 1.0), pt(3.0, 1.0), pt(4.0, 0.0)),
    ];
    assert_eq!(reverse_path(&reverse_path(&p)), p);
}

#[test]
fn reversed_closed_triangle_keeps_its_closing_edge() {
    let (a, b, c) = (pt(0.0, 0.0), pt(4.0, 0.0), pt(0.0, 3.0));
    let p = vec![PathEl::MoveTo(a), PathEl::LineTo(b), PathEl::LineTo(c), PathEl::ClosePath];
    assert_eq!(
        reverse_path(&p),
        vec![PathEl::MoveTo(c), PathEl::LineTo(b), PathEl::LineTo(a), PathEl::ClosePath]
    );
}

#[test]
fn reversed_strokes_come_last_to_first() {
    let (a, b, c, d) = (pt(0.0, 0.0), pt(1.0, 0.0), pt(5.0, 5.0), pt(6.0, 5.0));
    let p = vec![PathEl::MoveTo(a), PathEl::LineTo(b), PathEl::MoveTo(c), PathEl::LineTo(d)];
    assert_eq!(
        reverse_path(&p),
        vec![PathEl::MoveTo(d), PathEl::LineTo(c), PathEl::MoveTo(b), PathEl::LineTo(a)]
    );
}

#[test]
fn reversed_closed_curve_and_open_stroke() {
    let p = vec![
        PathEl::MoveTo(pt(0.0, 0.0)),
        PathEl::CurveTo(pt(1.0, 1.0), pt(2.0, 1.0), pt(3.0, 0.0)),
        PathEl::QuadTo(pt(2.0, -2.0), pt(1.0, -1.0)),
        PathEl::ClosePath,
        PathEl::MoveTo(pt(9.0, 9.0)),
        PathEl::LineTo(pt(8.0, 8.0)),
    ];
    let r = reverse_path(&p);
    assert_eq!(
        r,
        vec![
            PathEl::MoveTo(pt(8.0, 8.0)),
            PathEl::LineTo(pt(9.0, 9.0)),
            PathEl::MoveTo(pt(1.0, -1.0)),
            PathEl::QuadTo(pt(2.0, -2.0), pt(3.0, 0.0)),
            PathEl::CurveTo(pt(2.0, 1.0), pt(1.0, 1.0), pt(0.0, 0.0)),
            PathEl::ClosePath,
        ]
    );
    assert_eq!(reverse_path(&r), p);
    assert_eq!(path_startpoint(&r), path_endpoint(&p));
}

#[test]
fn path_that_does_not_split_into_subpaths_is_kept() {
    let p = vec![PathEl::LineTo(pt(1.0, 1.0)), PathEl::LineTo(pt(2.0, 2.0))];
    assert_eq!(reverse_path(&p), p);
    let q = vec![PathEl::MoveTo(pt(0.0, 0.0)), PathEl::ClosePath, PathEl::LineTo(pt(2.0, 2.0))];
    assert_eq!(reverse_path(&q), q);
    let z = vec![PathEl::MoveTo(pt(0.0, 0.0)), PathEl::ClosePath];
    assert_eq!(reverse_path(&z), z);
}
