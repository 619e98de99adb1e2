//! Paths as sequences of drawing elements, and the structural operations on
//! them: end points, reversal, point editing, counting, and polylines.
use vstd::prelude::*;

verus! {

/// A point of the drawing. Each coordinate is kept as the bit pattern of its
/// IEEE-754 double-precision value; the library never computes with the
/// coordinates, it only moves points around.
#[derive(Clone, Copy, Debug, PartialEq, Eq, Structural)]
pub struct Point {
    pub x: u64,
    pub y: u64,
}

impl Point {
    /// The origin, `(0.0, 0.0)` (both bit patterns zero).
    pub open spec fn spec_zero() -> Point {
        Point { x: 0, y: 0 }
    }

    /// The origin, `(0.0, 0.0)`.
    pub fn zero() -> (p: Point)
        ensures
            p == Point::spec_zero(),
    {
        Point { x: 0, y: 0 }
    }
}

/// One element of a path; `P` is what stands for a point.
#[derive(Clone, Copy, Debug, PartialEq)]
pub enum PathEl<P> {
    MoveTo(P),
    LineTo(P),
    QuadTo(P, P),
    CurveTo(P, P, P),
    ClosePath,
}

/// The point an element ends at (`None` for `ClosePath`).
pub open spec fn el_end<P>(el: PathEl<P>) -> Option<P> {
    match el {
        PathEl::MoveTo(p) => Some(p),
        PathEl::LineTo(p) => Some(p),
        PathEl::QuadTo(_, p) => Some(p),
        PathEl::CurveTo(_, _, p) => Some(p),
        PathEl::ClosePath => None,
    }
}

/// Where a path starts: the end point of its first element, or the origin when
/// the path is empty or starts with `ClosePath`.
pub open spec fn start_point(s: Seq<PathEl<Point>>) -> Point {
    if s.len() == 0 {
        Point::spec_zero()
    } else {
        match el_end(s[0]) {
            Some(p) => p,
            None => Point::spec_zero(),
        }
    }
}

/// Where a path ends: the end point of its last element that has one, or the
/// origin when none has.
pub open spec fn end_point(s: Seq<PathEl<Point>>) -> Point
    decreases s.len(),
{
    if s.len() == 0 {
        Point::spec_zero()
    } else {
        match el_end(s.last()) {
            Some(p) => p,
            None => end_point(s.drop_last()),
        }
    }
}

/// A segment element drawn the other way, so that it ends at `e` (the end
/// point of the element before it): a line to `e`, a quadratic curve with the
/// same control point, a cubic curve with its two control points swapped.
/// `MoveTo` and `ClosePath` are kept.
pub open spec fn reversed_el(el: PathEl<Point>, e: Point) -> PathEl<Point> {
    match el {
        PathEl::LineTo(_) => PathEl::LineTo(e),
        PathEl::QuadTo(c, _) => PathEl::QuadTo(c, e),
        PathEl::CurveTo(c1, c2, _) => PathEl::CurveTo(c2, c1, e),
        other => other,
    }
}

/// Where a segment element ends (the origin for an element without an end
/// point).
pub open spec fn seg_end(el: PathEl<Point>) -> Point {
    match el_end(el) {
        Some(p) => p,
        None => Point::spec_zero(),
    }
}

/// A subpath: the point its `MoveTo` goes to, the segment elements that
/// follow, and whether a `ClosePath` ends it.
pub struct Subpath {
    pub start: Point,
    pub segs: Seq<PathEl<Point>>,
    pub closed: bool,
}

/// A subpath whose elements after the `MoveTo` all draw segments.
pub open spec fn valid_subpath(sp: Subpath) -> bool {
    forall|k: int| 0 <= k < sp.segs.len() ==> is_segment(#[trigger] sp.segs[k])
}

/// Where segment `k` of a subpath starts: at its start for the first one, at
/// the end of the one before otherwise.
pub open spec fn seg_from(sp: Subpath, k: int) -> Point {
    if k == 0 {
        sp.start
    } else {
        seg_end(sp.segs[k - 1])
    }
}

/// Where a subpath's last segment ends (its start when it has none).
pub open spec fn sub_end(sp: Subpath) -> Point {
    seg_from(sp, sp.segs.len() as int)
}

/// The split of a path into subpaths: each `MoveTo` starts one, each segment
/// element extends the last one, and `ClosePath` closes it. `None` when the
/// path does not have that shape (a segment or `ClosePath` with no open
/// subpath before it).
pub open spec fn subpaths(s: Seq<PathEl<Point>>) -> Option<Seq<Subpath>>
    decreases s.len(),
{
    if s.len() == 0 {
        Some(Seq::empty())
    } else {
        match subpaths(s.drop_last()) {
            None => None,
            Some(ss) => match s.last() {
                PathEl::MoveTo(p) => Some(ss.push(Subpath { start: p, segs: Seq::empty(), closed: false })),
                PathEl::ClosePath => if ss.len() > 0 && !ss.last().closed {
                    Some(ss.drop_last().push(Subpath { closed: true, ..ss.last() }))
                } else {
                    None
                },
                el => if ss.len() > 0 && !ss.last().closed {
                    Some(ss.drop_last().push(Subpath { segs: ss.last().segs.push(el), ..ss.last() }))
                } else {
                    None
                },
            },
        }
    }
}

/// The elements of a subpath: its `MoveTo`, its segments, and a `ClosePath`
/// when it is closed.
pub open spec fn sub_els(sp: Subpath) -> Seq<PathEl<Point>> {
    seq![PathEl::MoveTo(sp.start)] + sp.segs + if sp.closed {
        seq![PathEl::ClosePath]
    } else {
        Seq::empty()
    }
}

/// The path made of subpaths, one after the other.
pub open spec fn join(ss: Seq<Subpath>) -> Seq<PathEl<Point>>
    decreases ss.len(),
{
    if ss.len() == 0 {
        Seq::empty()
    } else {
        join(ss.drop_last()) + sub_els(ss.last())
    }
}

/// A subpath drawn the other way: it starts where it ended, its segments come
/// last to first, each drawn the other way (see `reversed_el`), and it stays
/// closed when it was.
pub open spec fn reversed_subpath(sp: Subpath) -> Subpath {
    let m = sp.segs.len();
    Subpath {
        start: sub_end(sp),
        segs: Seq::new(m, |i: int| reversed_el(sp.segs[m - 1 - i], seg_from(sp, m - 1 - i))),
        closed: sp.closed,
    }
}

/// Subpaths last to first, each drawn the other way.
pub open spec fn reversed_subpaths(ss: Seq<Subpath>) -> Seq<Subpath> {
    Seq::new(ss.len(), |i: int| reversed_subpath(ss[ss.len() - 1 - i]))
}

/// The reversal of a path: its subpaths last to first, each drawn the other
/// way (see `reversed_subpath`). A path that does not split into subpaths
/// (see `subpaths`) is kept as it is.
pub open spec fn reversed_path(s: Seq<PathEl<Point>>) -> Seq<PathEl<Point>> {
    match subpaths(s) {
        Some(ss) => join(reversed_subpaths(ss)),
        None => s,
    }
}

/// An element with its end point moved to `p`; control points stay, and
/// `ClosePath` is unchanged.
pub open spec fn with_end(el: PathEl<Point>, p: Point) -> PathEl<Point> {
    match el {
        PathEl::MoveTo(_) => PathEl::MoveTo(p),
        PathEl::LineTo(_) => PathEl::LineTo(p),
        PathEl::QuadTo(c, _) => PathEl::QuadTo(c, p),
        PathEl::CurveTo(c1, c2, _) => PathEl::CurveTo(c1, c2, p),
        PathEl::ClosePath => PathEl::ClosePath,
    }
}

/// Whether an element draws a segment (`LineTo`, `QuadTo` or `CurveTo`).
pub open spec fn is_segment<P>(el: PathEl<P>) -> bool {
    match el {
        PathEl::LineTo(_) | PathEl::QuadTo(_, _) | PathEl::CurveTo(_, _, _) => true,
        _ => false,
    }
}

/// How many elements of `s` draw a segment.
pub open spec fn count_segments<P>(s: Seq<PathEl<P>>) -> nat
    decreases s.len(),
{
    if s.len() == 0 {
        0
    } else {
        count_segments(s.drop_last()) + if is_segment(s.last()) {
            1nat
        } else {
            0nat
        }
    }
}

/// The polyline through `pts`: a `MoveTo` the first point, a `LineTo` each
/// following one, and a final `ClosePath` when `closed`.
pub open spec fn polyline<P>(pts: Seq<P>, closed: bool) -> Seq<PathEl<P>> {
    let open_part = Seq::new(
        pts.len(),
        |i: int|
            if i == 0 {
                PathEl::MoveTo(pts[i])
            } else {
                PathEl::LineTo(pts[i])
            },
    );
    if closed {
        open_part.push(PathEl::ClosePath)
    } else {
        open_part
    }
}

/// The end point of an element, if it has one.
pub fn element_end(el: &PathEl<Point>) -> (r: Option<Point>)
    ensures
        r == el_end(*el),
{
    match el {
        PathEl::MoveTo(p) => Some(*p),
        PathEl::LineTo(p) => Some(*p),
        PathEl::QuadTo(_, p) => Some(*p),
        PathEl::CurveTo(_, _, p) => Some(*p),
        PathEl::ClosePath => None,
    }
}

/// Where a path starts (see `start_point`).
pub fn path_startpoint(path: &Vec<PathEl<Point>>) -> (p: Point)
    ensures
        p == start_point(path@),
{
    if path.len() == 0 {
        return Point::zero();
    }
    match element_end(&path[0]) {
        Some(p) => p,
        None => Point::zero(),
    }
}

/// Where a path ends (see `end_point`).
pub fn path_endpoint(path: &Vec<PathEl<Point>>) -> (p: Point)
    ensures
        p == end_point(path@),
{
    let mut i = path.len();
    assert(path@.take(i as int) == path@);
    while i > 0
        invariant
            i <= path@.len(),
            end_point(path@) == end_point(path@.take(i as int)),
        decreases i,
    {
        let ghost t = path@.take(i as int);
        assert(t.last() == path@[i - 1]);
        assert(t.drop_last() == path@.take(i - 1));
        match element_end(&path[i - 1]) {
            Some(p) => {
                return p;
            },
            None => {},
        }
        i = i - 1;
    }
    assert(path@.take(0) =~= Seq::<PathEl<Point>>::empty());
    Point::zero()
}

/// A subpath as it is read from a path: its start, its segment elements,
/// and whether it is closed.
struct SubpathBuf {
    start: Point,
    segs: Vec<PathEl<Point>>,
    closed: bool,
}

impl View for SubpathBuf {
    type V = Subpath;

    closed spec fn view(&self) -> Subpath {
        Subpath { start: self.start, segs: self.segs@, closed: self.closed }
    }
}

spec fn subpath_views(v: Seq<SubpathBuf>) -> Seq<Subpath> {
    v.map_values(|b: SubpathBuf| b@)
}

/// The subpaths read so far, with the one being read last.
spec fn read_so_far(done: Seq<SubpathBuf>, has_cur: bool, cur: Subpath) -> Seq<Subpath> {
    if has_cur {
        subpath_views(done).push(cur)
    } else {
        subpath_views(done)
    }
}

/// Splits a path into its subpaths (see `subpaths`).
fn split_subpaths(path: &Vec<PathEl<Point>>) -> (r: Option<Vec<SubpathBuf>>)
    ensures
        match r {
            Some(v) => subpaths(path@) == Some(subpath_views(v@)),
            None => subpaths(path@) is None,
        },
{
    let mut done: Vec<SubpathBuf> = Vec::new();
    let mut has_cur = false;
    let mut cur_start = Point::zero();
    let mut cur_segs: Vec<PathEl<Point>> = Vec::new();
    let mut cur_closed = false;
    let mut ok = true;
    let mut i: usize = 0;
    assert(path@.take(0) =~= Seq::<PathEl<Point>>::empty());
    assert(subpath_views(done@) =~= Seq::<Subpath>::empty());
    while i < path.len()
        invariant
            i <= path@.len(),
            ok ==> subpaths(path@.take(i as int)) == Some(
                read_so_far(done@, has_cur, Subpath { start: cur_start, segs: cur_segs@, closed: cur_closed }),
            ),
            !ok ==> subpaths(path@.take(i as int)) is None,
            !has_cur ==> done@.len() == 0,
        decreases path@.len() - i,
    {
        let ghost t = path@.take(i + 1);
        let ghost cur = Subpath { start: cur_start, segs: cur_segs@, closed: cur_closed };
        let ghost before = read_so_far(done@, has_cur, cur);
        assert(t.drop_last() == path@.take(i as int));
        assert(t.last() == path@[i as int]);
        if ok {
            match &path[i] {
                PathEl::MoveTo(p) => {
                    if has_cur {
                        done.push(SubpathBuf { start: cur_start, segs: cur_segs, closed: cur_closed });
                        assert(subpath_views(done@) =~= before);
                    }
                    has_cur = true;
                    cur_start = *p;
                    cur_segs = Vec::new();
                    cur_closed = false;
                    assert(read_so_far(done@, has_cur, Subpath { start: cur_start, segs: cur_segs@, closed: cur_closed })
                        =~= before.push(Subpath { start: *p, segs: Seq::empty(), closed: false }));
                },
                PathEl::ClosePath => {
                    if has_cur && !cur_closed {
                        cur_closed = true;
                        assert(before.drop_last() =~= subpath_views(done@));
                        assert(read_so_far(done@, has_cur, Subpath { start: cur_start, segs: cur_segs@, closed: cur_closed })
                            =~= before.drop_last().push(Subpath { closed: true, ..before.last() }));
                    } else {
                        ok = false;
                    }
                },
                el => {
                    if has_cur && !cur_closed {
                        cur_segs.push(*el);
                        assert(before.drop_last() =~= subpath_views(done@));
                        assert(read_so_far(done@, has_cur, Subpath { start: cur_start, segs: cur_segs@, closed: cur_closed })
                            =~= before.drop_last().push(Subpath { segs: before.last().segs.push(*el), ..before.last() }));
                    } else {
                        ok = false;
                    }
                },
            }
        }
        i = i + 1;
    }
    assert(path@.take(i as int) == path@);
    if !ok {
        return None;
    }
    if has_cur {
        let ghost cur = Subpath { start: cur_start, segs: cur_segs@, closed: cur_closed };
        let ghost before = read_so_far(done@, has_cur, cur);
        done.push(SubpathBuf { start: cur_start, segs: cur_segs, closed: cur_closed });
        assert(subpath_views(done@) =~= before);
    }
    Some(done)
}

/// Appends a subpath drawn the other way (see `reversed_subpath`).
fn push_reversed_subpath(out: &mut Vec<PathEl<Point>>, sp: &SubpathBuf)
    ensures
        final(out)@ == old(out)@ + sub_els(reversed_subpath(sp@)),
{
    let ghost v = sp@;
    let ghost base = out@;
    let m = sp.segs.len();
    let mut pts: Vec<Point> = Vec::new();
    pts.push(sp.start);
    let mut k: usize = 0;
    while k < m
        invariant
            m == v.segs.len(),
            v == sp@,
            k <= m,
            pts@.len() == k + 1,
            forall|j: int| 0 <= j <= k ==> #[trigger] pts@[j] == seg_from(v, j),
        decreases m - k,
    {
        let e = match element_end(&sp.segs[k]) {
            Some(p) => p,
            None => Point::zero(),
        };
        pts.push(e);
        k = k + 1;
    }
    let ghost rv = reversed_subpath(v);
    out.push(PathEl::MoveTo(pts[m]));
    let mut i: usize = 0;
    while i < m
        invariant
            m == v.segs.len(),
            v == sp@,
            rv == reversed_subpath(v),
            i <= m,
            pts@.len() == m + 1,
            forall|j: int| 0 <= j <= m ==> #[trigger] pts@[j] == seg_from(v, j),
            out@ == base + seq![PathEl::MoveTo(rv.start)] + rv.segs.take(i as int),
        decreases m - i,
    {
        let k = m - 1 - i;
        let e = pts[k];
        let el = match &sp.segs[k] {
            PathEl::LineTo(_) => PathEl::LineTo(e),
            PathEl::QuadTo(c, _) => PathEl::QuadTo(*c, e),
            PathEl::CurveTo(c1, c2, _) => PathEl::CurveTo(*c2, *c1, e),
            PathEl::MoveTo(p) => PathEl::MoveTo(*p),
            PathEl::ClosePath => PathEl::ClosePath,
        };
        assert(el == rv.segs[i as int]);
        out.push(el);
        assert(rv.segs.take(i + 1) == rv.segs.take(i as int).push(rv.segs[i as int]));
        i = i + 1;
    }
    assert(rv.segs.take(m as int) == rv.segs);
    if sp.closed {
        out.push(PathEl::ClosePath);
    }
    assert(out@ =~= base + sub_els(rv));
}

/// The reversal of a path (see `reversed_path`).
pub fn reverse_path(path: &Vec<PathEl<Point>>) -> (r: Vec<PathEl<Point>>)
    ensures
        r@ == reversed_path(path@),
{
    match split_subpaths(path) {
        None => {
            let n = path.len();
            let mut copy: Vec<PathEl<Point>> = Vec::new();
            let mut i: usize = 0;
            while i < n
                invariant
                    n == path@.len(),
                    i <= n,
                    copy@ == path@.take(i as int),
                decreases n - i,
            {
                copy.push(path[i]);
                assert(path@.take(i + 1) == path@.take(i as int).push(path@[i as int]));
                i = i + 1;
            }
            assert(path@.take(n as int) == path@);
            copy
        },
        Some(subs) => {
            let ghost ss = subpath_views(subs@);
            let ghost rs = reversed_subpaths(ss);
            let n = subs.len();
            let mut r: Vec<PathEl<Point>> = Vec::new();
            let mut i: usize = n;
            assert(rs.take(0) =~= Seq::<Subpath>::empty());
            while i > 0
                invariant
                    n == subs@.len(),
                    ss == subpath_views(subs@),
                    rs == reversed_subpaths(ss),
                    i <= n,
                    r@ == join(rs.take(n - i)),
                decreases i,
            {
                let ghost t = n - i;
                push_reversed_subpath(&mut r, &subs[i - 1]);
                assert(rs.take(t + 1).drop_last() == rs.take(t));
                assert(rs.take(t + 1).last() == rs[t]);
                assert(ss[n - 1 - t] == subs@[i - 1]@);
                i = i - 1;
            }
            assert(rs.take(n as int) == rs);
            r
        },
    }
}

/// Moves the end point of element `idx` to `p` (see `with_end`); an index past
/// the end changes nothing.
pub fn set_element_end(path: &mut Vec<PathEl<Point>>, idx: usize, p: Point)
    ensures
        idx < old(path)@.len() ==> final(path)@ == old(path)@.update(
            idx as int,
            with_end(old(path)@[idx as int], p),
        ),
        idx >= old(path)@.len() ==> final(path)@ == old(path)@,
{
    if idx >= path.len() {
        return;
    }
    let el = match &path[idx] {
        PathEl::MoveTo(_) => PathEl::MoveTo(p),
        PathEl::LineTo(_) => PathEl::LineTo(p),
        PathEl::QuadTo(c, _) => PathEl::QuadTo(*c, p),
        PathEl::CurveTo(c1, c2, _) => PathEl::CurveTo(*c1, *c2, p),
        PathEl::ClosePath => PathEl::ClosePath,
    };
    path.set(idx, el);
}

/// How many elements draw a segment.
pub fn segment_count<P>(path: &Vec<PathEl<P>>) -> (n: usize)
    ensures
        n == count_segments(path@),
{
    let mut n: usize = 0;
    let mut i: usize = 0;
    while i < path.len()
        invariant
            i <= path@.len(),
            n == count_segments(path@.take(i as int)),
            n <= i,
        decreases path@.len() - i,
    {
        assert(path@.take(i + 1).drop_last() == path@.take(i as int));
        match &path[i] {
            PathEl::LineTo(_) | PathEl::QuadTo(_, _) | PathEl::CurveTo(_, _, _) => {
                n = n + 1;
            },
            _ => {},
        }
        i = i + 1;
    }
    assert(path@.take(i as int) == path@);
    n
}

/// The polyline through `pts` (see `polyline`).
pub fn polyline_path(pts: &Vec<Point>, closed: bool) -> (r: Vec<PathEl<Point>>)
    ensures
        r@ == polyline(pts@, closed),
{
    let mut r: Vec<PathEl<Point>> = Vec::new();
    let mut i: usize = 0;
    while i < pts.len()
        invariant
            i <= pts@.len(),
            r@ == polyline(pts@.take(i as int), false),
        decreases pts@.len() - i,
    {
        if i == 0 {
            r.push(PathEl::MoveTo(pts[i]));
        } else {
            r.push(PathEl::LineTo(pts[i]));
        }
        assert(r@ =~= polyline(pts@.take(i + 1), false));
        i = i + 1;
    }
    assert(pts@.take(i as int) == pts@);
    if closed {
        r.push(PathEl::ClosePath);
    }
    r
}

} // verus!
