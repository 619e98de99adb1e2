//! What a path draws, and why reversing paths, and ordering a layer's paths
//! for pen travel, keep it.
use vstd::prelude::*;

use crate::export::{candidate_key, is_nearest_choice, lemma_complete_order, no_candidate, order_wf, placed, placed_in, OrderView};
use crate::optimize::{end_keys_of, greedy, pen_row, sorted_paths, start_keys_of};
use crate::path::{
    end_point, start_point, is_segment, join, reversed_el, reversed_path, reversed_subpath, reversed_subpaths, seg_end, seg_from,
    sub_els, sub_end, subpaths, valid_subpath, PathEl, Point, Subpath,
};

verus! {

/// A piece of a drawing: the element that draws it and the point it is drawn
/// from.
pub struct Edge {
    pub from: Point,
    pub el: PathEl<Point>,
}

/// The pieces drawn by a subpath's segments, in order.
pub open spec fn seg_edges(sp: Subpath) -> Seq<Edge> {
    Seq::new(sp.segs.len(), |k: int| Edge { from: seg_from(sp, k), el: sp.segs[k] })
}

/// The line that closes a subpath, from where it ended back to its start.
pub open spec fn closing_edge(sp: Subpath) -> Edge {
    Edge { from: sub_end(sp), el: PathEl::LineTo(sp.start) }
}

/// What a subpath draws: its segments, then its closing line when it is
/// closed.
pub open spec fn sub_edges(sp: Subpath) -> Seq<Edge> {
    seg_edges(sp) + if sp.closed {
        seq![closing_edge(sp)]
    } else {
        Seq::empty()
    }
}

/// A piece drawn the other way: from where it ended, back to where it started.
pub open spec fn flip_edge(e: Edge) -> Edge {
    Edge { from: seg_end(e.el), el: reversed_el(e.el, e.from) }
}

/// Pieces last to first, each drawn the other way.
pub open spec fn flipped_edges(t: Seq<Edge>) -> Seq<Edge> {
    Seq::new(t.len(), |i: int| flip_edge(t[t.len() - 1 - i]))
}

/// What a subpath draws, drawn the other way: its segments last to first,
/// each the other way, then its closing line the other way when it is closed.
pub open spec fn edges_reversed(sp: Subpath) -> Seq<Edge> {
    flipped_edges(seg_edges(sp)) + if sp.closed {
        seq![flip_edge(closing_edge(sp))]
    } else {
        Seq::empty()
    }
}

/// Whether `q` draws what `s` draws, the other way: when `s` splits into
/// subpaths, `q` splits into as many, which come last to first, each closed
/// exactly when its counterpart is and drawing its pieces the other way;
/// otherwise `q` is `s`.
pub open spec fn draws_reversed(q: Seq<PathEl<Point>>, s: Seq<PathEl<Point>>) -> bool {
    match subpaths(s) {
        None => q == s,
        Some(ss) => match subpaths(q) {
            None => false,
            Some(qs) => {
                &&& qs.len() == ss.len()
                &&& forall|i: int|
                    0 <= i < qs.len() ==> {
                        &&& (#[trigger] qs[i]).closed == ss[ss.len() - 1 - i].closed
                        &&& sub_edges(qs[i]) == edges_reversed(ss[ss.len() - 1 - i])
                    }
            },
        },
    }
}

/// A subpath drawn the other way draws its pieces the other way.
proof fn lemma_reversed_subpath_edges(sp: Subpath)
    requires
        valid_subpath(sp),
    ensures
        valid_subpath(reversed_subpath(sp)),
        reversed_subpath(sp).closed == sp.closed,
        sub_edges(reversed_subpath(sp)) == edges_reversed(sp),
{
    let rv = reversed_subpath(sp);
    let m = sp.segs.len() as int;
    assert forall|i: int| 0 <= i < m implies is_segment(#[trigger] rv.segs[i]) by {
        assert(is_segment(sp.segs[m - 1 - i]));
    }
    assert forall|i: int| 0 <= i < m implies seg_from(rv, i) == seg_end(#[trigger] sp.segs[m - 1 - i]) by {
        if i > 0 {
            assert(is_segment(sp.segs[m - i]));
        }
    }
    assert(seg_edges(rv) =~= flipped_edges(seg_edges(sp)));
    if m > 0 {
        assert(is_segment(sp.segs[0]));
        assert(sub_end(rv) == sp.start);
    }
    assert(closing_edge(rv) == flip_edge(closing_edge(sp)));
    assert(sub_edges(rv) =~= edges_reversed(sp));
}

/// The subpaths of a path hold only segment elements after their `MoveTo`.
proof fn lemma_subpaths_valid(s: Seq<PathEl<Point>>)
    ensures
        subpaths(s) matches Some(ss) ==> forall|i: int| 0 <= i < ss.len() ==> valid_subpath(#[trigger] ss[i]),
    decreases s.len(),
{
    if s.len() > 0 {
        lemma_subpaths_valid(s.drop_last());
        if let Some(ss) = subpaths(s) {
            let ss0 = subpaths(s.drop_last())->Some_0;
            assert forall|i: int| 0 <= i < ss.len() implies valid_subpath(#[trigger] ss[i]) by {
                if i < ss.len() - 1 {
                    assert(ss[i] == ss0[i]);
                } else {
                    match s.last() {
                        PathEl::MoveTo(_) => {},
                        PathEl::ClosePath => {
                            assert(valid_subpath(ss0.last()));
                        },
                        _ => {
                            let l = ss0.last();
                            assert(valid_subpath(l));
                            assert forall|k: int| 0 <= k < ss[i].segs.len() implies is_segment(#[trigger] ss[i].segs[k]) by {
                                if k < l.segs.len() {
                                    assert(ss[i].segs[k] == l.segs[k]);
                                }
                            }
                        },
                    }
                }
            }
        }
    }
}

/// A path is the join of its subpaths.
proof fn lemma_join_of_subpaths(s: Seq<PathEl<Point>>)
    ensures
        subpaths(s) matches Some(ss) ==> join(ss) == s,
    decreases s.len(),
{
    if s.len() == 0 {
        assert(join(Seq::<Subpath>::empty()) =~= s);
    } else {
        let t = s.drop_last();
        lemma_join_of_subpaths(t);
        if let Some(ss) = subpaths(s) {
            let ss0 = subpaths(t)->Some_0;
            assert(t.push(s.last()) =~= s);
            match s.last() {
                PathEl::MoveTo(p) => {
                    assert(ss.drop_last() =~= ss0);
                    assert(sub_els(ss.last()) =~= seq![PathEl::MoveTo(p)]);
                    assert(join(ss) =~= s);
                },
                _ => {
                    assert(ss.drop_last() =~= ss0.drop_last());
                    let l0 = ss0.last();
                    assert(!l0.closed);
                    assert(sub_els(l0) =~= seq![PathEl::MoveTo(l0.start)] + l0.segs);
                    assert(sub_els(ss.last()) =~= sub_els(l0).push(s.last()));
                    assert(join(ss0) == join(ss0.drop_last()) + sub_els(l0));
                    assert(join(ss) =~= s);
                },
            }
        }
    }
}

/// Appending a `MoveTo` and segment elements to a path appends an open
/// subpath to its split.
proof fn lemma_subpaths_open(a: Seq<PathEl<Point>>, ys: Seq<Subpath>, p: Point, segs: Seq<PathEl<Point>>)
    requires
        subpaths(a) == Some(ys),
        forall|k: int| 0 <= k < segs.len() ==> is_segment(#[trigger] segs[k]),
    ensures
        subpaths(a + seq![PathEl::MoveTo(p)] + segs) == Some(ys.push(Subpath { start: p, segs, closed: false })),
    decreases segs.len(),
{
    let t = a + seq![PathEl::MoveTo(p)] + segs;
    if segs.len() == 0 {
        assert(t.drop_last() =~= a);
        assert(segs =~= Seq::<PathEl<Point>>::empty());
    } else {
        let sd = segs.drop_last();
        lemma_subpaths_open(a, ys, p, sd);
        assert(t.drop_last() =~= a + seq![PathEl::MoveTo(p)] + sd);
        assert(is_segment(segs[segs.len() - 1]));
        let ss = ys.push(Subpath { start: p, segs: sd, closed: false });
        assert(ss.drop_last() =~= ys);
        assert(sd.push(segs.last()) =~= segs);
    }
}

/// Appending a valid subpath's elements to a path appends it to its split.
proof fn lemma_subpaths_append(a: Seq<PathEl<Point>>, ys: Seq<Subpath>, sp: Subpath)
    requires
        subpaths(a) == Some(ys),
        valid_subpath(sp),
    ensures
        subpaths(a + sub_els(sp)) == Some(ys.push(sp)),
{
    lemma_subpaths_open(a, ys, sp.start, sp.segs);
    let o = a + seq![PathEl::MoveTo(sp.start)] + sp.segs;
    if sp.closed {
        let t = a + sub_els(sp);
        assert(t =~= o.push(PathEl::ClosePath));
        assert(t.drop_last() =~= o);
        let ss = ys.push(Subpath { start: sp.start, segs: sp.segs, closed: false });
        assert(ss.drop_last() =~= ys);
    } else {
        assert(a + sub_els(sp) =~= o);
    }
}

/// Valid subpaths, joined, split back into themselves.
proof fn lemma_subpaths_of_join(ss: Seq<Subpath>)
    requires
        forall|i: int| 0 <= i < ss.len() ==> valid_subpath(#[trigger] ss[i]),
    ensures
        subpaths(join(ss)) == Some(ss),
    decreases ss.len(),
{
    if ss.len() == 0 {
        assert(ss =~= Seq::<Subpath>::empty());
    } else {
        let s0 = ss.drop_last();
        assert forall|i: int| 0 <= i < s0.len() implies valid_subpath(#[trigger] s0[i]) by {
            assert(s0[i] == ss[i]);
        }
        lemma_subpaths_of_join(s0);
        assert(valid_subpath(ss[ss.len() - 1]));
        lemma_subpaths_append(join(s0), s0, ss.last());
        assert(s0.push(ss.last()) =~= ss);
    }
}

/// Reversing a path keeps what it draws: its subpaths come last to first,
/// each closed exactly when it was and drawing the same pieces the other way
/// (a path that does not split into subpaths is kept as it is).
pub proof fn lemma_reverse_keeps_drawing(s: Seq<PathEl<Point>>)
    ensures
        draws_reversed(reversed_path(s), s),
{
    if let Some(ss) = subpaths(s) {
        lemma_subpaths_valid(s);
        let n = ss.len();
        let rs = reversed_subpaths(ss);
        assert forall|i: int| 0 <= i < n implies {
            &&& valid_subpath(#[trigger] rs[i])
            &&& rs[i].closed == ss[n - 1 - i].closed
            &&& sub_edges(rs[i]) == edges_reversed(ss[n - 1 - i])
        } by {
            lemma_reversed_subpath_edges(ss[n - 1 - i]);
        }
        lemma_subpaths_of_join(rs);
    }
}

/// Reversing a path twice gives it back.
pub proof fn lemma_reverse_twice(s: Seq<PathEl<Point>>)
    ensures
        reversed_path(reversed_path(s)) == s,
{
    if let Some(ss) = subpaths(s) {
        lemma_subpaths_valid(s);
        lemma_join_of_subpaths(s);
        let n = ss.len();
        let rs = reversed_subpaths(ss);
        assert forall|i: int| 0 <= i < n implies valid_subpath(#[trigger] rs[i]) by {
            lemma_reversed_subpath_edges(ss[n - 1 - i]);
        }
        lemma_subpaths_of_join(rs);
        let rrs = reversed_subpaths(rs);
        assert forall|i: int| 0 <= i < n implies #[trigger] rrs[i] == ss[i] by {
            lemma_reverse_subpath_twice(ss[i]);
        }
        assert(rrs =~= ss);
    }
}

/// Reversing a valid subpath twice gives it back.
proof fn lemma_reverse_subpath_twice(sp: Subpath)
    requires
        valid_subpath(sp),
    ensures
        reversed_subpath(reversed_subpath(sp)) == sp,
{
    let rv = reversed_subpath(sp);
    let rr = reversed_subpath(rv);
    let m = sp.segs.len() as int;
    lemma_reversed_subpath_edges(sp);
    if m > 0 {
        assert(is_segment(sp.segs[0]));
    }
    assert(rr.start == sp.start);
    assert forall|i: int| 0 <= i < m implies #[trigger] rr.segs[i] == sp.segs[i] by {
        assert(is_segment(sp.segs[i]));
        let k = m - 1 - i;
        assert(rv.segs[k] == reversed_el(sp.segs[i], seg_from(sp, i)));
        if k > 0 {
            assert(is_segment(sp.segs[i + 1]));
        }
        assert(seg_from(rv, k) == seg_end(sp.segs[i]));
    }
    assert(rr.segs =~= sp.segs);
}

/// A joined path of at least one subpath starts with a `MoveTo` the start of
/// the first one.
proof fn lemma_join_first(ss: Seq<Subpath>)
    requires
        ss.len() > 0,
    ensures
        join(ss).len() > 0,
        join(ss)[0] == PathEl::MoveTo(ss[0].start),
    decreases ss.len(),
{
    let s0 = ss.drop_last();
    if s0.len() > 0 {
        lemma_join_first(s0);
        assert(s0[0] == ss[0]);
    } else {
        assert(join(s0) =~= Seq::<PathEl<Point>>::empty());
    }
}

/// A path that ends with a valid subpath ends where that subpath's last
/// segment ends.
proof fn lemma_end_point_sub(a: Seq<PathEl<Point>>, sp: Subpath)
    requires
        valid_subpath(sp),
    ensures
        end_point(a + sub_els(sp)) == sub_end(sp),
{
    let o = a + seq![PathEl::MoveTo(sp.start)] + sp.segs;
    let m = sp.segs.len() as int;
    if m > 0 {
        assert(o.last() == sp.segs[m - 1]);
        assert(is_segment(sp.segs[m - 1]));
    } else {
        assert(o.last() == PathEl::MoveTo(sp.start));
    }
    assert(end_point(o) == sub_end(sp));
    if sp.closed {
        let t = a + sub_els(sp);
        assert(t.drop_last() =~= o);
        assert(t.last() == PathEl::<Point>::ClosePath);
    } else {
        assert(a + sub_els(sp) =~= o);
    }
}

/// A reversed path starts where the path ended, when the path splits into at
/// least one subpath.
pub proof fn lemma_reverse_starts_at_end(s: Seq<PathEl<Point>>)
    requires
        subpaths(s) matches Some(ss) && ss.len() > 0,
    ensures
        start_point(reversed_path(s)) == end_point(s),
{
    let ss = subpaths(s)->Some_0;
    lemma_subpaths_valid(s);
    lemma_join_of_subpaths(s);
    let n = ss.len();
    assert(valid_subpath(ss[n - 1]));
    lemma_end_point_sub(join(ss.drop_last()), ss.last());
    lemma_join_first(reversed_subpaths(ss));
}

/// Sorting a layer's paths for pen travel keeps the drawing: a complete
/// ordering places every path exactly once, each either as it is or reversed,
/// and a reversed path draws what the path draws, the other way.
pub proof fn lemma_ordering_keeps_drawing(paths: Seq<Seq<PathEl<Point>>>, o: OrderView)
    requires
        order_wf(o, paths.len()),
        o.order.len() == paths.len(),
    ensures
        forall|i: int| 0 <= i < paths.len() ==> #[trigger] placed_in(o.order, i),
        forall|k: int, q: int|
            0 <= k < q < o.order.len() ==> (#[trigger] o.order[k]).0 != (#[trigger] o.order[q]).0,
        forall|k: int|
            0 <= k < o.order.len() ==> if (#[trigger] o.order[k]).1 {
                draws_reversed(placed(paths, o.order[k]), paths[o.order[k].0 as int])
            } else {
                placed(paths, o.order[k]) == paths[o.order[k].0 as int]
            },
{
    lemma_complete_order(o, paths.len());
    assert forall|k: int| 0 <= k < o.order.len() implies if (#[trigger] o.order[k]).1 {
        draws_reversed(placed(paths, o.order[k]), paths[o.order[k].0 as int])
    } else {
        placed(paths, o.order[k]) == paths[o.order[k].0 as int]
    } by {
        lemma_reverse_keeps_drawing(paths[o.order[k].0 as int]);
    }
}

/// Candidate `(b, rb)` is unused and the nearest among the unused paths
/// below `j`, the first in scanning order among equals.
spec fn best_below(used: Seq<bool>, sk: Seq<u64>, ek: Seq<u64>, j: int, b: int, rb: bool) -> bool {
    &&& 0 <= b < j
    &&& !used[b]
    &&& forall|j2: int, r2: bool| 0 <= j2 < j && !used[j2] ==> candidate_key(sk, ek, b, rb) <= #[trigger] candidate_key(sk, ek, j2, r2)
    &&& forall|j2: int, r2: bool|
        0 <= j2 < j && !used[j2] && crate::export::scanned_before(j2, r2, b, rb) ==> candidate_key(sk, ek, b, rb)
            < #[trigger] candidate_key(sk, ek, j2, r2)
}

/// Among the paths below `j`, when one is unused, a nearest one exists.
proof fn lemma_best_below(used: Seq<bool>, sk: Seq<u64>, ek: Seq<u64>, j: int)
    requires
        0 <= j <= used.len(),
    ensures
        (exists|i: int| 0 <= i < j && !used[i]) ==> exists|b: int, rb: bool| #[trigger] best_below(used, sk, ek, j, b, rb),
    decreases j,
{
    if j > 0 && exists|i: int| 0 <= i < j && !used[i] {
        let t = j - 1;
        lemma_best_below(used, sk, ek, t);
        if used[t] {
            let i = choose|i: int| 0 <= i < j && !used[i];
            assert(i < t);
            let (b, rb) = choose|b: int, rb: bool| #[trigger] best_below(used, sk, ek, t, b, rb);
            assert(best_below(used, sk, ek, j, b, rb));
        } else {
            let ka = candidate_key(sk, ek, t, false);
            let kb = candidate_key(sk, ek, t, true);
            let own: bool = kb < ka;
            let ko = candidate_key(sk, ek, t, own);
            if exists|i: int| 0 <= i < t && !used[i] {
                let (b, rb) = choose|b: int, rb: bool| #[trigger] best_below(used, sk, ek, t, b, rb);
                if candidate_key(sk, ek, b, rb) <= ko {
                    assert(best_below(used, sk, ek, j, b, rb));
                } else {
                    assert(best_below(used, sk, ek, j, t, own));
                }
            } else {
                assert(best_below(used, sk, ek, j, t, own));
            }
        }
    }
}

/// When some unused path has a key below `MAX_DISTANCE_KEY`, the nearest
/// choice exists.
proof fn lemma_nearest_exists(used: Seq<bool>, sk: Seq<u64>, ek: Seq<u64>)
    requires
        used.len() <= usize::MAX,
    ensures
        !no_candidate(used, sk, ek) ==> exists|c: (usize, bool)| is_nearest_choice(used, sk, ek, c.0 as int, c.1),
{
    if !no_candidate(used, sk, ek) {
        let (w, rw) = choose|j: int, rj: bool|
            !(0 <= j < used.len() && !used[j] ==> #[trigger] candidate_key(sk, ek, j, rj)
                >= crate::export::MAX_DISTANCE_KEY);
        lemma_best_below(used, sk, ek, used.len() as int);
        let (b, rb) = choose|b: int, rb: bool| #[trigger] best_below(used, sk, ek, used.len() as int, b, rb);
        assert(candidate_key(sk, ek, b, rb) <= candidate_key(sk, ek, w, rw));
        let c: (usize, bool) = (b as usize, rb);
        assert(is_nearest_choice(used, sk, ek, c.0 as int, c.1));
    }
}

/// Every stage of the greedy ordering is an ordering over the paths, with at
/// least the first path placed.
proof fn lemma_greedy_wf(paths: Seq<Seq<PathEl<Point>>>, keys: Seq<Seq<u64>>, steps: nat)
    requires
        1 <= paths.len() <= usize::MAX,
    ensures
        order_wf(greedy(paths, keys, steps), paths.len()),
        greedy(paths, keys, steps).order.len() >= 1,
    decreases steps,
{
    let n = paths.len();
    if steps == 0 {
        let o = greedy(paths, keys, 0);
        assert forall|i: int| 0 <= i < n implies (#[trigger] o.used[i] <==> placed_in(o.order, i)) by {
            if i == 0 {
                assert(o.order[0].0 == 0);
            }
        }
    } else {
        lemma_greedy_wf(paths, keys, (steps - 1) as nat);
        let before = greedy(paths, keys, (steps - 1) as nat);
        let p = pen_row(before.order.last());
        let sk = start_keys_of(keys, p, n);
        let ek = end_keys_of(keys, p, n);
        if !no_candidate(before.used, sk, ek) {
            let c = choose|c: (usize, bool)| is_nearest_choice(before.used, sk, ek, c.0 as int, c.1);
            let after = greedy(paths, keys, steps);
            let i = c.0 as int;
            if is_nearest_choice(before.used, sk, ek, c.0 as int, c.1) {
                assert(after.order == before.order.push(c));
                assert(after.used == before.used.update(i, true));
                assert forall|k: int| 0 <= k < before.order.len() implies (#[trigger] before.order[k]).0 != i by {
                    if before.order[k].0 == i {
                        assert(placed_in(before.order, i));
                    }
                }
                assert forall|k: int, q: int| 0 <= k < q < after.order.len() implies (#[trigger] after.order[k]).0
                    != (#[trigger] after.order[q]).0 by {
                    assert(after.order[k] == before.order[k]);
                    if q < before.order.len() {
                        assert(after.order[q] == before.order[q]);
                    }
                }
                assert forall|k: int| 0 <= k < after.order.len() implies (#[trigger] after.order[k]).0 < n by {
                    if k < before.order.len() {
                        assert(after.order[k] == before.order[k]);
                    }
                }
                assert forall|j: int| 0 <= j < n implies (#[trigger] after.used[j] <==> placed_in(after.order, j)) by {
                    if j == i {
                        assert(after.order[before.order.len() as int].0 == i);
                    } else {
                        if before.used[j] {
                            let k = choose|k: int| 0 <= k < before.order.len() && before.order[k].0 == j;
                            assert(after.order[k].0 == j);
                        }
                        if placed_in(after.order, j) {
                            let k = choose|k: int| 0 <= k < after.order.len() && after.order[k].0 == j;
                            assert(k < before.order.len());
                            assert(before.order[k].0 == j);
                        }
                    }
                }
            } else {
                assert(false) by {
                    lemma_nearest_exists(before.used, sk, ek);
                }
            }
        }
    }
}

/// Sorting a layer's paths for pen travel keeps the drawing: the sorted list
/// is the greedy ordering's placements, no path placed twice, each path
/// either as it is or reversed, and a reversed path draws what the path
/// draws, the other way. A layer of fewer than two paths is kept as it is.
pub proof fn lemma_sorted_paths_keep_drawing(paths: Seq<Seq<PathEl<Point>>>, keys: Seq<Seq<u64>>)
    requires
        paths.len() <= usize::MAX,
    ensures
        paths.len() <= 1 ==> sorted_paths(paths, keys) == paths,
        paths.len() >= 2 ==> {
            let o = greedy(paths, keys, (paths.len() - 1) as nat);
            let s = sorted_paths(paths, keys);
            &&& order_wf(o, paths.len())
            &&& s.len() == o.order.len()
            &&& forall|k: int|
                0 <= k < s.len() ==> if (#[trigger] o.order[k]).1 {
                    draws_reversed(s[k], paths[o.order[k].0 as int])
                } else {
                    s[k] == paths[o.order[k].0 as int]
                }
        },
{
    if paths.len() >= 2 {
        let o = greedy(paths, keys, (paths.len() - 1) as nat);
        lemma_greedy_wf(paths, keys, (paths.len() - 1) as nat);
        assert forall|k: int| 0 <= k < o.order.len() implies if (#[trigger] o.order[k]).1 {
            draws_reversed(sorted_paths(paths, keys)[k], paths[o.order[k].0 as int])
        } else {
            sorted_paths(paths, keys)[k] == paths[o.order[k].0 as int]
        } by {
            lemma_reverse_keeps_drawing(paths[o.order[k].0 as int]);
        }
    }
}

/// An ordering that places fewer paths than there are leaves one unused.
proof fn lemma_unused_exists(o: OrderView, n: nat)
    requires
        order_wf(o, n),
        o.order.len() < n,
    ensures
        exists|i: int| 0 <= i < n && !o.used[i],
{
    if forall|i: int| 0 <= i < n ==> o.used[i] {
        let idx = Seq::new(o.order.len(), |k: int| o.order[k].0 as int);
        let range = vstd::set_lib::set_int_range(0, n as int);
        vstd::set_lib::lemma_int_range(0, n as int);
        vstd::seq_lib::seq_to_set_is_finite(idx);
        assert(range.subset_of(idx.to_set())) by {
            assert forall|i: int| range.contains(i) implies idx.to_set().contains(i) by {
                assert(o.used[i]);
                assert(placed_in(o.order, i));
                let k = choose|k: int| 0 <= k < o.order.len() && (#[trigger] o.order[k]).0 == i;
                assert(idx[k] == i);
            }
        }
        vstd::set_lib::lemma_len_subset(range, idx.to_set());
        idx.lemma_cardinality_of_set();
        assert(false);
    }
}

/// With every distance finite, each greedy step places one more path until
/// all are placed.
proof fn lemma_greedy_len(paths: Seq<Seq<PathEl<Point>>>, keys: Seq<Seq<u64>>, steps: nat)
    requires
        1 <= paths.len() <= usize::MAX,
        steps < paths.len(),
        crate::optimize::table_fits(keys, paths.len()),
        forall|r: int, c: int|
            0 <= r < keys.len() && 0 <= c < keys[r].len() ==> #[trigger] keys[r][c] < crate::export::MAX_DISTANCE_KEY,
    ensures
        greedy(paths, keys, steps).order.len() == steps + 1,
    decreases steps,
{
    if steps > 0 {
        let n = paths.len();
        lemma_greedy_len(paths, keys, (steps - 1) as nat);
        lemma_greedy_wf(paths, keys, (steps - 1) as nat);
        let before = greedy(paths, keys, (steps - 1) as nat);
        let p = pen_row(before.order.last());
        let sk = start_keys_of(keys, p, n);
        let ek = end_keys_of(keys, p, n);
        lemma_unused_exists(before, n);
        let i = choose|i: int| 0 <= i < n && !before.used[i];
        assert(before.order.last().0 < n);
        assert(0 <= p < keys.len());
        assert(keys[p][2 * i] < crate::export::MAX_DISTANCE_KEY);
        assert(candidate_key(sk, ek, i, false) < crate::export::MAX_DISTANCE_KEY);
        assert(!no_candidate(before.used, sk, ek));
        lemma_nearest_exists(before.used, sk, ek);
    }
}

/// With every distance of the table finite, sorting a layer's paths for pen
/// travel places each of them exactly once: the sorted list has as many
/// paths as the layer, and every path is placed (see
/// `lemma_sorted_paths_keep_drawing` for what each placement draws).
pub proof fn lemma_sorted_paths_complete(paths: Seq<Seq<PathEl<Point>>>, keys: Seq<Seq<u64>>)
    requires
        2 <= paths.len() <= usize::MAX,
        crate::optimize::table_fits(keys, paths.len()),
        forall|r: int, c: int|
            0 <= r < keys.len() && 0 <= c < keys[r].len() ==> #[trigger] keys[r][c] < crate::export::MAX_DISTANCE_KEY,
    ensures
        sorted_paths(paths, keys).len() == paths.len(),
        forall|i: int|
            0 <= i < paths.len() ==> #[trigger] placed_in(greedy(paths, keys, (paths.len() - 1) as nat).order, i),
{
    let n = paths.len();
    lemma_greedy_len(paths, keys, (n - 1) as nat);
    lemma_greedy_wf(paths, keys, (n - 1) as nat);
    lemma_complete_order(greedy(paths, keys, (n - 1) as nat), n);
}

} // verus!
