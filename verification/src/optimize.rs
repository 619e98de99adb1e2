//! The export list: the visible paths of each visible layer, in greedy
//! nearest-neighbour order, with their layer's name, colour and pen width.
//!
//! Distances are measured by the caller and handed over as a table per
//! layer: for `n` paths, row `2 * i + r` holds the distances from the pen
//! after drawing path `i` (reversed when `r` is 1) to the start
//! (column `2 * j`) and to the end (column `2 * j + 1`) of each path `j`,
//! each as the bit pattern of a non-negative double, which orders as the
//! distance does.
use vstd::prelude::*;

use crate::export::{
    geometries_view, is_nearest_choice, no_candidate, placed, svg_hex, visible_geometries,
    NearestOrder, OptimizedPath, OrderView, PathOptimizer,
};
use crate::model::{Document, LayerView};
use crate::path::{end_point, PathEl, Point};

verus! {

/// A distance table fits `n` paths: `2 n` rows of `2 n` keys.
pub open spec fn table_fits(keys: Seq<Seq<u64>>, n: nat) -> bool {
    &&& keys.len() == 2 * n
    &&& forall|r: int| 0 <= r < keys.len() ==> (#[trigger] keys[r]).len() == 2 * n
}

/// The views of a table's rows.
pub open spec fn table_view(keys: Seq<Vec<u64>>) -> Seq<Seq<u64>> {
    keys.map_values(|row: Vec<u64>| row@)
}

/// The row of the pen after placement `c`.
pub open spec fn pen_row(c: (usize, bool)) -> int {
    2 * c.0 + if c.1 {
        1int
    } else {
        0int
    }
}

/// The distances from pen row `p` to the starts of the `n` paths.
pub open spec fn start_keys_of(keys: Seq<Seq<u64>>, p: int, n: nat) -> Seq<u64> {
    Seq::new(n, |j: int| keys[p][2 * j])
}

/// The distances from pen row `p` to the ends of the `n` paths.
pub open spec fn end_keys_of(keys: Seq<Seq<u64>>, p: int, n: nat) -> Seq<u64> {
    Seq::new(n, |j: int| keys[p][2 * j + 1])
}

/// The ordering after `steps` greedy steps: the first path placed first, as
/// it is; then each step places the nearest unused path from where the pen
/// is (see `is_nearest_choice`), or changes nothing when there is none.
pub open spec fn greedy(paths: Seq<Seq<PathEl<Point>>>, keys: Seq<Seq<u64>>, steps: nat) -> OrderView
    decreases steps,
{
    if steps == 0 {
        OrderView {
            used: Seq::new(paths.len(), |i: int| i == 0),
            order: seq![(0usize, false)],
            last_end: end_point(paths[0]),
        }
    } else {
        let o = greedy(paths, keys, (steps - 1) as nat);
        let p = pen_row(o.order.last());
        let sk = start_keys_of(keys, p, paths.len());
        let ek = end_keys_of(keys, p, paths.len());
        if no_candidate(o.used, sk, ek) {
            o
        } else {
            let c = choose|c: (usize, bool)| is_nearest_choice(o.used, sk, ek, c.0 as int, c.1);
            OrderView {
                used: o.used.update(c.0 as int, true),
                order: o.order.push(c),
                last_end: end_point(placed(paths, c)),
            }
        }
    }
}

/// A layer's paths in export order: fewer than two as they are; otherwise
/// each path as the greedy ordering places it, after `n - 1` steps.
pub open spec fn sorted_paths(paths: Seq<Seq<PathEl<Point>>>, keys: Seq<Seq<u64>>) -> Seq<Seq<PathEl<Point>>> {
    if paths.len() <= 1 {
        paths
    } else {
        let o = greedy(paths, keys, (paths.len() - 1) as nat);
        Seq::new(o.order.len(), |k: int| placed(paths, o.order[k]))
    }
}

/// An exported path as a value: elements, layer name, colour code, pen width.
pub open spec fn export_view(o: OptimizedPath) -> (Seq<PathEl<Point>>, Seq<char>, Seq<char>, u64) {
    (o.path@, o.layer_name@, o.stroke_color@, o.stroke_width)
}

/// The export entries of a layer, given its distance table.
pub open spec fn layer_export(l: LayerView, keys: Seq<Seq<u64>>) -> Seq<(Seq<PathEl<Point>>, Seq<char>, Seq<char>, u64)> {
    let s = sorted_paths(visible_geometries(l.paths), keys);
    Seq::new(s.len(), |k: int| (s[k], l.name, svg_hex(l.pen.color), l.pen.width_mm))
}

/// The export list of a document's layers: each visible layer's entries in turn.
pub open spec fn export_list(layers: Seq<LayerView>, tables: Seq<Seq<Seq<u64>>>) -> Seq<
    (Seq<PathEl<Point>>, Seq<char>, Seq<char>, u64),
>
    decreases layers.len(),
{
    if layers.len() == 0 {
        Seq::empty()
    } else {
        let before = export_list(layers.drop_last(), tables);
        if layers.last().visible {
            before + layer_export(layers.last(), tables[layers.len() - 1])
        } else {
            before
        }
    }
}

/// The distance tables fit the document: one per layer, and each visible
/// layer's fits its visible paths.
pub open spec fn tables_fit(layers: Seq<LayerView>, tables: Seq<Seq<Seq<u64>>>) -> bool {
    &&& tables.len() == layers.len()
    &&& forall|l: int|
        0 <= l < layers.len() && layers[l].visible ==> table_fits(
            #[trigger] tables[l],
            visible_geometries(layers[l].paths).len(),
        )
}

/// At most one candidate is the nearest choice.
proof fn lemma_nearest_choice_unique(
    used: Seq<bool>,
    sk: Seq<u64>,
    ek: Seq<u64>,
    a: (usize, bool),
    b: (usize, bool),
)
    requires
        is_nearest_choice(used, sk, ek, a.0 as int, a.1),
        is_nearest_choice(used, sk, ek, b.0 as int, b.1),
    ensures
        a == b,
{
    let ka = crate::export::candidate_key(sk, ek, a.0 as int, a.1);
    let kb = crate::export::candidate_key(sk, ek, b.0 as int, b.1);
    assert(ka <= kb);
    assert(kb <= ka);
    if a != b {
        if crate::export::scanned_before(a.0 as int, a.1, b.0 as int, b.1) {
            assert(kb < ka);
        } else {
            assert(crate::export::scanned_before(b.0 as int, b.1, a.0 as int, a.1));
            assert(ka < kb);
        }
    }
}

impl PathOptimizer {
    /// Sorts a layer's paths for pen travel (see `sorted_paths`): the first
    /// path first, then repeatedly the nearest unused path entered from its
    /// nearer end, with the distances of `keys` (see the module's note).
    pub fn sort_by_nearest_neighbor(paths: Vec<Vec<PathEl<Point>>>, keys: &Vec<Vec<u64>>) -> (r: Vec<Vec<PathEl<Point>>>)
        requires
            table_fits(table_view(keys@), paths@.len()),
        ensures
            geometries_view(r@) == sorted_paths(geometries_view(paths@), table_view(keys@)),
    {
        let ghost pv = geometries_view(paths@);
        let ghost kv = table_view(keys@);
        let n = paths.len();
        if n <= 1 {
            return paths;
        }
        let mut order = NearestOrder::begin(&paths);
        assert(order@ == greedy(pv, kv, 0));
        let kl = keys.len();
        assert(kv.len() == keys@.len());
        assert(2 * n == kl);
        let mut k: usize = 1;
        while k < n
            invariant
                n == paths@.len(),
                n >= 2,
                1 <= k <= n,
                pv == geometries_view(paths@),
                kv == table_view(keys@),
                table_fits(kv, n as nat),
                2 * n <= usize::MAX,
                crate::export::order_wf(order@, n as nat),
                order@.order.len() >= 1,
                order@ == greedy(pv, kv, (k - 1) as nat),
            decreases n - k,
        {
            let ghost o = order@;
            let (i, rev) = order.last_placed();
            assert(o.order[o.order.len() - 1].0 < n);
            let p: usize = if rev { 2 * i + 1 } else { 2 * i };
            assert(p == pen_row(o.order.last()));
            assert(kv[p as int] == keys@[p as int]@);
            let row = &keys[p];
            let mut sk: Vec<u64> = Vec::new();
            let mut ek: Vec<u64> = Vec::new();
            let mut j: usize = 0;
            while j < n
                invariant
                    n == paths@.len(),
                    j <= n,
                    p < 2 * n,
                    2 * n <= usize::MAX,
                    row@ == kv[p as int],
                    row@.len() == 2 * n,
                    sk@ == start_keys_of(kv, p as int, n as nat).take(j as int),
                    ek@ == end_keys_of(kv, p as int, n as nat).take(j as int),
                decreases n - j,
            {
                sk.push(row[2 * j]);
                ek.push(row[2 * j + 1]);
                assert(sk@ =~= start_keys_of(kv, p as int, n as nat).take(j + 1));
                assert(ek@ =~= end_keys_of(kv, p as int, n as nat).take(j + 1));
                j = j + 1;
            }
            assert(sk@ =~= start_keys_of(kv, p as int, n as nat));
            assert(ek@ =~= end_keys_of(kv, p as int, n as nat));
            let got = order.step(&paths, &sk, &ek);
            proof {
                let g = greedy(pv, kv, k as nat);
                assert(greedy(pv, kv, (k - 1) as nat) == o);
                match got {
                    Some(c) => {
                        assert(!no_candidate(o.used, sk@, ek@));
                        let cc = choose|cc: (usize, bool)| is_nearest_choice(o.used, sk@, ek@, cc.0 as int, cc.1);
                        lemma_nearest_choice_unique(o.used, sk@, ek@, c, cc);
                        assert(order@ == g);
                    },
                    None => {
                        assert(order@ == g);
                    },
                }
            }
            k = k + 1;
        }
        let r = order.ordered(&paths);
        assert(geometries_view(r@) =~= sorted_paths(pv, kv));
        r
    }

    /// The export list (see `export_list`): for each visible layer in turn,
    /// its visible paths sorted for pen travel (with that layer's distance
    /// table, `tables[l]`), each carrying the layer's name, colour code and
    /// pen width.
    pub fn optimize(document: &Document, tables: &Vec<Vec<Vec<u64>>>) -> (r: Vec<OptimizedPath>)
        requires
            tables_fit(document@.layers, tables@.map_values(|t: Vec<Vec<u64>>| table_view(t@))),
        ensures
            r@.map_values(|o: OptimizedPath| export_view(o)) == export_list(
                document@.layers,
                tables@.map_values(|t: Vec<Vec<u64>>| table_view(t@)),
            ),
    {
        let ghost tv = tables@.map_values(|t: Vec<Vec<u64>>| table_view(t@));
        let mut r: Vec<OptimizedPath> = Vec::new();
        let mut l: usize = 0;
        while l < document.layers.len()
            invariant
                l <= document@.layers.len(),
                tv == tables@.map_values(|t: Vec<Vec<u64>>| table_view(t@)),
                tables_fit(document@.layers, tv),
                r@.map_values(|o: OptimizedPath| export_view(o)) == export_list(
                    document@.layers.take(l as int),
                    tv,
                ),
            decreases document@.layers.len() - l,
        {
            let ghost before = r@.map_values(|o: OptimizedPath| export_view(o));
            let ghost lv = document@.layers[l as int];
            proof {
                let t = document@.layers.take(l + 1);
                assert(t.drop_last() == document@.layers.take(l as int));
                assert(t.last() == lv);
                assert(t.len() - 1 == l);
            }
            let layer = &document.layers[l];
            assert(layer@ == lv);
            if layer.visible {
                let vis = PathOptimizer::visible_paths(layer);
                assert(tv[l as int] == table_view(tables@[l as int]@));
                let sorted = PathOptimizer::sort_by_nearest_neighbor(vis, &tables[l]);
                let ghost sv = geometries_view(sorted@);
                let mut entries = PathOptimizer::layer_entries(layer, sorted);
                let ghost ev = entries@.map_values(|o: OptimizedPath| export_view(o));
                assert(ev =~= layer_export(lv, tv[l as int]));
                r.append(&mut entries);
                assert(r@.map_values(|o: OptimizedPath| export_view(o)) =~= before + ev);
            }
            l = l + 1;
        }
        assert(document@.layers.take(l as int) == document@.layers);
        r
    }
}

} // verus!
