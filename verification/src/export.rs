//! Export: the per-layer path lists handed to the plotter, nearest-neighbour
//! ordering decisions, overlap removal, colour codes and the SVG text.
use vstd::prelude::*;

use crate::model::{paths_view, Color, Layer, PathView, PlotPath};
use crate::model::copy_geometry;
use crate::path::{end_point, path_endpoint, reverse_path, reversed_path, PathEl, Point};
use crate::text::{chars_of, push_chars, push_signed_decimal, push_str, signed_decimal, string_from_chars};

verus! {

broadcast use vstd::string::group_string_axioms;

/// Options for SVG export.
pub struct ExportOptions {
    /// Remove paths whose segments coincide with earlier segments of the same
    /// layer (experimental).
    pub remove_overlaps: bool,
}

impl Default for ExportOptions {
    /// The default options: overlap removal off.
    fn default() -> (o: ExportOptions)
        ensures
            !o.remove_overlaps,
    {
        ExportOptions { remove_overlaps: false }
    }
}

/// A path ready for export, with the name, colour and pen width of its layer.
pub struct OptimizedPath {
    pub path: Vec<PathEl<Point>>,
    pub layer_name: String,
    /// The layer's pen colour as `#RRGGBB`.
    pub stroke_color: String,
    /// The layer's pen width in mm (bit pattern of a double).
    pub stroke_width: u64,
}

/// The upper-case hexadecimal digit of `d < 16`.
pub open spec fn hex_digit(d: nat) -> char {
    if d < 10 {
        crate::text::digit_char(d)
    } else if d == 10 {
        'A'
    } else if d == 11 {
        'B'
    } else if d == 12 {
        'C'
    } else if d == 13 {
        'D'
    } else if d == 14 {
        'E'
    } else {
        'F'
    }
}

/// A byte as two upper-case hexadecimal digits (`{:02X}`).
pub open spec fn hex_byte(b: u8) -> Seq<char> {
    seq![hex_digit((b / 16) as nat), hex_digit((b % 16) as nat)]
}

/// A colour as SVG writes it: `#` and the red, green and blue bytes in
/// upper-case hexadecimal; alpha is left out.
pub open spec fn svg_hex(c: Color) -> Seq<char> {
    seq!['#'] + hex_byte(c.r) + hex_byte(c.g) + hex_byte(c.b)
}

/// The value of a hexadecimal digit character (either case).
pub open spec fn hex_value(c: char) -> Option<nat> {
    match crate::text::digit_value(c) {
        Some(d) => Some(d),
        None => if c == 'A' || c == 'a' {
            Some(10)
        } else if c == 'B' || c == 'b' {
            Some(11)
        } else if c == 'C' || c == 'c' {
            Some(12)
        } else if c == 'D' || c == 'd' {
            Some(13)
        } else if c == 'E' || c == 'e' {
            Some(14)
        } else if c == 'F' || c == 'f' {
            Some(15)
        } else {
            None
        },
    }
}

/// Reads `#RRGGBB` back as red, green and blue bytes.
pub open spec fn parse_svg_hex(s: Seq<char>) -> Option<(nat, nat, nat)> {
    if s.len() != 7 || s[0] != '#' {
        None
    } else {
        match (
            hex_value(s[1]),
            hex_value(s[2]),
            hex_value(s[3]),
            hex_value(s[4]),
            hex_value(s[5]),
            hex_value(s[6]),
        ) {
            (Some(a), Some(b), Some(c), Some(d), Some(e), Some(f)) => Some(
                (a * 16 + b, c * 16 + d, e * 16 + f),
            ),
            _ => None,
        }
    }
}

proof fn lemma_hex_digit_value(d: nat)
    requires
        d < 16,
    ensures
        hex_value(hex_digit(d)) == Some(d),
{
}

/// The colour code reads back as the colour's red, green and blue bytes.
pub proof fn lemma_svg_hex_roundtrip(c: Color)
    ensures
        svg_hex(c).len() == 7,
        parse_svg_hex(svg_hex(c)) == Some((c.r as nat, c.g as nat, c.b as nat)),
{
    lemma_hex_digit_value((c.r / 16) as nat);
    lemma_hex_digit_value((c.r % 16) as nat);
    lemma_hex_digit_value((c.g / 16) as nat);
    lemma_hex_digit_value((c.g % 16) as nat);
    lemma_hex_digit_value((c.b / 16) as nat);
    lemma_hex_digit_value((c.b % 16) as nat);
    let s = svg_hex(c);
    assert(s[1] == hex_digit((c.r / 16) as nat));
    assert(s[2] == hex_digit((c.r % 16) as nat));
    assert(s[3] == hex_digit((c.g / 16) as nat));
    assert(s[4] == hex_digit((c.g % 16) as nat));
    assert(s[5] == hex_digit((c.b / 16) as nat));
    assert(s[6] == hex_digit((c.b % 16) as nat));
}

fn hex_char(d: u8) -> (c: char)
    requires
        d < 16,
    ensures
        c == hex_digit(d as nat),
{
    if d == 0 { '0' }
    else if d == 1 { '1' }
    else if d == 2 { '2' }
    else if d == 3 { '3' }
    else if d == 4 { '4' }
    else if d == 5 { '5' }
    else if d == 6 { '6' }
    else if d == 7 { '7' }
    else if d == 8 { '8' }
    else if d == 9 { '9' }
    else if d == 10 { 'A' }
    else if d == 11 { 'B' }
    else if d == 12 { 'C' }
    else if d == 13 { 'D' }
    else if d == 14 { 'E' }
    else { 'F' }
}

fn push_hex_byte(out: &mut Vec<char>, b: u8)
    ensures
        final(out)@ == old(out)@ + hex_byte(b),
{
    out.push(hex_char(b / 16));
    out.push(hex_char(b % 16));
    assert(out@ =~= old(out)@ + hex_byte(b));
}

/// Bit pattern of the largest finite double, the distance key that no
/// candidate reaches unless it is closer.
pub const MAX_DISTANCE_KEY: u64 = 0x7fef_ffff_ffff_ffffu64;

/// The candidate `(i, reversed)` keyed by `start_keys[i]` (enter path `i` at
/// its start) or `end_keys[i]` (enter it reversed, at its end).
pub open spec fn candidate_key(start_keys: Seq<u64>, end_keys: Seq<u64>, i: int, reversed: bool) -> u64 {
    if reversed {
        end_keys[i]
    } else {
        start_keys[i]
    }
}

/// Candidate `(j, rj)` comes before `(i, ri)` in scanning order: by index, and
/// for the same index the start before the end.
pub open spec fn scanned_before(j: int, rj: bool, i: int, ri: bool) -> bool {
    j < i || (j == i && !rj && ri)
}

/// The nearest-neighbour choice among the unused paths: the candidate with
/// the smallest key, the first in scanning order among equals; no candidate
/// whose key is not below `MAX_DISTANCE_KEY`.
pub open spec fn is_nearest_choice(
    used: Seq<bool>,
    start_keys: Seq<u64>,
    end_keys: Seq<u64>,
    i: int,
    reversed: bool,
) -> bool {
    let k = candidate_key(start_keys, end_keys, i, reversed);
    &&& 0 <= i < used.len()
    &&& !used[i]
    &&& k < MAX_DISTANCE_KEY
    &&& forall|j: int, rj: bool|
        0 <= j < used.len() && !used[j] ==> k <= #[trigger] candidate_key(start_keys, end_keys, j, rj)
    &&& forall|j: int, rj: bool|
        0 <= j < used.len() && !used[j] && scanned_before(j, rj, i, reversed) ==> k
            < #[trigger] candidate_key(start_keys, end_keys, j, rj)
}

/// Whether no unused path has a key below `MAX_DISTANCE_KEY`.
pub open spec fn no_candidate(used: Seq<bool>, start_keys: Seq<u64>, end_keys: Seq<u64>) -> bool {
    forall|j: int, rj: bool|
        0 <= j < used.len() && !used[j] ==> #[trigger] candidate_key(start_keys, end_keys, j, rj)
            >= MAX_DISTANCE_KEY
}

/// The plotter's path ordering: which paths are exported, in what order, and
/// with which colour code.
pub struct PathOptimizer;

impl PathOptimizer {
    /// One step of the greedy nearest-neighbour ordering. `start_keys[i]` and
    /// `end_keys[i]` are the distances (as the bit patterns of non-negative
    /// doubles, which order as the distances do) from the pen's position to
    /// the start and to the end of path `i`; `used[i]` marks paths already
    /// placed. Returns the nearest unused path and whether to enter it
    /// reversed (see `is_nearest_choice`), or `None` when no unused path has
    /// a key below `MAX_DISTANCE_KEY`.
    pub fn pick_nearest(used: &Vec<bool>, start_keys: &Vec<u64>, end_keys: &Vec<u64>) -> (r: Option<(usize, bool)>)
        requires
            start_keys@.len() == used@.len(),
            end_keys@.len() == used@.len(),
        ensures
            r matches Some(c) ==> is_nearest_choice(used@, start_keys@, end_keys@, c.0 as int, c.1),
            r is None ==> no_candidate(used@, start_keys@, end_keys@),
    {
        let mut best: Option<(usize, bool)> = None;
        let mut best_key: u64 = MAX_DISTANCE_KEY;
        let n = used.len();
        let mut i: usize = 0;
        while i < n
            invariant
                n == used@.len() == start_keys@.len() == end_keys@.len(),
                i <= n,
                best is None ==> best_key == MAX_DISTANCE_KEY,
                best_key <= MAX_DISTANCE_KEY,
                best is Some ==> best_key < MAX_DISTANCE_KEY,
                best matches Some(c) ==> {
                    &&& c.0 < i
                    &&& !used@[c.0 as int]
                    &&& best_key == candidate_key(start_keys@, end_keys@, c.0 as int, c.1)
                    &&& forall|j: int, rj: bool|
                        0 <= j < n && !used@[j] && scanned_before(j, rj, c.0 as int, c.1) ==> best_key
                            < #[trigger] candidate_key(start_keys@, end_keys@, j, rj)
                },
                forall|j: int, rj: bool|
                    0 <= j < i && !used@[j] ==> best_key <= #[trigger] candidate_key(
                        start_keys@,
                        end_keys@,
                        j,
                        rj,
                    ),
            decreases n - i,
        {
            if !used[i] {
                let s = start_keys[i];
                let e = end_keys[i];
                if s < best_key {
                    best_key = s;
                    best = Some((i, false));
                }
                if e < best_key {
                    best_key = e;
                    best = Some((i, true));
                }
                assert(candidate_key(start_keys@, end_keys@, i as int, false) == s);
                assert(candidate_key(start_keys@, end_keys@, i as int, true) == e);
            }
            i = i + 1;
        }
        best
    }

    /// The geometries of the layer's visible paths, in order.
    pub fn visible_paths(layer: &Layer) -> (r: Vec<Vec<PathEl<Point>>>)
        ensures
            r@.map_values(|g: Vec<PathEl<Point>>| g@) == visible_geometries(layer@.paths),
    {
        let mut r: Vec<Vec<PathEl<Point>>> = Vec::new();
        let ghost ps = layer@.paths;
        let mut i: usize = 0;
        while i < layer.paths.len()
            invariant
                i <= layer.paths@.len(),
                ps == layer@.paths,
                ps.len() == layer.paths@.len(),
                r@.map_values(|g: Vec<PathEl<Point>>| g@) == visible_geometries(ps.take(i as int)),
            decreases layer.paths@.len() - i,
        {
            let ghost before = r@.map_values(|g: Vec<PathEl<Point>>| g@);
            assert(ps.take(i + 1).drop_last() =~= ps.take(i as int));
            assert(ps.take(i + 1).last() == ps[i as int]);
            assert(ps[i as int] == layer.paths@[i as int]@);
            if layer.paths[i].visible {
                let g = crate::model::copy_geometry(&layer.paths[i].geometry);
                r.push(g);
                assert(r@.map_values(|g: Vec<PathEl<Point>>| g@) =~= before.push(ps[i as int].geometry));
            }
            i = i + 1;
        }
        assert(ps.take(i as int) == ps);
        r
    }

    /// The layer's pen colour as `#RRGGBB` (`{:02X}` for each of red, green, blue).
    pub fn color_to_svg_hex(color: Color) -> (s: String)
        ensures
            s@ == svg_hex(color),
    {
        let mut v: Vec<char> = Vec::new();
        v.push('#');
        push_hex_byte(&mut v, color.r);
        push_hex_byte(&mut v, color.g);
        push_hex_byte(&mut v, color.b);
        assert(v@ =~= svg_hex(color));
        string_from_chars(&v)
    }

    /// Export entries for a layer's paths (already ordered): each carries the
    /// layer's name, its pen colour as `#RRGGBB`, and its pen width.
    pub fn layer_entries(layer: &Layer, ordered: Vec<Vec<PathEl<Point>>>) -> (r: Vec<OptimizedPath>)
        ensures
            r@.len() == ordered@.len(),
            forall|k: int|
                0 <= k < r@.len() ==> {
                    &&& (#[trigger] r@[k]).path@ == ordered@[k]@
                    &&& r@[k].layer_name@ == layer@.name
                    &&& r@[k].stroke_color@ == svg_hex(layer@.pen.color)
                    &&& r@[k].stroke_width == layer@.pen.width_mm
                },
    {
        let mut r: Vec<OptimizedPath> = Vec::new();
        let mut ordered = ordered;
        let ghost orig = ordered@;
        let n = ordered.len();
        let mut taken: Vec<Vec<PathEl<Point>>> = Vec::new();
        // Move the paths out back to front, then emit them front to back.
        while ordered.len() > 0
            invariant
                ordered@.len() + taken@.len() == n,
                orig.len() == n,
                forall|k: int| 0 <= k < ordered@.len() ==> #[trigger] ordered@[k] == orig[k],
                forall|k: int| 0 <= k < taken@.len() ==> #[trigger] taken@[k] == orig[n - 1 - k],
            decreases ordered@.len(),
        {
            let g = ordered.pop().unwrap();
            taken.push(g);
        }
        let mut k: usize = 0;
        while taken.len() > 0
            invariant
                taken@.len() + k == n,
                orig.len() == n,
                forall|q: int| 0 <= q < taken@.len() ==> #[trigger] taken@[q] == orig[n - 1 - q],
                r@.len() == k,
                forall|q: int|
                    0 <= q < k ==> {
                        &&& (#[trigger] r@[q]).path@ == orig[q]@
                        &&& r@[q].layer_name@ == layer@.name
                        &&& r@[q].stroke_color@ == svg_hex(layer@.pen.color)
                        &&& r@[q].stroke_width == layer@.pen.width_mm
                    },
            decreases taken@.len(),
        {
            let g = taken.pop().unwrap();
            r.push(
                OptimizedPath {
                    path: g,
                    layer_name: layer.name.clone(),
                    stroke_color: PathOptimizer::color_to_svg_hex(layer.pen.color),
                    stroke_width: layer.pen.width_mm,
                },
            );
            k = k + 1;
        }
        r
    }
}

/// The views of a list of geometries.
pub open spec fn geometries_view(g: Seq<Vec<PathEl<Point>>>) -> Seq<Seq<PathEl<Point>>> {
    g.map_values(|p: Vec<PathEl<Point>>| p@)
}

/// Path `c.0` of `paths` as placed in the ordering: reversed when `c.1`.
pub open spec fn placed(paths: Seq<Seq<PathEl<Point>>>, c: (usize, bool)) -> Seq<PathEl<Point>> {
    if c.1 {
        reversed_path(paths[c.0 as int])
    } else {
        paths[c.0 as int]
    }
}

/// The greedy nearest-neighbour ordering of a layer's paths, as a value:
/// which paths are placed, the placements in order, and where the pen is.
pub struct OrderView {
    pub used: Seq<bool>,
    pub order: Seq<(usize, bool)>,
    pub last_end: Point,
}

/// An ordering over `n` paths: one mark per path, only paths that exist
/// placed, no path placed twice, and the marked paths exactly the placed ones.
pub open spec fn order_wf(o: OrderView, n: nat) -> bool {
    &&& o.used.len() == n
    &&& forall|k: int| 0 <= k < o.order.len() ==> (#[trigger] o.order[k]).0 < n
    &&& forall|k: int, q: int|
        0 <= k < q < o.order.len() ==> (#[trigger] o.order[k]).0 != (#[trigger] o.order[q]).0
    &&& forall|i: int| 0 <= i < n ==> (#[trigger] o.used[i] <==> placed_in(o.order, i))
}

/// Whether path `i` has been placed.
pub open spec fn placed_in(order: Seq<(usize, bool)>, i: int) -> bool {
    exists|k: int| 0 <= k < order.len() && (#[trigger] order[k]).0 == i
}

/// When every path has been placed, each appears in the ordering: the
/// ordering is a permutation of the paths.
pub proof fn lemma_complete_order(o: OrderView, n: nat)
    requires
        order_wf(o, n),
        o.order.len() == n,
    ensures
        forall|i: int| 0 <= i < n ==> #[trigger] placed_in(o.order, i),
{
    let idx = Seq::new(n, |k: int| o.order[k].0 as int);
    assert forall|k: int, q: int| 0 <= k < idx.len() && 0 <= q < idx.len() && k != q implies idx[k]
        != idx[q] by {
        if k < q {
            assert(o.order[k].0 != o.order[q].0);
        } else {
            assert(o.order[q].0 != o.order[k].0);
        }
    }
    assert(idx.no_duplicates());
    idx.unique_seq_to_set();
    let range = vstd::set_lib::set_int_range(0, n as int);
    vstd::set_lib::lemma_int_range(0, n as int);
    assert(idx.to_set().subset_of(range)) by {
        assert forall|x: int| idx.to_set().contains(x) implies range.contains(x) by {
            let k = choose|k: int| 0 <= k < idx.len() && idx[k] == x;
            assert(o.order[k].0 < n);
        }
    }
    vstd::seq_lib::seq_to_set_is_finite(idx);
    vstd::set_lib::lemma_subset_equality(idx.to_set(), range);
    assert forall|i: int| 0 <= i < n implies #[trigger] placed_in(o.order, i) by {
        assert(range.contains(i));
        assert(idx.to_set().contains(i));
        let k = choose|k: int| 0 <= k < idx.len() && idx[k] == i;
        assert(o.order[k].0 == i);
    }
}

/// The greedy nearest-neighbour ordering in progress. The first path is
/// placed first, as it is; then each step places the nearest unused path
/// (see `PathOptimizer::pick_nearest`), entered from its nearer end.
pub struct NearestOrder {
    used: Vec<bool>,
    order: Vec<(usize, bool)>,
    last_end: Point,
}

impl View for NearestOrder {
    type V = OrderView;

    closed spec fn view(&self) -> OrderView {
        OrderView { used: self.used@, order: self.order@, last_end: self.last_end }
    }
}

impl NearestOrder {
    /// The ordering with only the first path placed, the pen at its end.
    pub fn begin(paths: &Vec<Vec<PathEl<Point>>>) -> (o: NearestOrder)
        requires
            paths@.len() >= 1,
        ensures
            order_wf(o@, paths@.len()),
            o@.used == Seq::new(paths@.len(), |i: int| i == 0),
            o@.order == seq![(0usize, false)],
            o@.last_end == end_point(paths@[0]@),
    {
        let n = paths.len();
        let mut used: Vec<bool> = Vec::new();
        let mut i: usize = 0;
        while i < n
            invariant
                i <= n,
                used@ == Seq::new(i as nat, |k: int| k == 0),
            decreases n - i,
        {
            used.push(i == 0);
            assert(used@ =~= Seq::new((i + 1) as nat, |k: int| k == 0));
            i = i + 1;
        }
        let mut order: Vec<(usize, bool)> = Vec::new();
        order.push((0, false));
        let o = NearestOrder { used, order, last_end: path_endpoint(&paths[0]) };
        assert(o@.order =~= seq![(0usize, false)]);
        assert forall|i: int| 0 <= i < n implies (#[trigger] o@.used[i] <==> placed_in(o@.order, i)) by {
            if i == 0 {
                assert(o@.order[0].0 == 0);
            }
        }
        o
    }

    /// The last placement: which path, and whether it was reversed.
    pub fn last_placed(&self) -> (c: (usize, bool))
        requires
            self@.order.len() > 0,
        ensures
            c == self@.order.last(),
    {
        self.order[self.order.len() - 1]
    }

    /// Where the pen is: the end of the last placed path.
    pub fn last_end(&self) -> (p: Point)
        ensures
            p == self@.last_end,
    {
        self.last_end
    }

    /// One step: `start_keys[i]` and `end_keys[i]` are the distances from the
    /// pen (`last_end`) to the start and the end of path `i` (see
    /// `PathOptimizer::pick_nearest`). Places the nearest unused path and
    /// moves the pen to its far end; changes nothing when there is none.
    pub fn step(&mut self, paths: &Vec<Vec<PathEl<Point>>>, start_keys: &Vec<u64>, end_keys: &Vec<u64>) -> (r: Option<(usize, bool)>)
        requires
            order_wf(old(self)@, paths@.len()),
            start_keys@.len() == paths@.len(),
            end_keys@.len() == paths@.len(),
        ensures
            order_wf(final(self)@, paths@.len()),
            r matches Some(c) ==> {
                &&& is_nearest_choice(old(self)@.used, start_keys@, end_keys@, c.0 as int, c.1)
                &&& final(self)@ == OrderView {
                    used: old(self)@.used.update(c.0 as int, true),
                    order: old(self)@.order.push(c),
                    last_end: end_point(placed(geometries_view(paths@), c)),
                }
            },
            r is None ==> no_candidate(old(self)@.used, start_keys@, end_keys@) && final(self)@ == old(self)@,
    {
        let r = PathOptimizer::pick_nearest(&self.used, start_keys, end_keys);
        match r {
            Some((i, rev)) => {
                let ghost before = self@;
                self.used.set(i, true);
                self.order.push((i, rev));
                if rev {
                    let rp = reverse_path(&paths[i]);
                    self.last_end = path_endpoint(&rp);
                } else {
                    self.last_end = path_endpoint(&paths[i]);
                }
                assert(self@.order[self@.order.len() - 1] == (i, rev));
                proof {
                    let after = self@;
                    assert forall|k: int| 0 <= k < before.order.len() implies (#[trigger] before.order[k]).0 != i by {
                        if before.order[k].0 == i {
                            assert(before.used[i as int]);
                        }
                    }
                    assert forall|k: int, q: int| 0 <= k < q < after.order.len() implies (#[trigger] after.order[k]).0
                        != (#[trigger] after.order[q]).0 by {
                        assert(after.order[k] == before.order[k]);
                        if q < before.order.len() {
                            assert(after.order[q] == before.order[q]);
                        }
                    }
                    assert forall|k: int| 0 <= k < after.order.len() implies (#[trigger] after.order[k]).0 < paths@.len() by {
                        if k < before.order.len() {
                            assert(after.order[k] == before.order[k]);
                        }
                    }
                    assert forall|j: int| 0 <= j < paths@.len() implies (#[trigger] after.used[j] <==> placed_in(after.order, j)) by {
                        if j == i {
                            assert(after.order[before.order.len() as int].0 == i);
                        } else {
                            if before.used[j] {
                                let k = choose|k: int| 0 <= k < before.order.len() && before.order[k].0 == j;
                                assert(after.order[k].0 == j);
                            }
                            if placed_in(after.order, j) {
                                let k = choose|k: int| 0 <= k < after.order.len() && after.order[k].0 == j;
                                assert(k < before.order.len());
                                assert(before.order[k].0 == j);
                            }
                        }
                    }
                }
            },
            None => {},
        }
        r
    }

    /// The placed paths, in order, each reversed or as it is.
    pub fn ordered(&self, paths: &Vec<Vec<PathEl<Point>>>) -> (r: Vec<Vec<PathEl<Point>>>)
        requires
            order_wf(self@, paths@.len()),
        ensures
            r@.len() == self@.order.len(),
            forall|k: int|
                0 <= k < self@.order.len() ==> (#[trigger] r@[k])@ == placed(
                    geometries_view(paths@),
                    self@.order[k],
                ),
    {
        let mut r: Vec<Vec<PathEl<Point>>> = Vec::new();
        let mut k: usize = 0;
        while k < self.order.len()
            invariant
                order_wf(self@, paths@.len()),
                k <= self@.order.len(),
                r@.len() == k,
                forall|q: int|
                    0 <= q < k ==> (#[trigger] r@[q])@ == placed(geometries_view(paths@), self@.order[q]),
            decreases self@.order.len() - k,
        {
            let (i, rev) = self.order[k];
            assert(self@.order[k as int].0 < paths@.len());
            if rev {
                r.push(reverse_path(&paths[i]));
            } else {
                r.push(copy_geometry(&paths[i]));
            }
            k = k + 1;
        }
        r
    }
}

/// The geometries of the visible paths of `ps`, in order.
pub open spec fn visible_geometries(ps: Seq<PathView>) -> Seq<Seq<PathEl<Point>>>
    decreases ps.len(),
{
    if ps.len() == 0 {
        Seq::empty()
    } else if ps.last().visible {
        visible_geometries(ps.drop_last()).push(ps.last().geometry)
    } else {
        visible_geometries(ps.drop_last())
    }
}

} // verus!

verus! {

/// A straight piece of an exported path, from `a` to `b`, belonging to path `owner`.
#[derive(Clone, Copy, Debug, PartialEq, Eq, Structural)]
pub struct Segment {
    pub owner: usize,
    pub a: Point,
    pub b: Point,
}

/// The end point of the last element of `s` that has one.
pub open spec fn last_end(s: Seq<PathEl<Point>>) -> Option<Point>
    decreases s.len(),
{
    if s.len() == 0 {
        None
    } else {
        match crate::path::el_end(s.last()) {
            Some(p) => Some(p),
            None => last_end(s.drop_last()),
        }
    }
}

/// The segments of a path: one from the previous end point to the end point
/// of each `LineTo`, `QuadTo` or `CurveTo` that has a previous end point;
/// `MoveTo` starts a new piece and `ClosePath` adds nothing.
pub open spec fn path_segments(owner: usize, s: Seq<PathEl<Point>>) -> Seq<Segment>
    decreases s.len(),
{
    if s.len() == 0 {
        Seq::empty()
    } else {
        let r = path_segments(owner, s.drop_last());
        match s.last() {
            PathEl::MoveTo(_) => r,
            PathEl::ClosePath => r,
            PathEl::LineTo(p) => match last_end(s.drop_last()) {
                Some(a) => r.push(Segment { owner, a, b: p }),
                None => r,
            },
            PathEl::QuadTo(_, p) => match last_end(s.drop_last()) {
                Some(a) => r.push(Segment { owner, a, b: p }),
                None => r,
            },
            PathEl::CurveTo(_, _, p) => match last_end(s.drop_last()) {
                Some(a) => r.push(Segment { owner, a, b: p }),
                None => r,
            },
        }
    }
}

/// The segments of all paths, path by path.
pub open spec fn all_segments(paths: Seq<OptimizedPath>) -> Seq<Segment>
    decreases paths.len(),
{
    if paths.len() == 0 {
        Seq::empty()
    } else {
        all_segments(paths.drop_last()) + path_segments((paths.len() - 1) as usize, paths.last().path@)
    }
}

proof fn lemma_path_segments_owner(owner: usize, s: Seq<PathEl<Point>>)
    ensures
        forall|k: int| 0 <= k < path_segments(owner, s).len() ==> #[trigger] path_segments(owner, s)[k].owner == owner,
    decreases s.len(),
{
    if s.len() > 0 {
        lemma_path_segments_owner(owner, s.drop_last());
        let r = path_segments(owner, s.drop_last());
        assert forall|k: int| 0 <= k < path_segments(owner, s).len() implies #[trigger] path_segments(owner, s)[k].owner == owner by {
            if k < r.len() {
                assert(path_segments(owner, s)[k] == r[k]);
            }
        }
    }
}

proof fn lemma_all_segments_owner(paths: Seq<OptimizedPath>)
    ensures
        forall|k: int| 0 <= k < all_segments(paths).len() ==> #[trigger] all_segments(paths)[k].owner < paths.len(),
    decreases paths.len(),
{
    if paths.len() > 0 {
        lemma_all_segments_owner(paths.drop_last());
        let x = all_segments(paths.drop_last());
        let y = path_segments((paths.len() - 1) as usize, paths.last().path@);
        lemma_path_segments_owner((paths.len() - 1) as usize, paths.last().path@);
        assert forall|k: int| 0 <= k < all_segments(paths).len() implies #[trigger] all_segments(paths)[k].owner < paths.len() by {
            if k < x.len() {
                assert(all_segments(paths)[k] == x[k]);
            } else {
                assert(all_segments(paths)[k] == y[k - x.len()]);
            }
        }
    }
}

/// The segments of every path (see `all_segments`), in order.
pub fn segments_of(paths: &Vec<OptimizedPath>) -> (r: Vec<Segment>)
    ensures
        r@ == all_segments(paths@),
{
    let mut r: Vec<Segment> = Vec::new();
    let mut idx: usize = 0;
    while idx < paths.len()
        invariant
            idx <= paths@.len(),
            r@ == all_segments(paths@.take(idx as int)),
        decreases paths@.len() - idx,
    {
        let ghost base = r@;
        let s = &paths[idx].path;
        let mut prev: Option<Point> = None;
        let mut k: usize = 0;
        while k < s.len()
            invariant
                k <= s@.len(),
                s@ == paths@[idx as int].path@,
                prev == last_end(s@.take(k as int)),
                r@ == base + path_segments(idx, s@.take(k as int)),
            decreases s@.len() - k,
        {
            let ghost t = s@.take(k + 1);
            assert(t.drop_last() =~= s@.take(k as int));
            assert(t.last() == s@[k as int]);
            let ghost before = r@;
            match &s[k] {
                PathEl::ClosePath => {},
                PathEl::MoveTo(p) => {
                    prev = Some(*p);
                },
                PathEl::LineTo(p) => {
                    if let Some(a) = prev {
                        r.push(Segment { owner: idx, a, b: *p });
                    }
                    prev = Some(*p);
                },
                PathEl::QuadTo(_, p) => {
                    if let Some(a) = prev {
                        r.push(Segment { owner: idx, a, b: *p });
                    }
                    prev = Some(*p);
                },
                PathEl::CurveTo(_, _, p) => {
                    if let Some(a) = prev {
                        r.push(Segment { owner: idx, a, b: *p });
                    }
                    prev = Some(*p);
                },
            }
            assert(r@ =~= base + path_segments(idx, t));
            k = k + 1;
        }
        proof {
            assert(s@.take(k as int) == s@);
            let pt = paths@.take(idx + 1);
            assert(pt.drop_last() =~= paths@.take(idx as int));
            assert(pt.last() == paths@[idx as int]);
        }
        idx = idx + 1;
    }
    assert(paths@.take(idx as int) == paths@);
    r
}

/// Whether segments `i` and `j` lie in paths of the same layer.
pub open spec fn same_layer(paths: Seq<OptimizedPath>, segs: Seq<Segment>, i: int, j: int) -> bool {
    paths[segs[i].owner as int].layer_name@ == paths[segs[j].owner as int].layer_name@
}

/// The marks after processing segment `i`'s list of coinciding segments
/// `adj`, up to its `t`-th entry: each listed later segment `j` of the same
/// layer marks its path.
pub open spec fn row_marks(
    m: Seq<bool>,
    paths: Seq<OptimizedPath>,
    segs: Seq<Segment>,
    i: int,
    adj: Seq<usize>,
    t: int,
) -> Seq<bool>
    decreases t,
{
    if t <= 0 {
        m
    } else {
        let m2 = row_marks(m, paths, segs, i, adj, t - 1);
        let j = adj[t - 1] as int;
        if i < j < segs.len() && same_layer(paths, segs, i, j) {
            m2.update(segs[j].owner as int, true)
        } else {
            m2
        }
    }
}

/// The marks after processing segments `0..i` in order: a segment whose path
/// is already marked is passed over; otherwise every later segment of the
/// same layer listed as coinciding with it marks its own path.
pub open spec fn marks_upto(
    paths: Seq<OptimizedPath>,
    segs: Seq<Segment>,
    coincident: Seq<Seq<usize>>,
    i: int,
) -> Seq<bool>
    decreases i,
{
    if i <= 0 {
        Seq::new(paths.len(), |p: int| false)
    } else {
        let m = marks_upto(paths, segs, coincident, i - 1);
        let row = if i - 1 < coincident.len() {
            coincident[i - 1]
        } else {
            Seq::empty()
        };
        if m[segs[i - 1].owner as int] {
            m
        } else {
            row_marks(m, paths, segs, i - 1, row, row.len() as int)
        }
    }
}

/// The paths marked for removal.
pub open spec fn overlap_marks(paths: Seq<OptimizedPath>, coincident: Seq<Seq<usize>>) -> Seq<bool> {
    marks_upto(paths, all_segments(paths), coincident, all_segments(paths).len() as int)
}

/// The elements `s[j]`, `j >= i`, that are not marked, in order.
pub open spec fn kept_from<A>(s: Seq<A>, m: Seq<bool>, i: int) -> Seq<A>
    decreases s.len() - i,
{
    if i >= s.len() || i < 0 {
        Seq::empty()
    } else if m[i] {
        kept_from(s, m, i + 1)
    } else {
        seq![s[i]] + kept_from(s, m, i + 1)
    }
}

proof fn lemma_row_marks_len(m: Seq<bool>, paths: Seq<OptimizedPath>, segs: Seq<Segment>, i: int, adj: Seq<usize>, t: int)
    requires
        forall|k: int| 0 <= k < segs.len() ==> #[trigger] segs[k].owner < m.len(),
    ensures
        row_marks(m, paths, segs, i, adj, t).len() == m.len(),
    decreases t,
{
    if t > 0 {
        lemma_row_marks_len(m, paths, segs, i, adj, t - 1);
    }
}

proof fn lemma_marks_len(paths: Seq<OptimizedPath>, segs: Seq<Segment>, coincident: Seq<Seq<usize>>, i: int)
    requires
        forall|k: int| 0 <= k < segs.len() ==> #[trigger] segs[k].owner < paths.len(),
        i <= segs.len(),
    ensures
        marks_upto(paths, segs, coincident, i).len() == paths.len(),
    decreases i,
{
    if i > 0 {
        lemma_marks_len(paths, segs, coincident, i - 1);
        let m = marks_upto(paths, segs, coincident, i - 1);
        let row = if i - 1 < coincident.len() {
            coincident[i - 1]
        } else {
            Seq::empty()
        };
        lemma_row_marks_len(m, paths, segs, i - 1, row, row.len() as int);
    }
}

/// Experimental overlap removal. Segments are those of `segments_of`;
/// `coincident[i]` lists the segments found to coincide with segment `i`
/// (for export: both end points within the tolerance, in the same or the
/// opposite direction). Going through the segments in order, a segment whose
/// path is not yet marked marks the path of every later listed segment of
/// the same layer; the marked paths are then removed (see `overlap_marks`).
pub fn remove_overlapping_segments(paths: &mut Vec<OptimizedPath>, coincident: &Vec<Vec<usize>>)
    ensures
        final(paths)@ == kept_from(
            old(paths)@,
            overlap_marks(old(paths)@, coincident@.map_values(|v: Vec<usize>| v@)),
            0,
        ),
{
    let ghost orig = paths@;
    let ghost adj = coincident@.map_values(|v: Vec<usize>| v@);
    let segs = segments_of(paths);
    proof {
        lemma_all_segments_owner(orig);
    }
    let n = paths.len();
    let mut marks: Vec<bool> = Vec::new();
    let mut p: usize = 0;
    while p < n
        invariant
            n == orig.len(),
            p <= n,
            marks@ == Seq::new(p as nat, |q: int| false),
        decreases n - p,
    {
        marks.push(false);
        assert(marks@ =~= Seq::new((p + 1) as nat, |q: int| false));
        p = p + 1;
    }
    let ns = segs.len();
    let mut i: usize = 0;
    while i < ns
        invariant
            paths@ == orig,
            n == orig.len(),
            segs@ == all_segments(orig),
            ns == segs@.len(),
            adj == coincident@.map_values(|v: Vec<usize>| v@),
            forall|k: int| 0 <= k < segs@.len() ==> #[trigger] segs@[k].owner < orig.len(),
            i <= ns,
            marks@ == marks_upto(orig, segs@, adj, i as int),
            marks@.len() == n,
        decreases ns - i,
    {
        let ghost m0 = marks@;
        let ghost row = if i < adj.len() {
            adj[i as int]
        } else {
            Seq::<usize>::empty()
        };
        if !marks[segs[i].owner] && i < coincident.len() {
            let r = &coincident[i];
            assert(r@ == row);
            let mut t: usize = 0;
            while t < r.len()
                invariant
                    paths@ == orig,
                    segs@ == all_segments(orig),
                    ns == segs@.len(),
                    i < ns,
                    forall|k: int| 0 <= k < segs@.len() ==> #[trigger] segs@[k].owner < orig.len(),
                    t <= r@.len(),
                    r@ == row,
                    marks@ == row_marks(m0, orig, segs@, i as int, row, t as int),
                    marks@.len() == n,
                    n == orig.len(),
                decreases r@.len() - t,
            {
                let j = r[t];
                if i < j && j < ns {
                    let oi = segs[i].owner;
                    let oj = segs[j].owner;
                    if paths[oi].layer_name == paths[oj].layer_name {
                        marks.set(oj, true);
                    }
                }
                t = t + 1;
            }
        }
        proof {
            lemma_marks_len(orig, segs@, adj, i + 1);
        }
        i = i + 1;
    }
    let ghost m = marks@;
    assert(m == overlap_marks(orig, adj));
    let mut k: usize = n;
    assert(orig.take(n as int) == orig);
    assert(kept_from(orig, m, n as int) =~= Seq::<OptimizedPath>::empty());
    assert(paths@ =~= orig.take(k as int) + kept_from(orig, m, k as int));
    while k > 0
        invariant
            k <= n,
            n == orig.len() == m.len(),
            marks@ == m,
            paths@ == orig.take(k as int) + kept_from(orig, m, k as int),
        decreases k,
    {
        k = k - 1;
        if marks[k] {
            let _ = paths.remove(k);
            assert(paths@ =~= orig.take(k as int) + kept_from(orig, m, k as int));
        } else {
            assert(orig.take(k + 1) =~= orig.take(k as int).push(orig[k as int]));
            assert(paths@ =~= orig.take(k as int) + kept_from(orig, m, k as int));
        }
    }
    assert(orig.take(0) =~= Seq::<OptimizedPath>::empty());
}

/// With no coinciding segments, overlap removal keeps every path.
pub proof fn lemma_no_coincidence_keeps_all(paths: Seq<OptimizedPath>, coincident: Seq<Seq<usize>>)
    requires
        forall|i: int| 0 <= i < coincident.len() ==> #[trigger] coincident[i].len() == 0,
    ensures
        kept_from(paths, overlap_marks(paths, coincident), 0) == paths,
{
    let segs = all_segments(paths);
    lemma_all_segments_owner(paths);
    lemma_marks_all_false(paths, segs, coincident, segs.len() as int);
    lemma_kept_all(paths, overlap_marks(paths, coincident), 0);
    assert(paths.skip(0) == paths);
}

proof fn lemma_marks_all_false(paths: Seq<OptimizedPath>, segs: Seq<Segment>, coincident: Seq<Seq<usize>>, i: int)
    requires
        forall|k: int| 0 <= k < coincident.len() ==> #[trigger] coincident[k].len() == 0,
    ensures
        marks_upto(paths, segs, coincident, i) == Seq::new(paths.len(), |p: int| false),
    decreases i,
{
    if i > 0 {
        lemma_marks_all_false(paths, segs, coincident, i - 1);
    }
}

proof fn lemma_kept_all(s: Seq<OptimizedPath>, m: Seq<bool>, i: int)
    requires
        0 <= i <= s.len(),
        m.len() == s.len(),
        forall|k: int| 0 <= k < m.len() ==> !#[trigger] m[k],
    ensures
        kept_from(s, m, i) == s.skip(i),
    decreases s.len() - i,
{
    if i < s.len() {
        lemma_kept_all(s, m, i + 1);
        assert(seq![s[i]] + s.skip(i + 1) =~= s.skip(i));
    } else {
        assert(s.skip(i) =~= Seq::<OptimizedPath>::empty());
    }
}

} // verus!

verus! {

/// The SVG `viewBox` (and size) of an export, in whole world units.
#[derive(Clone, Copy, Debug, PartialEq, Eq, Structural)]
pub struct ViewBox {
    pub x: i32,
    pub y: i32,
    pub width: i32,
    pub height: i32,
}

/// One path to write: its layer's name, stroke colour and stroke width (as
/// text), and its elements with each point already written as `"x y"`.
pub struct SvgEntry {
    pub layer_name: String,
    pub stroke_color: String,
    pub stroke_width: String,
    pub path: Vec<PathEl<String>>,
}

/// The path-data text of one element: `M p `, `L p `, `Q c p `, `C c1 c2 p `, or `Z`.
pub open spec fn el_data(el: PathEl<String>) -> Seq<char> {
    match el {
        PathEl::MoveTo(p) => seq!['M', ' '] + p@ + seq![' '],
        PathEl::LineTo(p) => seq!['L', ' '] + p@ + seq![' '],
        PathEl::QuadTo(c, p) => seq!['Q', ' '] + c@ + seq![' '] + p@ + seq![' '],
        PathEl::CurveTo(c1, c2, p) => seq!['C', ' '] + c1@ + seq![' '] + c2@ + seq![' '] + p@ + seq![' '],
        PathEl::ClosePath => seq!['Z'],
    }
}

/// The path-data (`d`) text of a path: the texts of its elements, in order.
pub open spec fn path_data(s: Seq<PathEl<String>>) -> Seq<char>
    decreases s.len(),
{
    if s.len() == 0 {
        Seq::empty()
    } else {
        path_data(s.drop_last()) + el_data(s.last())
    }
}

/// The document head, up to and including the `<svg ...>` line.
pub open spec fn svg_head(vb: ViewBox) -> Seq<char> {
    "<?xml version=\"1.0\" encoding=\"UTF-8\"?>\n<svg xmlns=\"http://www.w3.org/2000/svg\" viewBox=\""@
        + signed_decimal(vb.x as int) + seq![' '] + signed_decimal(vb.y as int) + seq![' ']
        + signed_decimal(vb.width as int) + seq![' '] + signed_decimal(vb.height as int)
        + "\" width=\""@ + signed_decimal(vb.width as int) + "\" height=\""@
        + signed_decimal(vb.height as int) + "\">\n"@
}

/// The line that opens a layer's group.
pub open spec fn group_open(e: SvgEntry) -> Seq<char> {
    "  <g id=\""@ + e.layer_name@ + "\" stroke=\""@ + e.stroke_color@ + "\" stroke-width=\""@
        + e.stroke_width@ + "mm\" fill=\"none\">\n"@
}

/// The line that closes a group.
pub open spec fn group_close() -> Seq<char> {
    "  </g>\n"@
}

/// The line of one path.
pub open spec fn path_line(e: SvgEntry) -> Seq<char> {
    "    <path d=\""@ + path_data(e.path@) + "\" />\n"@
}

/// The body written for a sequence of entries, with the name of the layer
/// whose group is current and whether a group is open: a new group starts
/// (closing the open one) whenever the layer name differs from the current
/// one, which starts empty.
pub open spec fn svg_body(es: Seq<SvgEntry>) -> (Seq<char>, Seq<char>, bool)
    decreases es.len(),
{
    if es.len() == 0 {
        (Seq::empty(), Seq::empty(), false)
    } else {
        let (t, cur, open) = svg_body(es.drop_last());
        let e = es.last();
        if e.layer_name@ != cur {
            (
                t + (if open {
                    group_close()
                } else {
                    Seq::empty()
                }) + group_open(e) + path_line(e),
                e.layer_name@,
                true,
            )
        } else {
            (t + path_line(e), cur, open)
        }
    }
}

/// The whole SVG document.
pub open spec fn svg_document(vb: ViewBox, es: Seq<SvgEntry>) -> Seq<char> {
    let (t, _cur, open) = svg_body(es);
    svg_head(vb) + t + (if open {
        group_close()
    } else {
        Seq::empty()
    }) + "</svg>\n"@
}

/// After a sequence of entries, the current group is the last entry's layer
/// (none before any entry).
proof fn lemma_body_current(es: Seq<SvgEntry>)
    ensures
        svg_body(es).1 == (if es.len() == 0 {
            Seq::<char>::empty()
        } else {
            es.last().layer_name@
        }),
    decreases es.len(),
{
    if es.len() > 0 {
        lemma_body_current(es.drop_last());
    }
}

/// The body written for the first `j` entries is the start of the body
/// written for all of them.
proof fn lemma_body_extends(es: Seq<SvgEntry>, j: int) -> (rest: Seq<char>)
    requires
        0 <= j <= es.len(),
    ensures
        svg_body(es).0 == svg_body(es.take(j)).0 + rest,
    decreases es.len(),
{
    if j == es.len() {
        assert(es.take(j) =~= es);
        assert(svg_body(es).0 =~= svg_body(es.take(j)).0 + Seq::<char>::empty());
        Seq::<char>::empty()
    } else {
        let d = es.drop_last();
        let rest = lemma_body_extends(d, j);
        assert(d.take(j) =~= es.take(j));
        let b = svg_body(d);
        let e = es.last();
        if e.layer_name@ != b.1 {
            let tail = rest + (if b.2 { group_close() } else { Seq::<char>::empty() }) + group_open(e) + path_line(e);
            assert(svg_body(es).0 =~= svg_body(es.take(j)).0 + tail);
            tail
        } else {
            assert(svg_body(es).0 =~= svg_body(es.take(j)).0 + (rest + path_line(e)));
            rest + path_line(e)
        }
    }
}

/// Every entry that starts a layer's group (the first entry, unless its
/// layer name is empty, and every entry whose layer differs from the entry
/// before it) has its own group line in the document, with its own layer
/// name, stroke colour and stroke width, followed by its own path line.
pub proof fn lemma_render_groups_carry_their_pen(vb: ViewBox, es: Seq<SvgEntry>, i: int)
    requires
        0 <= i < es.len(),
        (i == 0 && es[0].layer_name@.len() > 0) || (i > 0 && es[i].layer_name@ != es[i - 1].layer_name@),
    ensures
        exists|pre: Seq<char>, post: Seq<char>|
            svg_document(vb, es) == pre + group_open(es[i]) + path_line(es[i]) + post,
{
    let t = es.take(i + 1);
    assert(t.drop_last() =~= es.take(i));
    assert(t.last() == es[i]);
    lemma_body_current(es.take(i));
    if i > 0 {
        assert(es.take(i).last() == es[i - 1]);
    } else {
        assert(es[0].layer_name@ != Seq::<char>::empty());
    }
    let b = svg_body(es.take(i));
    let close = if b.2 { group_close() } else { Seq::<char>::empty() };
    assert(svg_body(t).0 == b.0 + close + group_open(es[i]) + path_line(es[i]));
    let rest = lemma_body_extends(es, i + 1);
    let fin = svg_body(es);
    let fclose = if fin.2 { group_close() } else { Seq::<char>::empty() };
    let h = svg_head(vb);
    let go = group_open(es[i]);
    let pl = path_line(es[i]);
    let post = rest + (fclose + "</svg>\n"@);
    assert(fin.0 == b.0 + close + go + pl + rest);
    lemma_regroup(h, b.0, close, go, pl, rest, fclose, "</svg>\n"@);
    assert(svg_document(vb, es) == h + fin.0 + fclose + "</svg>\n"@);
    assert(svg_document(vb, es) == (h + b.0 + close) + go + pl + post);
}

/// Regrouping a concatenation of eight texts.
proof fn lemma_regroup(
    h: Seq<char>,
    b: Seq<char>,
    c: Seq<char>,
    g: Seq<char>,
    p: Seq<char>,
    r: Seq<char>,
    f: Seq<char>,
    z: Seq<char>,
)
    ensures
        h + (b + c + g + p + r) + f + z == (h + b + c) + g + p + (r + (f + z)),
{
    assert(h + (b + c + g + p + r) + f + z =~= (h + b + c) + g + p + (r + (f + z)));
}

/// The SVG writer.
pub struct SvgWriter;

impl SvgWriter {
    /// The path-data text of a path (see `path_data`).
    pub fn bezpath_to_svg_d(path: &Vec<PathEl<String>>) -> (d: String)
        ensures
            d@ == path_data(path@),
    {
        let mut v: Vec<char> = Vec::new();
        Self::push_path_data(&mut v, path);
        string_from_chars(&v)
    }

    fn push_path_data(v: &mut Vec<char>, path: &Vec<PathEl<String>>)
        ensures
            final(v)@ == old(v)@ + path_data(path@),
    {
        let mut i: usize = 0;
        while i < path.len()
            invariant
                i <= path@.len(),
                v@ == old(v)@ + path_data(path@.take(i as int)),
            decreases path@.len() - i,
        {
            let ghost before = v@;
            assert(path@.take(i + 1).drop_last() =~= path@.take(i as int));
            assert(path@.take(i + 1).last() == path@[i as int]);
            match &path[i] {
                PathEl::MoveTo(p) => {
                    v.push('M');
                    v.push(' ');
                    push_str(v, p.as_str());
                    v.push(' ');
                },
                PathEl::LineTo(p) => {
                    v.push('L');
                    v.push(' ');
                    push_str(v, p.as_str());
                    v.push(' ');
                },
                PathEl::QuadTo(c, p) => {
                    v.push('Q');
                    v.push(' ');
                    push_str(v, c.as_str());
                    v.push(' ');
                    push_str(v, p.as_str());
                    v.push(' ');
                },
                PathEl::CurveTo(c1, c2, p) => {
                    v.push('C');
                    v.push(' ');
                    push_str(v, c1.as_str());
                    v.push(' ');
                    push_str(v, c2.as_str());
                    v.push(' ');
                    push_str(v, p.as_str());
                    v.push(' ');
                },
                PathEl::ClosePath => {
                    v.push('Z');
                },
            }
            assert(v@ =~= before + el_data(path@[i as int]));
            i = i + 1;
        }
        assert(path@.take(i as int) == path@);
    }

    /// Writes the SVG document: the head with the view box, then for each
    /// entry a group line when its layer differs from the previous entry's
    /// (the previous group being closed), and its path line; the open group
    /// is closed at the end (see `svg_document`).
    #[verifier::rlimit(30)]
    pub fn render(view_box: ViewBox, entries: &Vec<SvgEntry>) -> (svg: String)
        ensures
            svg@ == svg_document(view_box, entries@),
    {
        let mut v: Vec<char> = Vec::new();
        push_str(&mut v, "<?xml version=\"1.0\" encoding=\"UTF-8\"?>\n<svg xmlns=\"http://www.w3.org/2000/svg\" viewBox=\"");
        push_signed_decimal(&mut v, view_box.x);
        v.push(' ');
        push_signed_decimal(&mut v, view_box.y);
        v.push(' ');
        push_signed_decimal(&mut v, view_box.width);
        v.push(' ');
        push_signed_decimal(&mut v, view_box.height);
        push_str(&mut v, "\" width=\"");
        push_signed_decimal(&mut v, view_box.width);
        push_str(&mut v, "\" height=\"");
        push_signed_decimal(&mut v, view_box.height);
        push_str(&mut v, "\">\n");
        assert(v@ =~= svg_head(view_box));
        let ghost head = v@;
        let mut current = String::new();
        let mut open = false;
        let mut i: usize = 0;
        while i < entries.len()
            invariant
                i <= entries@.len(),
                v@ == head + svg_body(entries@.take(i as int)).0,
                current@ == svg_body(entries@.take(i as int)).1,
                open == svg_body(entries@.take(i as int)).2,
            decreases entries@.len() - i,
        {
            let ghost before = v@;
            let ghost t = entries@.take(i + 1);
            assert(t.drop_last() =~= entries@.take(i as int));
            assert(t.last() == entries@[i as int]);
            let e = &entries[i];
            if !(e.layer_name == current) {
                if open {
                    push_str(&mut v, "  </g>\n");
                }
                push_str(&mut v, "  <g id=\"");
                push_str(&mut v, e.layer_name.as_str());
                push_str(&mut v, "\" stroke=\"");
                push_str(&mut v, e.stroke_color.as_str());
                push_str(&mut v, "\" stroke-width=\"");
                push_str(&mut v, e.stroke_width.as_str());
                push_str(&mut v, "mm\" fill=\"none\">\n");
                current = e.layer_name.clone();
                open = true;
            }
            push_str(&mut v, "    <path d=\"");
            Self::push_path_data(&mut v, &e.path);
            push_str(&mut v, "\" />\n");
            assert(v@ =~= head + svg_body(t).0);
            i = i + 1;
        }
        assert(entries@.take(i as int) == entries@);
        if open {
            push_str(&mut v, "  </g>\n");
        }
        push_str(&mut v, "</svg>\n");
        assert(v@ =~= svg_document(view_box, entries@));
        string_from_chars(&v)
    }
}

} // verus!
