//! The document model: paths grouped in layers, each layer drawn with one pen.
//!
//! Numbers that the drawing program keeps as doubles (paper size, pen width,
//! grid size, point coordinates) are held here as the bit patterns of those
//! doubles; the library stores and moves them but never computes with them.
use vstd::prelude::*;

use crate::path::{PathEl, Point};

verus! {

/// A fresh random identifier (version-4 UUID, as its 128-bit value).
///
/// Calls `uuid::Uuid::new_v4` and `uuid::Uuid::as_u128`. Nothing is stated of the
/// value: it comes from a random source.
#[verifier::external_body]
pub(crate) fn new_id() -> (id: u128) {
    uuid::Uuid::new_v4().as_u128()
}

/// The length unit in which sizes are shown.
#[derive(Clone, Copy, Debug, PartialEq, Eq, Structural)]
pub enum Unit {
    Cm,
    Mm,
}

impl Unit {
    /// The unit's label, as shown next to values.
    pub fn label(&self) -> (s: &'static str)
        ensures
            *self == Unit::Cm ==> s@ == "cm"@,
            *self == Unit::Mm ==> s@ == "mm"@,
    {
        match self {
            Unit::Cm => "cm",
            Unit::Mm => "mm",
        }
    }
}

/// A colour as stored by the drawing program: red, green, blue and alpha bytes.
#[derive(Clone, Copy, Debug, PartialEq, Eq, Structural)]
pub struct Color {
    pub r: u8,
    pub g: u8,
    pub b: u8,
    pub a: u8,
}

impl Color {
    /// An opaque colour.
    pub fn from_rgb(r: u8, g: u8, b: u8) -> (c: Color)
        ensures
            c == (Color { r, g, b, a: 255 }),
    {
        Color { r, g, b, a: 255 }
    }
}

/// A pen: colour, stroke width (mm), lift height and a label.
pub struct Pen {
    pub color: Color,
    /// Stroke width in millimetres (bit pattern of a double).
    pub width_mm: u64,
    /// Lift height (bit pattern of a double).
    pub lift_height: u64,
    pub label: String,
}

/// A pen as a value.
#[verifier::ext_equal]
pub struct PenView {
    pub color: Color,
    pub width_mm: u64,
    pub lift_height: u64,
    pub label: Seq<char>,
}

impl View for Pen {
    type V = PenView;

    open spec fn view(&self) -> PenView {
        PenView {
            color: self.color,
            width_mm: self.width_mm,
            lift_height: self.lift_height,
            label: self.label@,
        }
    }
}

/// Bit pattern of the double `0.5`.
pub const HALF_MM_BITS: u64 = 0x3fe0_0000_0000_0000u64;

/// Bit pattern of the double `5.0`.
pub const FIVE_BITS: u64 = 0x4014_0000_0000_0000u64;

/// Bit pattern of the double `21.0`.
pub const A4_WIDTH_CM_BITS: u64 = 0x4035_0000_0000_0000u64;

/// Bit pattern of the double `29.7`.
pub const A4_HEIGHT_CM_BITS: u64 = 0x403d_b333_3333_3333u64;

/// The default pen: opaque black, 0.5 mm wide, lifted 5.0, labelled "Black".
pub open spec fn default_pen() -> PenView {
    PenView {
        color: Color::from_rgb_spec(0, 0, 0),
        width_mm: HALF_MM_BITS,
        lift_height: FIVE_BITS,
        label: "Black"@,
    }
}

impl Default for Pen {
    /// The default pen (see `default_pen`).
    fn default() -> (p: Pen)
        ensures
            p@ == default_pen(),
    {
        proof {
            reveal_strlit("Black");
        }
        Pen {
            color: Color::from_rgb(0, 0, 0),
            width_mm: HALF_MM_BITS,
            lift_height: FIVE_BITS,
            label: crate::text::string_from_chars(&crate::text::chars_of("Black")),
        }
    }
}

impl Pen {
    /// A copy of the pen.
    pub fn copy(&self) -> (p: Pen)
        ensures
            p@ == self@,
    {
        Pen {
            color: self.color,
            width_mm: self.width_mm,
            lift_height: self.lift_height,
            label: self.label.clone(),
        }
    }
}

impl Color {
    pub open spec fn from_rgb_spec(r: u8, g: u8, b: u8) -> Color {
        Color { r, g, b, a: 255 }
    }
}

/// A path of the drawing with its identity, name and display flags.
pub struct PlotPath {
    pub id: u128,
    pub name: String,
    pub geometry: Vec<PathEl<Point>>,
    pub closed: bool,
    pub visible: bool,
    pub filled: bool,
}

/// A path as a value.
#[verifier::ext_equal]
pub struct PathView {
    pub id: u128,
    pub name: Seq<char>,
    pub geometry: Seq<PathEl<Point>>,
    pub closed: bool,
    pub visible: bool,
    pub filled: bool,
}

impl View for PlotPath {
    type V = PathView;

    open spec fn view(&self) -> PathView {
        PathView {
            id: self.id,
            name: self.name@,
            geometry: self.geometry@,
            closed: self.closed,
            visible: self.visible,
            filled: self.filled,
        }
    }
}

/// A copy of a geometry.
pub fn copy_geometry(g: &Vec<PathEl<Point>>) -> (r: Vec<PathEl<Point>>)
    ensures
        r@ == g@,
{
    let mut r: Vec<PathEl<Point>> = Vec::new();
    let mut i: usize = 0;
    while i < g.len()
        invariant
            i <= g@.len(),
            r@ == g@.take(i as int),
        decreases g@.len() - i,
    {
        r.push(g[i]);
        assert(g@.take(i + 1) == g@.take(i as int).push(g@[i as int]));
        i = i + 1;
    }
    assert(g@.take(i as int) == g@);
    r
}

impl PlotPath {
    /// A new visible, unfilled path with a fresh identifier and an empty name.
    pub fn new(geometry: Vec<PathEl<Point>>, closed: bool) -> (p: PlotPath)
        ensures
            p@.name == Seq::<char>::empty(),
            p@.geometry == geometry@,
            p@.closed == closed,
            p@.visible,
            !p@.filled,
    {
        PlotPath {
            id: new_id(),
            name: String::new(),
            geometry,
            closed,
            visible: true,
            filled: false,
        }
    }

    /// The same path under another name.
    pub fn with_name(self, name: String) -> (p: PlotPath)
        ensures
            p@ == (PathView { name: name@, ..self@ }),
    {
        let mut p = self;
        p.name = name;
        p
    }

    /// A copy of the path, identifier included.
    pub fn copy(&self) -> (p: PlotPath)
        ensures
            p@ == self@,
    {
        PlotPath {
            id: self.id,
            name: self.name.clone(),
            geometry: copy_geometry(&self.geometry),
            closed: self.closed,
            visible: self.visible,
            filled: self.filled,
        }
    }
}

/// Appends a path to a list of paths.
pub fn push_path(r: &mut Vec<PlotPath>, p: PlotPath)
    ensures
        paths_view(final(r)@) == paths_view(old(r)@).push(p@),
        final(r)@.len() == old(r)@.len() + 1,
{
    let ghost before = paths_view(r@);
    let ghost pv = p@;
    r.push(p);
    assert(paths_view(r@) =~= before.push(pv));
}

/// A layer: a named, ordered group of paths drawn with one pen.
pub struct Layer {
    pub id: u128,
    pub name: String,
    pub visible: bool,
    pub locked: bool,
    pub pen: Pen,
    pub paths: Vec<PlotPath>,
}

/// A layer as a value.
#[verifier::ext_equal]
pub struct LayerView {
    pub id: u128,
    pub name: Seq<char>,
    pub visible: bool,
    pub locked: bool,
    pub pen: PenView,
    pub paths: Seq<PathView>,
}

/// The views of a sequence of paths.
pub open spec fn paths_view(s: Seq<PlotPath>) -> Seq<PathView> {
    s.map_values(|p: PlotPath| p@)
}

impl View for Layer {
    type V = LayerView;

    open spec fn view(&self) -> LayerView {
        LayerView {
            id: self.id,
            name: self.name@,
            visible: self.visible,
            locked: self.locked,
            pen: self.pen@,
            paths: paths_view(self.paths@),
        }
    }
}

impl Layer {
    /// A new visible, unlocked, empty layer with a fresh identifier.
    pub fn new(name: String, pen: Pen) -> (l: Layer)
        ensures
            l@.name == name@,
            l@.visible,
            !l@.locked,
            l@.pen == pen@,
            l@.paths == Seq::<PathView>::empty(),
    {
        let l = Layer { id: new_id(), name, visible: true, locked: false, pen, paths: Vec::new() };
        assert(paths_view(l.paths@) =~= Seq::<PathView>::empty());
        l
    }
}

/// The drawing: its layers, the active layer, and the paper and grid settings.
pub struct Document {
    pub layers: Vec<Layer>,
    pub active_layer_idx: usize,
    /// Paper width in cm (bit pattern of a double).
    pub paper_width_cm: u64,
    /// Paper height in cm (bit pattern of a double).
    pub paper_height_cm: u64,
    pub snap_to_grid: bool,
    /// Grid spacing (bit pattern of a double).
    pub grid_size: u64,
    pub show_border: bool,
    pub border_dashed: bool,
    pub unit: Unit,
}

/// A document as a value.
#[verifier::ext_equal]
pub struct DocumentView {
    pub layers: Seq<LayerView>,
    pub active_layer_idx: usize,
    pub paper_width_cm: u64,
    pub paper_height_cm: u64,
    pub snap_to_grid: bool,
    pub grid_size: u64,
    pub show_border: bool,
    pub border_dashed: bool,
    pub unit: Unit,
}

/// The views of a sequence of layers.
pub open spec fn layers_view(s: Seq<Layer>) -> Seq<LayerView> {
    s.map_values(|l: Layer| l@)
}

impl View for Document {
    type V = DocumentView;

    open spec fn view(&self) -> DocumentView {
        DocumentView {
            layers: layers_view(self.layers@),
            active_layer_idx: self.active_layer_idx,
            paper_width_cm: self.paper_width_cm,
            paper_height_cm: self.paper_height_cm,
            snap_to_grid: self.snap_to_grid,
            grid_size: self.grid_size,
            show_border: self.show_border,
            border_dashed: self.border_dashed,
            unit: self.unit,
        }
    }
}

/// The number of paths over all layers.
pub open spec fn total_paths(layers: Seq<LayerView>) -> nat
    decreases layers.len(),
{
    if layers.len() == 0 {
        0
    } else {
        total_paths(layers.drop_last()) + layers.last().paths.len()
    }
}

/// Two documents that differ at most in their layers.
pub open spec fn same_settings(a: DocumentView, b: DocumentView) -> bool {
    &&& a.active_layer_idx == b.active_layer_idx
    &&& a.paper_width_cm == b.paper_width_cm
    &&& a.paper_height_cm == b.paper_height_cm
    &&& a.snap_to_grid == b.snap_to_grid
    &&& a.grid_size == b.grid_size
    &&& a.show_border == b.show_border
    &&& a.border_dashed == b.border_dashed
    &&& a.unit == b.unit
}

/// Whether `remove_layer(idx)` removes a layer: `idx` names one and it is not the only one.
pub open spec fn can_remove_layer(d: DocumentView, idx: int) -> bool {
    0 <= idx < d.layers.len() && d.layers.len() > 1
}

/// The document after removing layer `idx`: the active index is kept when it
/// still names a layer, else clamped to the last layer.
pub open spec fn layer_removed(d: DocumentView, idx: int) -> DocumentView {
    let layers = d.layers.remove(idx);
    DocumentView {
        layers,
        active_layer_idx: if d.active_layer_idx < layers.len() {
            d.active_layer_idx
        } else {
            (layers.len() - 1) as usize
        },
        ..d
    }
}

/// The document with layers `i` and `j` swapped; an active index naming one
/// of them follows it.
pub open spec fn layers_swapped(d: DocumentView, i: int, j: int) -> DocumentView {
    DocumentView {
        layers: d.layers.update(i, d.layers[j]).update(j, d.layers[i]),
        active_layer_idx: if d.active_layer_idx == i {
            j as usize
        } else if d.active_layer_idx == j {
            i as usize
        } else {
            d.active_layer_idx
        },
        ..d
    }
}

/// The document after moving layer `idx` up one place (swapping it with
/// `idx - 1`); unchanged for the first layer or an index out of range.
pub open spec fn layer_moved_up(d: DocumentView, idx: int) -> DocumentView {
    if 0 < idx < d.layers.len() {
        layers_swapped(d, idx, idx - 1)
    } else {
        d
    }
}

/// The document after moving layer `idx` down one place (swapping it with
/// `idx + 1`); unchanged for the last layer or an index out of range.
pub open spec fn layer_moved_down(d: DocumentView, idx: int) -> DocumentView {
    if 0 <= idx && idx + 1 < d.layers.len() {
        layers_swapped(d, idx, idx + 1)
    } else {
        d
    }
}

/// Removing a layer never leaves a document without layers, and leaves the
/// active index naming a layer.
pub proof fn lemma_remove_layer_keeps_a_layer(d: DocumentView, idx: int)
    requires
        can_remove_layer(d, idx),
    ensures
        layer_removed(d, idx).layers.len() >= 1,
        layer_removed(d, idx).active_layer_idx < layer_removed(d, idx).layers.len(),
        layer_removed(d, idx).layers.len() == d.layers.len() - 1,
{
}

/// Moving layers up or down keeps the same layer active.
pub proof fn lemma_move_keeps_active_layer(d: DocumentView, idx: int)
    requires
        d.active_layer_idx < d.layers.len(),
        d.layers.len() <= usize::MAX,
    ensures
        layer_moved_up(d, idx).layers[layer_moved_up(d, idx).active_layer_idx as int]
            == d.layers[d.active_layer_idx as int],
        layer_moved_down(d, idx).layers[layer_moved_down(d, idx).active_layer_idx as int]
            == d.layers[d.active_layer_idx as int],
        layer_moved_up(d, idx).layers.len() == d.layers.len(),
        layer_moved_down(d, idx).layers.len() == d.layers.len(),
{
}

/// Moving a layer up and then moving it back down restores the document.
pub proof fn lemma_move_up_then_down(d: DocumentView, idx: int)
    requires
        0 < idx < d.layers.len(),
        d.layers.len() <= usize::MAX,
    ensures
        layer_moved_down(layer_moved_up(d, idx), idx - 1) == d,
{
    let u = layer_moved_up(d, idx);
    assert(layer_moved_down(u, idx - 1).layers =~= d.layers);
    assert(layer_moved_down(u, idx - 1) =~= d);
}

/// Adding a layer and deleting it again gives the document back (for a
/// document whose active index names a layer).
pub proof fn lemma_add_then_remove_layer(d: DocumentView, l: LayerView)
    requires
        d.active_layer_idx < d.layers.len(),
    ensures
        can_remove_layer(DocumentView { layers: d.layers.push(l), ..d }, d.layers.len() as int),
        layer_removed(DocumentView { layers: d.layers.push(l), ..d }, d.layers.len() as int) == d,
{
    let added = DocumentView { layers: d.layers.push(l), ..d };
    assert(added.layers.remove(d.layers.len() as int) =~= d.layers);
    assert(layer_removed(added, d.layers.len() as int) =~= d);
}

impl Default for Document {
    /// The default document: one layer "Layer 1" with the default pen, active;
    /// A4 paper (21.0 x 29.7 cm), snapping off, grid 5.0, dashed border shown,
    /// sizes shown in cm.
    fn default() -> (d: Document)
        ensures
            d@.layers.len() == 1,
            d@.layers[0].name == "Layer 1"@,
            d@.layers[0].visible,
            !d@.layers[0].locked,
            d@.layers[0].pen == default_pen(),
            d@.layers[0].paths.len() == 0,
            d@.active_layer_idx == 0,
            d@.paper_width_cm == A4_WIDTH_CM_BITS,
            d@.paper_height_cm == A4_HEIGHT_CM_BITS,
            !d@.snap_to_grid,
            d@.grid_size == FIVE_BITS,
            d@.show_border,
            d@.border_dashed,
            d@.unit == Unit::Cm,
    {
        proof {
            reveal_strlit("Layer 1");
        }
        let name = crate::text::string_from_chars(&crate::text::chars_of("Layer 1"));
        let layer = Layer::new(name, Pen::default());
        let mut layers: Vec<Layer> = Vec::new();
        layers.push(layer);
        Document {
            layers,
            active_layer_idx: 0,
            paper_width_cm: A4_WIDTH_CM_BITS,
            paper_height_cm: A4_HEIGHT_CM_BITS,
            snap_to_grid: false,
            grid_size: FIVE_BITS,
            show_border: true,
            border_dashed: true,
            unit: Unit::Cm,
        }
    }
}

impl Document {
    /// The active layer, if the active index names one.
    pub fn active_layer(&self) -> (r: Option<&Layer>)
        ensures
            r is Some <==> self.active_layer_idx < self@.layers.len(),
            r matches Some(l) ==> l@ == self@.layers[self.active_layer_idx as int],
    {
        if self.active_layer_idx < self.layers.len() {
            Some(&self.layers[self.active_layer_idx])
        } else {
            None
        }
    }

    /// The number of paths over all layers (shown in the status bar); it
    /// saturates at `usize::MAX`.
    pub fn path_count(&self) -> (n: usize)
        ensures
            total_paths(self@.layers) <= usize::MAX ==> n == total_paths(self@.layers),
            total_paths(self@.layers) > usize::MAX ==> n == usize::MAX,
    {
        let mut n: usize = 0;
        let mut i: usize = 0;
        while i < self.layers.len()
            invariant
                i <= self@.layers.len(),
                total_paths(self@.layers.take(i as int)) <= usize::MAX ==> n == total_paths(
                    self@.layers.take(i as int),
                ),
                total_paths(self@.layers.take(i as int)) > usize::MAX ==> n == usize::MAX,
            decreases self@.layers.len() - i,
        {
            proof {
                let t = self@.layers.take(i + 1);
                assert(t.drop_last() == self@.layers.take(i as int));
                assert(t.last() == self@.layers[i as int]);
            }
            let k = self.layers[i].paths.len();
            assert(k == self@.layers[i as int].paths.len());
            if n > usize::MAX - k {
                n = usize::MAX;
            } else {
                n = n + k;
            }
            i = i + 1;
        }
        assert(self@.layers.take(i as int) == self@.layers);
        n
    }

    /// Appends a layer.
    pub fn add_layer(&mut self, layer: Layer)
        ensures
            final(self)@.layers == old(self)@.layers.push(layer@),
            same_settings(final(self)@, old(self)@),
    {
        self.layers.push(layer);
        assert(layers_view(self.layers@) =~= layers_view(old(self).layers@).push(layer@));
    }

    /// Removes layer `idx` unless it is out of range or the only layer (see
    /// `layer_removed`). Returns whether a layer was removed.
    pub fn remove_layer(&mut self, idx: usize) -> (removed: bool)
        ensures
            removed == can_remove_layer(old(self)@, idx as int),
            removed ==> final(self)@ == layer_removed(old(self)@, idx as int),
            !removed ==> final(self)@ == old(self)@,
    {
        if idx < self.layers.len() && self.layers.len() > 1 {
            let ghost before = layers_view(self.layers@);
            let _ = self.layers.remove(idx);
            assert(layers_view(self.layers@) =~= before.remove(idx as int));
            let last = self.layers.len() - 1;
            if self.active_layer_idx > last {
                self.active_layer_idx = last;
            }
            true
        } else {
            false
        }
    }

    /// Swaps layer `idx` with the one above it (see `layer_moved_up`).
    pub fn move_layer_up(&mut self, idx: usize)
        ensures
            final(self)@ == layer_moved_up(old(self)@, idx as int),
    {
        if idx > 0 && idx < self.layers.len() {
            self.swap_layers(idx, idx - 1);
        }
    }

    /// Swaps layer `idx` with the one below it (see `layer_moved_down`).
    pub fn move_layer_down(&mut self, idx: usize)
        ensures
            final(self)@ == layer_moved_down(old(self)@, idx as int),
    {
        if idx < self.layers.len() && idx + 1 < self.layers.len() {
            self.swap_layers(idx, idx + 1);
        }
    }

    /// Swaps layers `i` and `j` (see `layers_swapped`).
    fn swap_layers(&mut self, i: usize, j: usize)
        requires
            i < old(self)@.layers.len(),
            j < old(self)@.layers.len(),
            i != j,
        ensures
            final(self)@ == layers_swapped(old(self)@, i as int, j as int),
    {
        let ghost before = layers_view(self.layers@);
        let (lo, hi) = if i < j { (i, j) } else { (j, i) };
        let upper = self.layers.remove(hi);
        let lower = self.layers.remove(lo);
        self.layers.insert(lo, upper);
        self.layers.insert(hi, lower);
        assert(layers_view(self.layers@) =~= before.update(i as int, before[j as int]).update(
            j as int,
            before[i as int],
        ));
        if self.active_layer_idx == i {
            self.active_layer_idx = j;
        } else if self.active_layer_idx == j {
            self.active_layer_idx = i;
        }
    }

    /// Removes every path of the active layer (if there is one).
    pub fn clear_active_layer(&mut self)
        ensures
            old(self).active_layer_idx < old(self)@.layers.len() ==> final(self)@.layers
                == old(self)@.layers.update(
                old(self).active_layer_idx as int,
                LayerView {
                    paths: Seq::empty(),
                    ..old(self)@.layers[old(self).active_layer_idx as int]
                },
            ),
            old(self).active_layer_idx >= old(self)@.layers.len() ==> final(self)@ == old(self)@,
            same_settings(final(self)@, old(self)@),
    {
        let a = self.active_layer_idx;
        if a < self.layers.len() {
            let ghost before = layers_view(self.layers@);
            self.layers[a].paths = Vec::new();
            assert(paths_view(self.layers@[a as int].paths@) =~= Seq::<PathView>::empty());
            assert(layers_view(self.layers@) =~= before.update(
                a as int,
                LayerView { paths: Seq::empty(), ..before[a as int] },
            ));
        }
    }

    /// Appends paths to the active layer (if there is one), in order.
    pub fn add_paths_to_active(&mut self, paths: Vec<PlotPath>)
        ensures
            old(self).active_layer_idx < old(self)@.layers.len() ==> final(self)@.layers
                == old(self)@.layers.update(
                old(self).active_layer_idx as int,
                LayerView {
                    paths: old(self)@.layers[old(self).active_layer_idx as int].paths + paths_view(
                        paths@,
                    ),
                    ..old(self)@.layers[old(self).active_layer_idx as int]
                },
            ),
            old(self).active_layer_idx >= old(self)@.layers.len() ==> final(self)@ == old(self)@,
            same_settings(final(self)@, old(self)@),
    {
        let a = self.active_layer_idx;
        if a < self.layers.len() {
            let ghost before = layers_view(self.layers@);
            let ghost old_paths = self.layers@[a as int].paths@;
            let ghost added = paths@;
            let mut paths = paths;
            self.layers[a].paths.append(&mut paths);
            assert(paths_view(self.layers@[a as int].paths@) =~= paths_view(old_paths)
                + paths_view(added));
            assert(layers_view(self.layers@) =~= before.update(
                a as int,
                LayerView {
                    paths: before[a as int].paths + paths_view(added),
                    ..before[a as int]
                },
            ));
        }
    }
}

} // verus!
