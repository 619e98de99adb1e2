//! SVG import: the file's tree of shapes, the paths found in it depth first,
//! and the document made from them.
use vstd::prelude::*;

use crate::generators::generated;
use crate::model::{
    copy_geometry, default_pen, paths_view, push_path, Color, Document, Layer, Pen, PenView,
    PlotPath, Unit, DocumentView, A4_HEIGHT_CM_BITS, A4_WIDTH_CM_BITS, FIVE_BITS, HALF_MM_BITS,
};
use crate::path::{PathEl, Point};
use crate::text::{chars_of, decimal, numbered_name, push_str, string_from_chars};
use usvg::tiny_skia_path::PathSegment;

verus! {

/// A path as read from an SVG file, in document order: its elements, its
/// fill colour when it is filled with a plain colour, and its stroke width
/// (bit pattern of a double) when it is stroked.
pub struct ImportedPath {
    pub geometry: Vec<PathEl<Point>>,
    pub fill: Option<Color>,
    pub stroke_width: Option<u64>,
}

/// An imported path as a value.
pub struct ImportedView {
    pub geometry: Seq<PathEl<Point>>,
    pub fill: Option<Color>,
    pub stroke_width: Option<u64>,
}

impl View for ImportedPath {
    type V = ImportedView;

    open spec fn view(&self) -> ImportedView {
        ImportedView { geometry: self.geometry@, fill: self.fill, stroke_width: self.stroke_width }
    }
}

/// The views of a sequence of imported paths.
pub open spec fn imported_views(s: Seq<ImportedPath>) -> Seq<ImportedView> {
    s.map_values(|p: ImportedPath| p@)
}

/// The imported paths that have at least one element, in order.
pub open spec fn kept(s: Seq<ImportedView>) -> Seq<ImportedView>
    decreases s.len(),
{
    if s.len() == 0 {
        s
    } else {
        let k = kept(s.drop_last());
        if s.last().geometry.len() > 0 {
            k.push(s.last())
        } else {
            k
        }
    }
}

/// The pen of an imported layer, taken from its first path: its fill colour
/// (opaque black when it has none) and its stroke width (0.5 when it has none).
pub open spec fn imported_pen(first: ImportedView) -> PenView {
    PenView {
        color: match first.fill {
            Some(c) => c,
            None => Color::from_rgb_spec(0, 0, 0),
        },
        width_mm: match first.stroke_width {
            Some(w) => w,
            None => HALF_MM_BITS,
        },
        ..default_pen()
    }
}

/// A node of an SVG file's tree, as read: a path with its elements, its fill
/// colour when filled with a plain colour, and its stroke width (bit pattern
/// of a double) when stroked; a group of nodes; or anything else (images,
/// text).
pub enum SvgNode {
    Path { segments: Vec<PathEl<Point>>, fill: Option<Color>, stroke_width: Option<u64> },
    Group(Vec<SvgNode>),
    Other,
}

/// The paths in a node, depth first, in document order.
pub open spec fn node_paths(n: SvgNode) -> Seq<ImportedView>
    decreases n,
{
    match n {
        SvgNode::Path { segments, fill, stroke_width } => seq![
            ImportedView { geometry: segments@, fill, stroke_width },
        ],
        SvgNode::Group(children) => nodes_paths(children@),
        SvgNode::Other => Seq::empty(),
    }
}

/// The paths in a sequence of nodes, depth first, in document order.
pub open spec fn nodes_paths(s: Seq<SvgNode>) -> Seq<ImportedView>
    decreases s,
{
    if s.len() == 0 {
        Seq::empty()
    } else {
        nodes_paths(s.subrange(0, s.len() - 1)) + node_paths(s[s.len() - 1])
    }
}

#[verifier::external_type_specification]
#[verifier::external_body]
pub struct ExSvgGroup(usvg::Group);

#[verifier::external_type_specification]
#[verifier::external_body]
pub struct ExSvgPath(usvg::Path);

/// What usvg makes of SVG text (`usvg::Tree::from_str` with default options):
/// the paths of the tree, depth first and in document order, or the message
/// of its parse error. It is a function of the text: an image that the file
/// names is loaded into an image node of its own and text becomes a text
/// node, neither of which holds paths of the tree.
pub uninterp spec fn usvg_parsed_paths(svg: Seq<char>) -> Result<Seq<ImportedView>, Seq<char>>;

/// Parses SVG text with `usvg::Tree::from_str` (default options) and hands
/// out the children of the tree's root group as `SvgNode`s (see `svg_nodes`);
/// a parse error as its message (`Display` of `usvg::Error`). Stated: the
/// paths of the nodes handed out, or the message, are what usvg makes of the
/// text (`usvg_parsed_paths`).
#[verifier::external_body]
fn parse_svg(svg: &str) -> (r: Result<Vec<SvgNode>, String>)
    ensures
        match r {
            Ok(n) => usvg_parsed_paths(svg@) == Ok::<Seq<ImportedView>, Seq<char>>(nodes_paths(n@)),
            Err(e) => usvg_parsed_paths(svg@) == Err::<Seq<ImportedView>, Seq<char>>(e@),
        },
{
    match usvg::Tree::from_str(svg, &usvg::Options::default()) {
        Ok(tree) => Ok(svg_nodes(tree.root())),
        Err(e) => Err(format!("{}", e)),
    }
}

/// The children of a usvg group (`usvg::Group::children`), one node each and
/// in order: a path as `svg_path_node` reads it, a group with its own
/// children, anything else as `Other`.
#[verifier::external_body]
fn svg_nodes(group: &usvg::Group) -> (r: Vec<SvgNode>) {
    let mut r = Vec::new();
    for child in group.children() {
        r.push(match child {
            usvg::Node::Path(p) => svg_path_node(p),
            usvg::Node::Group(g) => SvgNode::Group(svg_nodes(g)),
            _ => SvgNode::Other,
        });
    }
    r
}

/// A usvg path as an `SvgNode::Path`: its segments (`svg_segments`), the
/// colour of its fill when the fill's paint is `usvg::Paint::Color`, and the
/// width of its stroke (`usvg::Stroke::width`) widened to a double (through
/// `kurbo::Point::new`) and kept as its bit pattern.
#[verifier::external_body]
fn svg_path_node(p: &usvg::Path) -> (r: SvgNode) {
    let fill = p.fill().and_then(|f| match f.paint() {
        usvg::Paint::Color(c) => Some(Color::from_rgb(c.red, c.green, c.blue)),
        _ => None,
    });
    let stroke_width = p.stroke().map(|s| kurbo::Point::new(s.width().get().into(), 0u8.into()).x.to_bits());
    SvgNode::Path { segments: svg_segments(p), fill, stroke_width }
}

/// The segments of a usvg path (`usvg::Path::data`, then
/// `tiny_skia_path::Path::segments`), one element each (a cubic segment as
/// `CurveTo`); each single-precision coordinate is widened to a double
/// (through `kurbo::Point::new`, which takes doubles) and kept as its bit
/// pattern.
#[verifier::external_body]
fn svg_segments(p: &usvg::Path) -> (r: Vec<PathEl<Point>>) {
    let pt = |a: usvg::tiny_skia_path::Point| {
        let k = kurbo::Point::new(a.x.into(), a.y.into());
        Point { x: k.x.to_bits(), y: k.y.to_bits() }
    };
    p.data().segments().map(|s| match s {
        PathSegment::MoveTo(a) => PathEl::MoveTo(pt(a)),
        PathSegment::LineTo(a) => PathEl::LineTo(pt(a)),
        PathSegment::QuadTo(c, a) => PathEl::QuadTo(pt(c), pt(a)),
        PathSegment::CubicTo(c1, c2, a) => PathEl::CurveTo(pt(c1), pt(c2), pt(a)),
        PathSegment::Close => PathEl::ClosePath,
    }).collect()
}

/// The paths in a sequence of nodes, depth first (see `nodes_paths`).
pub fn collect_paths(nodes: &Vec<SvgNode>) -> (r: Vec<ImportedPath>)
    ensures
        imported_views(r@) == nodes_paths(nodes@),
    decreases nodes@,
{
    let mut r: Vec<ImportedPath> = Vec::new();
    let mut i: usize = 0;
    while i < nodes.len()
        invariant
            i <= nodes@.len(),
            imported_views(r@) == nodes_paths(nodes@.take(i as int)),
        decreases nodes@.len() - i,
    {
        let ghost before = imported_views(r@);
        let ghost t = nodes@.take(i + 1);
        assert(t.subrange(0, t.len() - 1) == nodes@.take(i as int));
        assert(t[t.len() - 1] == nodes@[i as int]);
        match &nodes[i] {
            SvgNode::Path { segments, fill, stroke_width } => {
                let p = ImportedPath { geometry: copy_geometry(segments), fill: *fill, stroke_width: *stroke_width };
                r.push(p);
                assert(imported_views(r@) =~= before + node_paths(nodes@[i as int]));
            },
            SvgNode::Group(children) => {
                proof {
                    assert(decreases_to!(nodes@ => nodes@[i as int]));
                }
                let mut sub = collect_paths(children);
                let ghost added = imported_views(sub@);
                r.append(&mut sub);
                assert(imported_views(r@) =~= before + added);
            },
            SvgNode::Other => {
                assert(node_paths(nodes@[i as int]) =~= Seq::<ImportedView>::empty());
                assert(before + node_paths(nodes@[i as int]) =~= before);
            },
        }
        i = i + 1;
    }
    assert(nodes@.take(i as int) == nodes@);
    r
}

/// The document made from the paths read from an SVG file (see
/// `SvgImporter::assemble`): one layer `Imported` holding, in order, every
/// path with at least one element as an open path named `Path 1`, `Path 2`,
/// ..., drawn with the pen of the first of them; when there is no such path,
/// one empty layer `Layer 1` with the default pen. The layer is visible,
/// unlocked and active; the other settings are those of a new document.
pub open spec fn imported_document(d: DocumentView, paths: Seq<ImportedView>) -> bool {
    let k = kept(paths);
    &&& d.layers.len() == 1
    &&& d.active_layer_idx == 0
    &&& d.paper_width_cm == A4_WIDTH_CM_BITS
    &&& d.paper_height_cm == A4_HEIGHT_CM_BITS
    &&& !d.snap_to_grid
    &&& d.grid_size == FIVE_BITS
    &&& d.show_border
    &&& d.border_dashed
    &&& d.unit == Unit::Cm
    &&& d.layers[0].visible
    &&& !d.layers[0].locked
    &&& k.len() > 0 ==> {
        &&& d.layers[0].name == "Imported"@
        &&& d.layers[0].pen == imported_pen(k[0])
        &&& d.layers[0].paths.len() == k.len()
        &&& forall|i: int|
            0 <= i < k.len() ==> generated(
                #[trigger] d.layers[0].paths[i],
                "Path "@ + decimal((i + 1) as nat),
                k[i].geometry,
                false,
            )
    }
    &&& k.len() == 0 ==> {
        &&& d.layers[0].name == "Layer 1"@
        &&& d.layers[0].pen == default_pen()
        &&& d.layers[0].paths.len() == 0
    }
}

/// The SVG importer.
pub struct SvgImporter;

impl SvgImporter {
    /// The document made from a parsed SVG file: for a tree, the document
    /// `assemble` makes of its paths, depth first (see `nodes_paths`); for a
    /// parse error, the error `SVG parse error: <message>`.
    pub fn import_parsed(parsed: Result<Vec<SvgNode>, String>) -> (r: Result<Document, String>)
        ensures
            parsed matches Ok(nodes) ==> (r matches Ok(d) && imported_document(d@, nodes_paths(nodes@))),
            parsed matches Err(e) ==> (r matches Err(m) && m@ == "SVG parse error: "@ + e@),
    {
        match parsed {
            Ok(nodes) => Ok(SvgImporter::assemble(collect_paths(&nodes))),
            Err(e) => {
                let mut m = chars_of("SVG parse error: ");
                push_str(&mut m, e.as_str());
                Err(string_from_chars(&m))
            },
        }
    }

    /// Imports SVG text: parses it with usvg and makes the document of the
    /// paths of its tree (see `import_parsed`): for text that usvg parses,
    /// the document `assemble` makes of the paths usvg finds in it; for text
    /// that it refuses, the error `SVG parse error: <usvg's message>`.
    pub fn import_from_str(svg_str: &str) -> (r: Result<Document, String>)
        ensures
            match usvg_parsed_paths(svg_str@) {
                Ok(ps) => (r matches Ok(d) && imported_document(d@, ps)),
                Err(e) => (r matches Err(m) && m@ == "SVG parse error: "@ + e),
            },
    {
        let parsed = parse_svg(svg_str);
        SvgImporter::import_parsed(parsed)
    }

    /// The document made from the paths of an SVG file: one layer
    /// `Imported` holding, in order, every path with at least one element as
    /// an open path named `Path 1`, `Path 2`, ..., drawn with the pen of the
    /// first of them (see `imported_pen`); when there is no such path, one
    /// empty layer `Layer 1` with the default pen. The layer is active and
    /// the other settings are those of a new document.
    pub fn assemble(paths: Vec<ImportedPath>) -> (d: Document)
        ensures
            imported_document(d@, imported_views(paths@)),
    {
        proof {
            reveal_strlit("Imported");
        }
        let ghost all = imported_views(paths@);
        let mut doc = Document::default();
        let mut layer = Layer::new(string_from_chars(&chars_of("Imported")), Pen::default());
        let mut out: Vec<PlotPath> = Vec::new();
        let n = paths.len();
        let mut i: usize = 0;
        while i < n
            invariant
                n == paths@.len(),
                all == imported_views(paths@),
                i <= n,
                out@.len() == kept(all.take(i as int)).len(),
                out@.len() <= i,
                forall|q: int|
                    0 <= q < out@.len() ==> generated(
                        #[trigger] paths_view(out@)[q],
                        "Path "@ + decimal((q + 1) as nat),
                        kept(all.take(i as int))[q].geometry,
                        false,
                    ),
                layer@.name == "Imported"@,
                layer@.visible,
                !layer@.locked,
                layer@.paths.len() == 0,
                out@.len() == 0 ==> layer@.pen == default_pen(),
                out@.len() > 0 ==> layer@.pen == imported_pen(kept(all.take(i as int))[0]),
            decreases n - i,
        {
            assert(all.take(i + 1).drop_last() == all.take(i as int));
            assert(all.take(i + 1).last() == all[i as int]);
            let p = &paths[i];
            if p.geometry.len() > 0 {
                if out.len() == 0 {
                    layer.pen.color = match p.fill {
                        Some(c) => c,
                        None => Color::from_rgb(0, 0, 0),
                    };
                    layer.pen.width_mm = match p.stroke_width {
                        Some(w) => w,
                        None => HALF_MM_BITS,
                    };
                    assert(layer@.pen == imported_pen(all[i as int]));
                }
                let count = out.len();
                let g = copy_geometry(&p.geometry);
                let path = PlotPath::new(g, false).with_name(numbered_name("Path ", (count as u64) + 1));
                push_path(&mut out, path);
            }
            i = i + 1;
        }
        assert(all.take(n as int) == all);
        if out.len() > 0 {
            layer.paths = out;
            let mut layers: Vec<Layer> = Vec::new();
            layers.push(layer);
            doc.layers = layers;
        }
        doc
    }
}

} // verus!
