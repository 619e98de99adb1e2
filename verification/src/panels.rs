//! What the panels, dialogs and shortcuts of the drawing program do to the
//! document and the selection.
use vstd::prelude::*;

use crate::generators::{generated, text_part_name, text_paths};
use crate::model::{
    default_pen, paths_view, same_settings, Color, Document, DocumentView, Layer, LayerView, Pen, PenView,
    PathView, PlotPath,
};
use crate::path::{PathEl, Point};
use crate::selection::{delete_selected, unselected, with_paths};
use crate::text::{chars_of, decimal, numbered_name, push_decimal, push_str, string_from_chars};

verus! {

broadcast use vstd::string::group_string_axioms;

/// The document with `added` appended to the paths of its active layer
/// (unchanged when the active index names no layer).
pub open spec fn appended_to_active(d: DocumentView, added: Seq<PathView>) -> DocumentView {
    let a = d.active_layer_idx as int;
    if a < d.layers.len() {
        DocumentView {
            layers: d.layers.update(a, LayerView { paths: d.layers[a].paths + added, ..d.layers[a] }),
            ..d
        }
    } else {
        d
    }
}

/// The document with the paths of its active layer replaced by `ps`
/// (unchanged when the active index names no layer).
pub open spec fn replaced_in_active(d: DocumentView, ps: Seq<PathView>) -> DocumentView {
    let a = d.active_layer_idx as int;
    if a < d.layers.len() {
        DocumentView { layers: d.layers.update(a, LayerView { paths: ps, ..d.layers[a] }), ..d }
    } else {
        d
    }
}

/// The paths added to the active layer between `old` and `new`.
pub open spec fn added_paths(old: DocumentView, new: DocumentView) -> Seq<PathView> {
    let a = old.active_layer_idx as int;
    new.layers[a].paths.subrange(old.layers[a].paths.len() as int, new.layers[a].paths.len() as int)
}

fn append_to_active(doc: &mut Document, paths: Vec<PlotPath>)
    ensures
        final(doc)@ == appended_to_active(old(doc)@, paths_view(paths@)),
{
    let ghost pv = paths_view(paths@);
    doc.add_paths_to_active(paths);
    assert(final(doc)@ =~= appended_to_active(old(doc)@, pv));
}

/// The generator panel: generated paths and shapes go to the active layer.
pub struct GeneratorPanel;

impl GeneratorPanel {
    /// A generator's output: appended to the active layer ("Generate"), or
    /// replacing its paths ("Replace"). Nothing changes without an active layer.
    pub fn apply_generated(doc: &mut Document, paths: Vec<PlotPath>, replace: bool)
        ensures
            !replace ==> final(doc)@ == appended_to_active(old(doc)@, paths_view(paths@)),
            replace ==> final(doc)@ == replaced_in_active(old(doc)@, paths_view(paths@)),
    {
        let ghost pv = paths_view(paths@);
        if replace {
            doc.clear_active_layer();
            let ghost mid = doc@;
            append_to_active(doc, paths);
            assert(final(doc)@ =~= replaced_in_active(old(doc)@, pv)) by {
                let a = old(doc)@.active_layer_idx as int;
                if a < old(doc)@.layers.len() {
                    assert(Seq::<PathView>::empty() + pv =~= pv);
                }
            }
        } else {
            append_to_active(doc, paths);
        }
    }

    /// A drawn shape (line, rectangle, ellipse) added to the active layer as
    /// a closed path named `name`. Nothing changes without an active layer.
    pub fn add_shape(doc: &mut Document, geometry: Vec<PathEl<Point>>, name: &str)
        ensures
            old(doc).active_layer_idx < old(doc)@.layers.len() ==> {
                let added = added_paths(old(doc)@, final(doc)@);
                &&& added.len() == 1
                &&& final(doc)@ == appended_to_active(old(doc)@, added)
                &&& generated(added[0], name@, geometry@, true)
            },
            old(doc).active_layer_idx >= old(doc)@.layers.len() ==> final(doc)@ == old(doc)@,
    {
        let ghost g = geometry@;
        let p = PlotPath::new(geometry, true).with_name(string_from_chars(&chars_of(name)));
        let ghost pv = p@;
        let mut v: Vec<PlotPath> = Vec::new();
        v.push(p);
        assert(paths_view(v@) =~= seq![pv]);
        append_to_active(doc, v);
        proof {
            let a = old(doc).active_layer_idx as int;
            if a < old(doc)@.layers.len() {
                let ps = old(doc)@.layers[a].paths;
                assert((ps + seq![pv]).subrange(ps.len() as int, ps.len() + 1int) =~= seq![pv]);
            }
        }
    }

    /// The outlines of a text added to the active layer as closed paths named
    /// after the text (see `text_part_name`). Nothing changes without an
    /// active layer.
    pub fn add_text(doc: &mut Document, content: &str, outlines: Vec<Vec<PathEl<Point>>>)
        ensures
            old(doc).active_layer_idx < old(doc)@.layers.len() ==> {
                let added = added_paths(old(doc)@, final(doc)@);
                &&& added.len() == outlines@.len()
                &&& final(doc)@ == appended_to_active(old(doc)@, added)
                &&& forall|k: int|
                    0 <= k < outlines@.len() ==> generated(
                        #[trigger] added[k],
                        text_part_name(content@, k as nat),
                        outlines@[k]@,
                        true,
                    )
            },
            old(doc).active_layer_idx >= old(doc)@.layers.len() ==> final(doc)@ == old(doc)@,
    {
        let ps = text_paths(content, outlines);
        let ghost pv = paths_view(ps@);
        append_to_active(doc, ps);
        proof {
            let a = old(doc).active_layer_idx as int;
            if a < old(doc)@.layers.len() {
                let old_ps = old(doc)@.layers[a].paths;
                assert((old_ps + pv).subrange(old_ps.len() as int, (old_ps.len() + pv.len()) as int) =~= pv);
            }
        }
    }
}

/// Whether `i` is the first path of `ps` with identifier `id`.
pub open spec fn first_with_id(ps: Seq<PathView>, id: u128, i: int) -> bool {
    &&& 0 <= i < ps.len()
    &&& ps[i].id == id
    &&& forall|j: int| 0 <= j < i ==> #[trigger] ps[j].id != id
}

/// Whether some path of `ps` has identifier `id`.
pub open spec fn holds_id(ps: Seq<PathView>, id: u128) -> bool {
    exists|i: int| 0 <= i < ps.len() && #[trigger] ps[i].id == id
}

/// The index of the first path of `ps` with identifier `id`.
pub open spec fn first_index_of(ps: Seq<PathView>, id: u128) -> int {
    choose|i: int| first_with_id(ps, id, i)
}

/// The name a path is listed under: its own, or `Path <n>` (its place in
/// the layer, from 1) when it has none.
pub open spec fn listed_name(name: Seq<char>, index: nat) -> Seq<char> {
    if name.len() == 0 {
        "Path "@ + decimal(index + 1)
    } else {
        name
    }
}

/// The name shown for the selected path: its own, or `Path` when it has none.
pub open spec fn selection_name(name: Seq<char>) -> Seq<char> {
    if name.len() == 0 {
        "Path"@
    } else {
        name
    }
}

/// The name shown for the selected path `id`: taken from the first path
/// with that identifier in the last layer holding one; empty when no layer
/// holds one.
pub open spec fn selected_name_in(layers: Seq<LayerView>, id: u128) -> Seq<char>
    decreases layers.len(),
{
    if layers.len() == 0 {
        Seq::empty()
    } else {
        let ps = layers.last().paths;
        if holds_id(ps, id) {
            selection_name(ps[first_index_of(ps, id)].name)
        } else {
            selected_name_in(layers.drop_last(), id)
        }
    }
}

/// The paths of a layer with the first one named `id` renamed.
pub open spec fn renamed_first(ps: Seq<PathView>, id: u128, name: Seq<char>) -> Seq<PathView> {
    if holds_id(ps, id) {
        let i = first_index_of(ps, id);
        ps.update(i, PathView { name, ..ps[i] })
    } else {
        ps
    }
}

fn first_path_index(ps: &Vec<PlotPath>, id: u128) -> (r: Option<usize>)
    ensures
        r matches Some(i) ==> first_with_id(paths_view(ps@), id, i as int) && first_index_of(
            paths_view(ps@),
            id,
        ) == i,
        r is Some <==> holds_id(paths_view(ps@), id),
{
    let ghost pv = paths_view(ps@);
    let mut i: usize = 0;
    while i < ps.len()
        invariant
            pv == paths_view(ps@),
            i <= ps@.len(),
            forall|j: int| 0 <= j < i ==> #[trigger] pv[j].id != id,
        decreases ps@.len() - i,
    {
        if ps[i].id == id {
            assert(pv[i as int].id == id);
            assert(first_with_id(pv, id, i as int));
            let ghost k = first_index_of(pv, id);
            assert(first_with_id(pv, id, k));
            assert(k == i) by {
                if k < i {
                    assert(pv[k].id != id);
                }
                if k > i {
                    assert(pv[i as int].id != id);
                }
            }
            return Some(i);
        }
        i = i + 1;
    }
    None
}

/// The layer panel: layers, their paths, and the selection.
pub struct LayerPanel;

impl LayerPanel {
    /// The name a path is listed under (see `listed_name`).
    pub fn listed_path_name(path: &PlotPath, index: usize) -> (s: String)
        requires
            index < usize::MAX,
        ensures
            s@ == listed_name(path@.name, index as nat),
    {
        if path.name.as_str().is_empty() {
            numbered_name("Path ", (index as u64) + 1)
        } else {
            path.name.clone()
        }
    }

    /// The name shown for the selected path `id` (see `selected_name_in`).
    pub fn selected_name(doc: &Document, id: u128) -> (s: String)
        ensures
            s@ == selected_name_in(doc@.layers, id),
    {
        proof {
            reveal_strlit("Path");
        }
        let mut found = String::new();
        let mut li: usize = 0;
        while li < doc.layers.len()
            invariant
                li <= doc@.layers.len(),
                found@ == selected_name_in(doc@.layers.take(li as int), id),
            decreases doc@.layers.len() - li,
        {
            let ghost t = doc@.layers.take(li + 1);
            assert(t.drop_last() == doc@.layers.take(li as int));
            assert(t.last() == doc@.layers[li as int]);
            match first_path_index(&doc.layers[li].paths, id) {
                Some(i) => {
                    let p = &doc.layers[li].paths[i];
                    if p.name.as_str().is_empty() {
                        found = string_from_chars(&chars_of("Path"));
                    } else {
                        found = p.name.clone();
                    }
                },
                None => {},
            }
            li = li + 1;
        }
        assert(doc@.layers.take(li as int) == doc@.layers);
        found
    }

    /// Renames, in every layer, the first path with identifier `id`.
    pub fn rename_selected(doc: &mut Document, id: u128, name: &str)
        ensures
            final(doc)@.layers.len() == old(doc)@.layers.len(),
            forall|l: int|
                0 <= l < old(doc)@.layers.len() ==> #[trigger] final(doc)@.layers[l] == with_paths(
                    old(doc)@.layers[l],
                    renamed_first(old(doc)@.layers[l].paths, id, name@),
                ),
            same_settings(final(doc)@, old(doc)@),
    {
        let n = doc.layers.len();
        let mut li: usize = 0;
        while li < n
            invariant
                n == doc@.layers.len() == old(doc)@.layers.len(),
                li <= n,
                same_settings(doc@, old(doc)@),
                forall|l: int|
                    0 <= l < li ==> #[trigger] doc@.layers[l] == with_paths(
                        old(doc)@.layers[l],
                        renamed_first(old(doc)@.layers[l].paths, id, name@),
                    ),
                forall|l: int| li <= l < n ==> #[trigger] doc@.layers[l] == old(doc)@.layers[l],
            decreases n - li,
        {
            let ghost before = doc@.layers;
            match first_path_index(&doc.layers[li].paths, id) {
                Some(i) => {
                    let ghost ps = doc.layers@[li as int].paths@;
                    doc.layers[li].paths[i].name = string_from_chars(&chars_of(name));
                    assert(paths_view(doc.layers@[li as int].paths@) =~= paths_view(ps).update(
                        i as int,
                        PathView { name: name@, ..paths_view(ps)[i as int] },
                    ));
                    assert(doc@.layers =~= before.update(
                        li as int,
                        with_paths(before[li as int], renamed_first(before[li as int].paths, id, name@)),
                    ));
                },
                None => {
                    assert(renamed_first(before[li as int].paths, id, name@) == before[li as int].paths);
                    assert(with_paths(before[li as int], before[li as int].paths) =~= before[li as int]);
                },
            }
            li = li + 1;
        }
    }

    /// A new layer named `Layer <n>` (`n` the number of layers it makes),
    /// drawn with the default pen in `color`.
    pub fn add_layer_with_color(doc: &mut Document, color: Color)
        requires
            old(doc)@.layers.len() < usize::MAX,
        ensures
            final(doc)@.layers.len() == old(doc)@.layers.len() + 1,
            final(doc)@.layers.drop_last() == old(doc)@.layers,
            final(doc)@.layers.last().name == "Layer "@ + decimal((old(doc)@.layers.len() + 1) as nat),
            final(doc)@.layers.last().visible,
            !final(doc)@.layers.last().locked,
            final(doc)@.layers.last().pen == (PenView { color, ..default_pen() }),
            final(doc)@.layers.last().paths.len() == 0,
            same_settings(final(doc)@, old(doc)@),
    {
        let num = doc.layers.len() + 1;
        let mut pen = Pen::default();
        pen.color = color;
        let layer = Layer::new(numbered_name("Layer ", num as u64), pen);
        doc.add_layer(layer);
    }

    /// "+ Add Layer": a new layer (see `add_layer_with_color`) in a colour
    /// drawn at random.
    pub fn add_layer(doc: &mut Document)
        requires
            old(doc)@.layers.len() < usize::MAX,
        ensures
            final(doc)@.layers.len() == old(doc)@.layers.len() + 1,
            final(doc)@.layers.drop_last() == old(doc)@.layers,
            final(doc)@.layers.last().name == "Layer "@ + decimal((old(doc)@.layers.len() + 1) as nat),
            final(doc)@.layers.last().pen == (PenView {
                color: final(doc)@.layers.last().pen.color,
                ..default_pen()
            }),
            final(doc)@.layers.last().pen.color.a == 255,
            final(doc)@.layers.last().visible,
            !final(doc)@.layers.last().locked,
            final(doc)@.layers.last().paths.len() == 0,
            same_settings(final(doc)@, old(doc)@),
    {
        let r = random_byte();
        let g = random_byte();
        let b = random_byte();
        Self::add_layer_with_color(doc, Color::from_rgb(r, g, b));
    }

    /// Deleting layer `idx` (see `Document::remove_layer`) clears the selection.
    pub fn delete_layer(doc: &mut Document, sel: &mut Vec<u128>, idx: usize) -> (removed: bool)
        ensures
            removed == crate::model::can_remove_layer(old(doc)@, idx as int),
            removed ==> final(doc)@ == crate::model::layer_removed(old(doc)@, idx as int),
            !removed ==> final(doc)@ == old(doc)@,
            final(sel)@ == Seq::<u128>::empty(),
    {
        let removed = doc.remove_layer(idx);
        sel.clear();
        removed
    }

    /// "Delete": the selected paths leave every layer and the selection is cleared.
    pub fn delete_selection(doc: &mut Document, sel: &mut Vec<u128>)
        ensures
            final(doc)@.layers.len() == old(doc)@.layers.len(),
            forall|i: int|
                0 <= i < old(doc)@.layers.len() ==> #[trigger] final(doc)@.layers[i] == with_paths(
                    old(doc)@.layers[i],
                    unselected(old(doc)@.layers[i].paths, old(sel)@),
                ),
            same_settings(final(doc)@, old(doc)@),
            final(sel)@ == Seq::<u128>::empty(),
    {
        delete_selected(doc, sel);
        sel.clear();
    }

    /// "Clear All": the active layer loses its paths and the selection is cleared.
    pub fn clear_all(doc: &mut Document, sel: &mut Vec<u128>)
        ensures
            final(doc)@ == replaced_in_active(old(doc)@, Seq::empty()),
            final(sel)@ == Seq::<u128>::empty(),
    {
        doc.clear_active_layer();
        sel.clear();
        assert(final(doc)@ =~= replaced_in_active(old(doc)@, Seq::empty()));
    }

    /// The heading of a layer's path list: `Paths (<n>)`.
    pub fn paths_heading(n: usize) -> (s: String)
        ensures
            s@ == "Paths ("@ + decimal(n as nat) + ")"@,
    {
        let mut v = chars_of("Paths (");
        push_decimal(&mut v, n as u64);
        push_str(&mut v, ")");
        string_from_chars(&v)
    }
}

/// What a dialog asks for: nothing yet, one of the four file operations, or
/// to close every dialog.
#[derive(Clone, Copy, Debug, PartialEq, Eq, Structural)]
pub enum DialogAction {
    Idle,
    ExportSvg,
    ImportSvg,
    SaveProject,
    OpenProject,
    Dismiss,
}

/// Which dialogs are shown.
#[derive(Clone, Copy, Debug, PartialEq, Eq, Structural)]
pub struct DialogFlags {
    pub export: bool,
    pub import: bool,
    pub save: bool,
    pub open: bool,
}

/// The dialogs shown after `action` is handled, and the file operation to
/// carry out (`Idle` for none): a file operation closes its own dialog,
/// `Dismiss` closes them all, `Idle` changes nothing.
pub open spec fn resolved(f: DialogFlags, action: DialogAction) -> (DialogFlags, DialogAction) {
    match action {
        DialogAction::Idle => (f, DialogAction::Idle),
        DialogAction::ExportSvg => (DialogFlags { export: false, ..f }, DialogAction::ExportSvg),
        DialogAction::ImportSvg => (DialogFlags { import: false, ..f }, DialogAction::ImportSvg),
        DialogAction::SaveProject => (DialogFlags { save: false, ..f }, DialogAction::SaveProject),
        DialogAction::OpenProject => (DialogFlags { open: false, ..f }, DialogAction::OpenProject),
        DialogAction::Dismiss => (
            DialogFlags { export: false, import: false, save: false, open: false },
            DialogAction::Idle,
        ),
    }
}

/// The modal dialogs.
pub struct Dialogs;

impl Dialogs {
    /// Handles the action a dialog reported (see `resolved`); the action is
    /// then consumed. Returns the file operation to carry out.
    pub fn resolve(flags: &mut DialogFlags, action: DialogAction) -> (task: DialogAction)
        ensures
            (*final(flags), task) == resolved(*old(flags), action),
    {
        match action {
            DialogAction::Idle => DialogAction::Idle,
            DialogAction::ExportSvg => {
                flags.export = false;
                DialogAction::ExportSvg
            },
            DialogAction::ImportSvg => {
                flags.import = false;
                DialogAction::ImportSvg
            },
            DialogAction::SaveProject => {
                flags.save = false;
                DialogAction::SaveProject
            },
            DialogAction::OpenProject => {
                flags.open = false;
                DialogAction::OpenProject
            },
            DialogAction::Dismiss => {
                flags.export = false;
                flags.import = false;
                flags.save = false;
                flags.open = false;
                DialogAction::Idle
            },
        }
    }
}

/// Handling an action never opens a dialog, never asks to dismiss, and a
/// file operation to carry out is the one that was asked for.
pub proof fn lemma_resolve_only_closes(f: DialogFlags, action: DialogAction)
    ensures
        resolved(f, action).0.export ==> f.export,
        resolved(f, action).0.import ==> f.import,
        resolved(f, action).0.save ==> f.save,
        resolved(f, action).0.open ==> f.open,
        resolved(f, action).1 != DialogAction::Dismiss,
        resolved(f, action).1 != DialogAction::Idle ==> resolved(f, action).1 == action,
{
}

/// The tool bar: the choice of tool.
pub struct Toolbar;

impl Toolbar {
    /// The tools offered, in order, with their labels.
    pub fn entries() -> (r: Vec<(crate::canvas::Tool, &'static str)>)
        ensures
            r@.len() == 2,
            r@[0].0 == crate::canvas::Tool::Select && r@[0].1@ == "Select"@,
            r@[1].0 == crate::canvas::Tool::Pan && r@[1].1@ == "Pan"@,
    {
        let mut r: Vec<(crate::canvas::Tool, &'static str)> = Vec::new();
        r.push((crate::canvas::Tool::Select, "Select"));
        r.push((crate::canvas::Tool::Pan, "Pan"));
        r
    }
}

/// The pen preview switch in the status bar.
pub struct PenPreview;

impl PenPreview {
    /// The note shown beside the switch: only while the preview is on.
    pub fn note(show: bool) -> (r: Option<&'static str>)
        ensures
            show ==> (r matches Some(s) && s@ == "(paths render at physical pen width)"@),
            !show ==> r is None,
    {
        if show {
            Some("(paths render at physical pen width)")
        } else {
            None
        }
    }
}

/// The keys pressed in one frame.
#[derive(Clone, Copy, Debug)]
pub struct Keys {
    /// Delete or backspace.
    pub delete: bool,
    pub left: bool,
    pub right: bool,
    pub up: bool,
    pub down: bool,
    /// Ctrl+D.
    pub duplicate: bool,
    pub shift: bool,
}

/// What the keys of one frame do to the selection: delete it, move it by
/// each offset in turn (in units of one world unit), duplicate it.
pub struct KeyPlan {
    pub delete: bool,
    pub nudges: Vec<(i32, i32)>,
    pub duplicate: bool,
}

/// The offsets of the arrow keys pressed, in the order left, right, up,
/// down; each `step` long (10 with shift, else 1).
pub open spec fn nudges_for(k: Keys) -> Seq<(i32, i32)> {
    let step: i32 = if k.shift { 10 } else { 1 };
    let back: i32 = if k.shift { -10i32 } else { -1i32 };
    let l: Seq<(i32, i32)> = if k.left { seq![(back, 0i32)] } else { Seq::empty() };
    let r: Seq<(i32, i32)> = if k.right { seq![(step, 0i32)] } else { Seq::empty() };
    let u: Seq<(i32, i32)> = if k.up { seq![(0i32, back)] } else { Seq::empty() };
    let d: Seq<(i32, i32)> = if k.down { seq![(0i32, step)] } else { Seq::empty() };
    l + r + u + d
}

/// The arrow keys move the selection by one step per key pressed, the step
/// being 10 with Shift and 1 without: Left by `(-step, 0)`, Right by
/// `(step, 0)`, Up by `(0, -step)`, Down by `(0, step)`, in that order.
/// Every offset moves along one axis by exactly one step, and the offsets of
/// Left and Up are those of Right and Down negated.
pub proof fn lemma_nudges_scale_with_shift(k: Keys)
    ensures
        ({
            let m: int = if k.shift { 10 } else { 1 };
            let n = nudges_for(k);
            let arrows: int = (if k.left { 1int } else { 0int }) + (if k.right { 1int } else { 0int })
                + (if k.up { 1int } else { 0int }) + (if k.down { 1int } else { 0int });
            &&& n.len() == arrows
            &&& forall|i: int|
                0 <= i < n.len() ==> {
                    ||| ((#[trigger] n[i]).0 == m || n[i].0 == -m) && n[i].1 == 0
                    ||| n[i].0 == 0 && (n[i].1 == m || n[i].1 == -m)
                }
            &&& k.left ==> n[0].0 == -m && n[0].1 == 0
            &&& k.right ==> n.contains(((m as i32), 0i32))
            &&& k.left ==> n.contains(((-m) as i32, 0i32))
            &&& k.down ==> n.last() == ((0i32, m as i32))
            &&& k.up ==> n.contains((0i32, (-m) as i32))
            &&& k.left && k.right ==> n[0].0 == -n[1].0 && n[0].1 == n[1].1
        }),
{
    let m: int = if k.shift { 10 } else { 1 };
    let n = nudges_for(k);
    let pos: i32 = if k.shift { 10 } else { 1 };
    let neg: i32 = if k.shift { -10i32 } else { -1i32 };
    let l: Seq<(i32, i32)> = if k.left { seq![(neg, 0i32)] } else { Seq::empty() };
    let r: Seq<(i32, i32)> = if k.right { seq![(pos, 0i32)] } else { Seq::empty() };
    let u: Seq<(i32, i32)> = if k.up { seq![(0i32, neg)] } else { Seq::empty() };
    let d: Seq<(i32, i32)> = if k.down { seq![(0i32, pos)] } else { Seq::empty() };
    assert(n == l + r + u + d);
    if k.right {
        assert(n[l.len() as int] == (pos, 0i32));
    }
    if k.left {
        assert(n[0] == (neg, 0i32));
    }
    if k.up {
        assert(n[(l.len() + r.len()) as int] == (0i32, neg));
    }
}

/// The keyboard shortcuts.
pub struct Shortcuts;

impl Shortcuts {
    /// The plan for one frame: nothing without a selection; otherwise delete
    /// on Delete/Backspace, a nudge per arrow key (see `nudges_for`), and a
    /// duplicate on Ctrl+D. All of them apply to the selection as it was at
    /// the start of the frame.
    pub fn plan(keys: Keys, has_selection: bool) -> (p: KeyPlan)
        ensures
            p.delete == (has_selection && keys.delete),
            p.duplicate == (has_selection && keys.duplicate),
            has_selection ==> p.nudges@ == nudges_for(keys),
            !has_selection ==> p.nudges@.len() == 0,
    {
        let mut nudges: Vec<(i32, i32)> = Vec::new();
        if has_selection {
            let step: i32 = if keys.shift { 10 } else { 1 };
            if keys.left {
                nudges.push((-step, 0));
            }
            if keys.right {
                nudges.push((step, 0));
            }
            if keys.up {
                nudges.push((0, -step));
            }
            if keys.down {
                nudges.push((0, step));
            }
            assert(nudges@ =~= nudges_for(keys));
        }
        KeyPlan {
            delete: has_selection && keys.delete,
            nudges,
            duplicate: has_selection && keys.duplicate,
        }
    }
}

/// A random byte.
///
/// Calls `rand::random::<u8>`. Nothing is stated of the value: it comes from
/// a random source.
#[verifier::external_body]
fn random_byte() -> (b: u8) {
    rand::random::<u8>()
}

} // verus!
