//! Selections of paths (by identifier) and the edits applied to them.
use vstd::prelude::*;

use crate::model::{copy_geometry, new_id, paths_view, same_settings, Document, LayerView, PathView, PlotPath};
use crate::path::{with_end, PathEl, Point, set_element_end};
use crate::text::{chars_of, push_str, string_from_chars};

verus! {

broadcast use vstd::string::group_string_axioms;

/// Whether `id` occurs in `sel`.
pub fn contains_id(sel: &Vec<u128>, id: u128) -> (b: bool)
    ensures
        b == sel@.contains(id),
{
    let mut i: usize = 0;
    while i < sel.len()
        invariant
            i <= sel@.len(),
            forall|j: int| 0 <= j < i ==> sel@[j] != id,
        decreases sel@.len() - i,
    {
        if sel[i] == id {
            assert(sel@[i as int] == id);
            return true;
        }
        i = i + 1;
    }
    false
}

/// The index of the first `x` in `s` (`s.len()` when there is none).
pub open spec fn first_index(s: Seq<u128>, x: u128) -> int
    decreases s.len(),
{
    if s.len() == 0 {
        0
    } else if s[0] == x {
        0
    } else {
        1 + first_index(s.drop_first(), x)
    }
}

proof fn lemma_first_index(s: Seq<u128>, x: u128, i: int)
    requires
        0 <= i <= s.len(),
        forall|j: int| 0 <= j < i ==> s[j] != x,
        i < s.len() ==> s[i] == x,
    ensures
        first_index(s, x) == i,
    decreases i,
{
    if i > 0 {
        lemma_first_index(s.drop_first(), x, i - 1);
    }
}

/// A selection after a shift-click on `id`: an occurrence of `id` is removed
/// (the first one), otherwise `id` is appended.
pub open spec fn toggled(s: Seq<u128>, id: u128) -> Seq<u128> {
    if s.contains(id) {
        s.remove(first_index(s, id))
    } else {
        s.push(id)
    }
}

/// Shift-click on a path: deselects it if selected, selects it otherwise.
pub fn toggle_selection(sel: &mut Vec<u128>, id: u128)
    ensures
        final(sel)@ == toggled(old(sel)@, id),
{
    let mut i: usize = 0;
    while i < sel.len()
        invariant
            i <= sel@.len(),
            sel@ == old(sel)@,
            forall|j: int| 0 <= j < i ==> sel@[j] != id,
        decreases sel@.len() - i,
    {
        if sel[i] == id {
            proof {
                lemma_first_index(sel@, id, i as int);
            }
            sel.remove(i);
            return;
        }
        i = i + 1;
    }
    sel.push(id);
}

/// Plain click on a path: it becomes the only selected one.
pub fn select_only(sel: &mut Vec<u128>, id: u128)
    ensures
        final(sel)@ == seq![id],
{
    sel.clear();
    sel.push(id);
}

/// `base` extended by each id of `hits` that it does not yet hold, in order.
pub open spec fn merged(base: Seq<u128>, hits: Seq<u128>) -> Seq<u128>
    decreases hits.len(),
{
    if hits.len() == 0 {
        base
    } else {
        let m = merged(base, hits.drop_last());
        if m.contains(hits.last()) {
            m
        } else {
            m.push(hits.last())
        }
    }
}

/// The selection after a rectangle select that hit the paths `hits` (in
/// document order): with `extend` (shift held) the old selection is kept and
/// the hits are added; otherwise the hits alone; no id is added twice.
pub fn merge_rect_selection(current: &Vec<u128>, hits: &Vec<u128>, extend: bool) -> (r: Vec<u128>)
    ensures
        r@ == merged(if extend { current@ } else { Seq::empty() }, hits@),
{
    let mut r: Vec<u128> = Vec::new();
    if extend {
        let mut i: usize = 0;
        while i < current.len()
            invariant
                i <= current@.len(),
                r@ == current@.take(i as int),
            decreases current@.len() - i,
        {
            r.push(current[i]);
            assert(current@.take(i + 1) == current@.take(i as int).push(current@[i as int]));
            i = i + 1;
        }
        assert(current@.take(i as int) == current@);
    }
    let ghost base = r@;
    let mut k: usize = 0;
    while k < hits.len()
        invariant
            k <= hits@.len(),
            r@ == merged(base, hits@.take(k as int)),
        decreases hits@.len() - k,
    {
        assert(hits@.take(k + 1).drop_last() == hits@.take(k as int));
        if !contains_id(&r, hits[k]) {
            r.push(hits[k]);
        }
        k = k + 1;
    }
    assert(hits@.take(k as int) == hits@);
    r
}

/// The paths of `s` whose id is not in `sel`, in order.
pub open spec fn unselected(s: Seq<PathView>, sel: Seq<u128>) -> Seq<PathView>
    decreases s.len(),
{
    if s.len() == 0 {
        s
    } else if sel.contains(s.last().id) {
        unselected(s.drop_last(), sel)
    } else {
        unselected(s.drop_last(), sel).push(s.last())
    }
}

/// The paths of `s` whose id is in `sel`, in order.
pub open spec fn selected(s: Seq<PathView>, sel: Seq<u128>) -> Seq<PathView>
    decreases s.len(),
{
    if s.len() == 0 {
        s
    } else if sel.contains(s.last().id) {
        selected(s.drop_last(), sel).push(s.last())
    } else {
        selected(s.drop_last(), sel)
    }
}

/// A layer with its paths replaced.
pub open spec fn with_paths(l: LayerView, ps: Seq<PathView>) -> LayerView {
    LayerView { paths: ps, ..l }
}

/// The paths of `ps` that `sel` does not name.
fn unselected_paths(ps: &Vec<PlotPath>, sel: &Vec<u128>) -> (r: Vec<PlotPath>)
    ensures
        paths_view(r@) == unselected(paths_view(ps@), sel@),
{
    let mut r: Vec<PlotPath> = Vec::new();
    let mut i: usize = 0;
    while i < ps.len()
        invariant
            i <= ps@.len(),
            paths_view(r@) == unselected(paths_view(ps@.take(i as int)), sel@),
        decreases ps@.len() - i,
    {
        let ghost before = r@;
        let ghost t = paths_view(ps@.take(i + 1));
        assert(t.drop_last() =~= paths_view(ps@.take(i as int)));
        assert(t.last() == ps@[i as int]@);
        if !contains_id(sel, ps[i].id) {
            r.push(ps[i].copy());
            assert(paths_view(r@) =~= paths_view(before).push(ps@[i as int]@));
        }
        i = i + 1;
    }
    assert(ps@.take(i as int) == ps@);
    r
}

/// Deletes every path that `sel` names, from every layer.
pub fn delete_selected(doc: &mut Document, sel: &Vec<u128>)
    ensures
        final(doc)@.layers.len() == old(doc)@.layers.len(),
        forall|i: int|
            0 <= i < old(doc)@.layers.len() ==> #[trigger] final(doc)@.layers[i] == with_paths(
                old(doc)@.layers[i],
                unselected(old(doc)@.layers[i].paths, sel@),
            ),
        same_settings(final(doc)@, old(doc)@),
{
    let n = doc.layers.len();
    let mut i: usize = 0;
    while i < n
        invariant
            n == doc@.layers.len() == old(doc)@.layers.len(),
            i <= n,
            same_settings(doc@, old(doc)@),
            forall|j: int|
                0 <= j < i ==> #[trigger] doc@.layers[j] == with_paths(
                    old(doc)@.layers[j],
                    unselected(old(doc)@.layers[j].paths, sel@),
                ),
            forall|j: int| i <= j < n ==> #[trigger] doc@.layers[j] == old(doc)@.layers[j],
        decreases n - i,
    {
        let ghost before = doc@.layers;
        let kept = unselected_paths(&doc.layers[i].paths, sel);
        doc.layers[i].paths = kept;
        assert(doc@.layers =~= before.update(
            i as int,
            with_paths(before[i as int], unselected(before[i as int].paths, sel@)),
        ));
        i = i + 1;
    }
}

/// Shift-clicking the same path twice gives back the same set of selected
/// paths, and toggling never makes an id occur twice.
pub proof fn lemma_toggle_twice(s: Seq<u128>, id: u128)
    requires
        s.no_duplicates(),
    ensures
        toggled(s, id).no_duplicates(),
        toggled(toggled(s, id), id).no_duplicates(),
        toggled(toggled(s, id), id).to_set() == s.to_set(),
        toggled(s, id).contains(id) != s.contains(id),
{
    if s.contains(id) {
        let k = choose|k: int| 0 <= k < s.len() && s[k] == id;
        lemma_first_index_found(s, id, k);
        let f = first_index(s, id);
        let t = s.remove(f);
        assert(!t.contains(id)) by {
            if t.contains(id) {
                let j = choose|j: int| 0 <= j < t.len() && t[j] == id;
                if j < f {
                    assert(s[j] == id);
                } else {
                    assert(s[j + 1] == id);
                }
            }
        }
        assert(toggled(t, id) == t.push(id));
        assert(t.push(id).to_set() =~= s.to_set()) by {
            assert forall|x: u128| t.push(id).to_set().contains(x) implies s.to_set().contains(x) by {
                let j = choose|j: int| 0 <= j < t.push(id).len() && t.push(id)[j] == x;
                if j < t.len() {
                    if j < f {
                        assert(s[j] == x);
                    } else {
                        assert(s[j + 1] == x);
                    }
                } else {
                    assert(s[f] == x);
                }
            }
            assert forall|x: u128| s.to_set().contains(x) implies t.push(id).to_set().contains(x) by {
                let j = choose|j: int| 0 <= j < s.len() && s[j] == x;
                if j < f {
                    assert(t.push(id)[j] == x);
                } else if j > f {
                    assert(t.push(id)[j - 1] == x);
                } else {
                    assert(t.push(id)[t.len() as int] == x);
                }
            }
        }
        assert(t.no_duplicates());
        assert(t.push(id).no_duplicates()) by {
            assert forall|a: int, b: int| 0 <= a < b < t.push(id).len() implies t.push(id)[a] != t.push(id)[b] by {
                if b == t.len() {
                    assert(t[a] != id);
                }
            }
        }
    } else {
        let t = s.push(id);
        assert(t.contains(id)) by {
            assert(t[s.len() as int] == id);
        }
        lemma_first_index(t, id, s.len() as int);
        assert(t.remove(s.len() as int) =~= s);
        assert(t.no_duplicates()) by {
            assert forall|a: int, b: int| 0 <= a < b < t.len() implies t[a] != t[b] by {
                if b == s.len() {
                    assert(s.contains(s[a]));
                }
            }
        }
    }
}

proof fn lemma_first_index_found(s: Seq<u128>, x: u128, k: int)
    requires
        0 <= k < s.len(),
        s[k] == x,
    ensures
        0 <= first_index(s, x) <= k,
        s[first_index(s, x)] == x,
        forall|j: int| 0 <= j < first_index(s, x) ==> s[j] != x,
    decreases k,
{
    if s[0] != x {
        lemma_first_index_found(s.drop_first(), x, k - 1);
        assert forall|j: int| 0 <= j < first_index(s, x) implies s[j] != x by {
            if j > 0 {
                assert(s.drop_first()[j - 1] == s[j]);
            }
        }
    }
}

/// A rectangle selection holds exactly the ids of the old selection (when
/// extended) and of the hits, each once.
pub proof fn lemma_merged_members(base: Seq<u128>, hits: Seq<u128>)
    requires
        base.no_duplicates(),
    ensures
        merged(base, hits).no_duplicates(),
        forall|x: u128| #[trigger] merged(base, hits).contains(x) <==> (base.contains(x) || hits.contains(x)),
    decreases hits.len(),
{
    if hits.len() > 0 {
        lemma_merged_members(base, hits.drop_last());
        let m = merged(base, hits.drop_last());
        let h = hits.last();
        assert forall|x: u128| #[trigger] merged(base, hits).contains(x) <==> (base.contains(x) || hits.contains(x)) by {
            if hits.contains(x) && !hits.drop_last().contains(x) {
                let j = choose|j: int| 0 <= j < hits.len() && hits[j] == x;
                if j < hits.len() - 1 {
                    assert(hits.drop_last()[j] == x);
                }
                assert(x == h);
                if !m.contains(h) {
                    assert(m.push(h)[m.len() as int] == h);
                }
            }
            if hits.drop_last().contains(x) {
                let j = choose|j: int| 0 <= j < hits.drop_last().len() && hits.drop_last()[j] == x;
                assert(hits[j] == x);
            }
            if !m.contains(h) && merged(base, hits).contains(x) {
                let j = choose|j: int| 0 <= j < m.push(h).len() && m.push(h)[j] == x;
                if j < m.len() {
                    assert(m[j] == x);
                } else {
                    assert(hits[hits.len() - 1] == x);
                }
            }
            if !m.contains(h) && m.contains(x) {
                let j = choose|j: int| 0 <= j < m.len() && m[j] == x;
                assert(m.push(h)[j] == x);
            }
        }
        if !m.contains(h) {
            assert(m.push(h).no_duplicates()) by {
                assert forall|a: int, b: int| 0 <= a < b < m.push(h).len() implies m.push(h)[a] != m.push(h)[b] by {
                    if b == m.len() {
                        assert(m.contains(m[a]));
                    }
                }
            }
        }
    }
}

/// After deleting the selection, no remaining path is selected, and every
/// path is either kept or deleted: the kept and the deleted paths together
/// are as many as the paths before.
pub proof fn lemma_delete_partition(s: Seq<PathView>, sel: Seq<u128>)
    ensures
        forall|k: int| 0 <= k < unselected(s, sel).len() ==> !sel.contains(#[trigger] unselected(s, sel)[k].id),
        forall|k: int| 0 <= k < selected(s, sel).len() ==> sel.contains(#[trigger] selected(s, sel)[k].id),
        unselected(s, sel).len() + selected(s, sel).len() == s.len(),
    decreases s.len(),
{
    if s.len() > 0 {
        lemma_delete_partition(s.drop_last(), sel);
        let u = unselected(s.drop_last(), sel);
        let d = selected(s.drop_last(), sel);
        if sel.contains(s.last().id) {
            assert forall|k: int| 0 <= k < selected(s, sel).len() implies sel.contains(#[trigger] selected(s, sel)[k].id) by {
                if k < d.len() {
                    assert(selected(s, sel)[k] == d[k]);
                }
            }
        } else {
            assert forall|k: int| 0 <= k < unselected(s, sel).len() implies !sel.contains(#[trigger] unselected(s, sel)[k].id) by {
                if k < u.len() {
                    assert(unselected(s, sel)[k] == u[k]);
                }
            }
        }
    }
}

/// A copy of path `p` made by duplication: same geometry and flags, name with
/// `" (copy)"` appended (the identifier is fresh).
pub open spec fn is_duplicate_of(c: PathView, p: PathView) -> bool {
    &&& c.name == p.name + " (copy)"@
    &&& c.geometry == p.geometry
    &&& c.closed == p.closed
    &&& c.visible == p.visible
    &&& c.filled == p.filled
}

/// `d` holds a duplicate of each path of `s` that `sel` names, in order.
pub open spec fn duplicates_of(d: Seq<PathView>, s: Seq<PathView>, sel: Seq<u128>) -> bool {
    &&& d.len() == selected(s, sel).len()
    &&& forall|k: int| 0 <= k < d.len() ==> #[trigger] is_duplicate_of(d[k], selected(s, sel)[k])
}

/// The duplicate of a path: fresh id, `" (copy)"` appended to the name.
fn duplicate_path(p: &PlotPath) -> (c: PlotPath)
    ensures
        is_duplicate_of(c@, p@),
{
    proof {
        reveal_strlit(" (copy)");
    }
    let mut name = chars_of(p.name.as_str());
    push_str(&mut name, " (copy)");
    PlotPath {
        id: new_id(),
        name: string_from_chars(&name),
        geometry: copy_geometry(&p.geometry),
        closed: p.closed,
        visible: p.visible,
        filled: p.filled,
    }
}

/// Duplicates the paths that `sel` names: each layer gets, after its own
/// paths, a duplicate of each of its selected paths, in order.
pub fn duplicate_selection(doc: &mut Document, sel: &Vec<u128>)
    ensures
        final(doc)@.layers.len() == old(doc)@.layers.len(),
        forall|i: int|
            #![trigger final(doc)@.layers[i]]
            0 <= i < old(doc)@.layers.len() ==> {
                let ol = old(doc)@.layers[i];
                let nl = final(doc)@.layers[i];
                &&& nl == with_paths(ol, nl.paths)
                &&& nl.paths.len() >= ol.paths.len()
                &&& nl.paths.take(ol.paths.len() as int) == ol.paths
                &&& duplicates_of(nl.paths.skip(ol.paths.len() as int), ol.paths, sel@)
            },
        same_settings(final(doc)@, old(doc)@),
{
    let n = doc.layers.len();
    let mut i: usize = 0;
    while i < n
        invariant
            n == doc@.layers.len() == old(doc)@.layers.len(),
            i <= n,
            same_settings(doc@, old(doc)@),
            forall|j: int|
                #![trigger doc@.layers[j]]
                0 <= j < i ==> {
                    let ol = old(doc)@.layers[j];
                    let nl = doc@.layers[j];
                    &&& nl == with_paths(ol, nl.paths)
                    &&& nl.paths.len() >= ol.paths.len()
                    &&& nl.paths.take(ol.paths.len() as int) == ol.paths
                    &&& duplicates_of(nl.paths.skip(ol.paths.len() as int), ol.paths, sel@)
                },
            forall|j: int| i <= j < n ==> #[trigger] doc@.layers[j] == old(doc)@.layers[j],
        decreases n - i,
    {
        let m = doc.layers[i].paths.len();
        let ghost ops = paths_view(doc.layers@[i as int].paths@);
        let mut new_paths: Vec<PlotPath> = Vec::new();
        let mut k: usize = 0;
        while k < m
            invariant
                m == doc.layers@[i as int].paths@.len(),
                i < n == doc@.layers.len(),
                ops == paths_view(doc.layers@[i as int].paths@),
                k <= m,
                duplicates_of(paths_view(new_paths@), ops.take(k as int), sel@),
            decreases m - k,
        {
            let ghost before = paths_view(new_paths@);
            assert(ops.take(k + 1).drop_last() =~= ops.take(k as int));
            assert(ops.take(k + 1).last() == ops[k as int]);
            if contains_id(sel, doc.layers[i].paths[k].id) {
                let c = duplicate_path(&doc.layers[i].paths[k]);
                new_paths.push(c);
                assert(paths_view(new_paths@) =~= before.push(c@));
            }
            k = k + 1;
        }
        assert(ops.take(m as int) == ops);
        let ghost added = paths_view(new_paths@);
        let ghost before = doc@.layers;
        doc.layers[i].paths.append(&mut new_paths);
        assert(paths_view(doc.layers@[i as int].paths@) =~= ops + added);
        assert(doc@.layers =~= before.update(i as int, with_paths(before[i as int], ops + added)));
        assert((ops + added).take(ops.len() as int) =~= ops);
        assert((ops + added).skip(ops.len() as int) =~= added);
        i = i + 1;
    }
}

/// A path with its fill flag set.
pub open spec fn with_fill(p: PathView, filled: bool) -> PathView {
    PathView { filled, ..p }
}

/// A path after setting the fill flag of the selected paths.
pub open spec fn filled_if_selected(p: PathView, sel: Seq<u128>, filled: bool) -> PathView {
    if sel.contains(p.id) {
        with_fill(p, filled)
    } else {
        p
    }
}

/// Sets the fill flag of the paths of `ps` that `sel` names.
fn fill_paths(ps: &mut Vec<PlotPath>, sel: &Vec<u128>, filled: bool)
    ensures
        paths_view(final(ps)@) == paths_view(old(ps)@).map_values(
            |p: PathView| filled_if_selected(p, sel@, filled),
        ),
{
    let ghost orig = paths_view(ps@);
    let m = ps.len();
    let mut k: usize = 0;
    while k < m
        invariant
            m == ps@.len() == orig.len(),
            k <= m,
            forall|q: int| 0 <= q < k ==> #[trigger] ps@[q]@ == filled_if_selected(orig[q], sel@, filled),
            forall|q: int| k <= q < m ==> #[trigger] ps@[q]@ == orig[q],
        decreases m - k,
    {
        assert(ps@[k as int]@ == orig[k as int]);
        if contains_id(sel, ps[k].id) {
            ps[k].filled = filled;
            assert(ps@[k as int]@ == with_fill(orig[k as int], filled));
        }
        assert(ps@[k as int]@ == filled_if_selected(orig[k as int], sel@, filled));
        k = k + 1;
    }
    assert(paths_view(ps@) =~= orig.map_values(|p: PathView| filled_if_selected(p, sel@, filled)));
}

/// Sets the fill flag of every path that `sel` names.
pub fn set_fill_for_selection(doc: &mut Document, sel: &Vec<u128>, filled: bool)
    ensures
        final(doc)@.layers == old(doc)@.layers.map_values(
            |l: LayerView|
                with_paths(
                    l,
                    l.paths.map_values(|p: PathView| filled_if_selected(p, sel@, filled)),
                ),
        ),
        same_settings(final(doc)@, old(doc)@),
{
    let ghost orig = doc@.layers;
    let n = doc.layers.len();
    let mut i: usize = 0;
    while i < n
        invariant
            n == doc@.layers.len() == orig.len(),
            i <= n,
            same_settings(doc@, old(doc)@),
            orig == old(doc)@.layers,
            forall|j: int|
                0 <= j < i ==> #[trigger] doc@.layers[j] == with_paths(
                    orig[j],
                    orig[j].paths.map_values(|p: PathView| filled_if_selected(p, sel@, filled)),
                ),
            forall|j: int| i <= j < n ==> #[trigger] doc@.layers[j] == orig[j],
        decreases n - i,
    {
        let ghost before = doc@.layers;
        fill_paths(&mut doc.layers[i].paths, sel, filled);
        assert(doc@.layers =~= before.update(
            i as int,
            with_paths(
                before[i as int],
                before[i as int].paths.map_values(
                    |p: PathView| filled_if_selected(p, sel@, filled),
                ),
            ),
        ));
        i = i + 1;
    }
    assert(doc@.layers =~= orig.map_values(
        |l: LayerView|
            with_paths(l, l.paths.map_values(|p: PathView| filled_if_selected(p, sel@, filled))),
    ));
}

/// Whether every path of `ps` that `sel` names is filled.
pub open spec fn paths_all_filled(ps: Seq<PathView>, sel: Seq<u128>) -> bool {
    forall|k: int| 0 <= k < ps.len() && sel.contains(#[trigger] ps[k].id) ==> ps[k].filled
}

/// Whether some path of `ps` that `sel` names is filled.
pub open spec fn paths_any_filled(ps: Seq<PathView>, sel: Seq<u128>) -> bool {
    exists|k: int| 0 <= k < ps.len() && sel.contains(#[trigger] ps[k].id) && ps[k].filled
}

/// Whether every path that `sel` names is filled (true when none is named).
pub open spec fn all_selected_filled(layers: Seq<LayerView>, sel: Seq<u128>) -> bool {
    forall|i: int| 0 <= i < layers.len() ==> paths_all_filled(#[trigger] layers[i].paths, sel)
}

/// Whether some path that `sel` names is filled.
pub open spec fn any_selected_filled(layers: Seq<LayerView>, sel: Seq<u128>) -> bool {
    exists|i: int| 0 <= i < layers.len() && paths_any_filled(#[trigger] layers[i].paths, sel)
}

fn paths_fill_state(ps: &Vec<PlotPath>, sel: &Vec<u128>) -> (r: (bool, bool))
    ensures
        r.0 == paths_all_filled(paths_view(ps@), sel@),
        r.1 == paths_any_filled(paths_view(ps@), sel@),
{
    let ghost v = paths_view(ps@);
    let mut all = true;
    let mut any = false;
    let m = ps.len();
    let mut k: usize = 0;
    while k < m
        invariant
            m == ps@.len() == v.len(),
            v == paths_view(ps@),
            k <= m,
            all == paths_all_filled(v.take(k as int), sel@),
            any == paths_any_filled(v.take(k as int), sel@),
        decreases m - k,
    {
        let ghost t = v.take(k + 1);
        assert(t[k as int] == v[k as int]);
        assert forall|q: int| 0 <= q < k implies #[trigger] t[q] == v.take(k as int)[q] by {}
        if contains_id(sel, ps[k].id) {
            if ps[k].filled {
                any = true;
                assert(sel@.contains(t[k as int].id) && t[k as int].filled);
            } else {
                all = false;
                assert(sel@.contains(t[k as int].id) && !t[k as int].filled);
            }
        }
        assert(all == paths_all_filled(t, sel@)) by {
            if paths_all_filled(v.take(k as int), sel@) && !paths_all_filled(t, sel@) {
                let q = choose|q: int| 0 <= q < t.len() && sel@.contains(#[trigger] t[q].id) && !t[q].filled;
                if q < k {
                    assert(v.take(k as int)[q] == t[q]);
                }
            }
        }
        assert(any == paths_any_filled(t, sel@)) by {
            if paths_any_filled(t, sel@) && !paths_any_filled(v.take(k as int), sel@) {
                let q = choose|q: int| 0 <= q < t.len() && sel@.contains(#[trigger] t[q].id) && t[q].filled;
                if q < k {
                    assert(v.take(k as int)[q] == t[q]);
                }
            }
            if paths_any_filled(v.take(k as int), sel@) {
                let q = choose|q: int| 0 <= q < k && sel@.contains(#[trigger] v.take(k as int)[q].id) && v.take(k as int)[q].filled;
                assert(t[q] == v.take(k as int)[q]);
            }
        }
        k = k + 1;
    }
    assert(v.take(m as int) == v);
    (all, any)
}

/// The fill state of the selection: (all selected paths filled, some selected path filled).
pub fn selection_fill_state(doc: &Document, sel: &Vec<u128>) -> (r: (bool, bool))
    ensures
        r.0 == all_selected_filled(doc@.layers, sel@),
        r.1 == any_selected_filled(doc@.layers, sel@),
{
    let mut all = true;
    let mut any = false;
    let n = doc.layers.len();
    let mut i: usize = 0;
    while i < n
        invariant
            n == doc@.layers.len(),
            i <= n,
            all == (forall|a: int| 0 <= a < i ==> paths_all_filled(#[trigger] doc@.layers[a].paths, sel@)),
            any == (exists|a: int| 0 <= a < i && paths_any_filled(#[trigger] doc@.layers[a].paths, sel@)),
        decreases n - i,
    {
        let (a1, a2) = paths_fill_state(&doc.layers[i].paths, sel);
        assert(doc@.layers[i as int].paths == paths_view(doc.layers@[i as int].paths@));
        all = all && a1;
        any = any || a2;
        i = i + 1;
    }
    (all, any)
}

/// Whether the path at `(li, pi)` is the first one, in layer order and then
/// path order, that carries `id`.
pub open spec fn is_first_with_id(layers: Seq<LayerView>, li: int, pi: int, id: u128) -> bool {
    &&& 0 <= li < layers.len()
    &&& 0 <= pi < layers[li].paths.len()
    &&& layers[li].paths[pi].id == id
    &&& forall|a: int, q: int|
        ((0 <= a < li && 0 <= q < layers[a].paths.len()) || (a == li && 0 <= q < pi))
            ==> #[trigger] layers[a].paths[q].id != id
}

/// Whether some path carries `id`.
pub open spec fn has_path_with_id(layers: Seq<LayerView>, id: u128) -> bool {
    exists|a: int, q: int|
        0 <= a < layers.len() && 0 <= q < layers[a].paths.len() && #[trigger] layers[a].paths[q].id
            == id
}

/// Where the first path carrying `id` stands: (layer index, path index).
pub fn find_path_location(doc: &Document, id: u128) -> (r: Option<(usize, usize)>)
    ensures
        r is None <==> !has_path_with_id(doc@.layers, id),
        r matches Some(loc) ==> is_first_with_id(doc@.layers, loc.0 as int, loc.1 as int, id),
{
    let n = doc.layers.len();
    let mut i: usize = 0;
    while i < n
        invariant
            n == doc@.layers.len(),
            i <= n,
            forall|a: int, q: int|
                0 <= a < i && 0 <= q < doc@.layers[a].paths.len() ==> #[trigger] doc@.layers[a].paths[q].id
                    != id,
        decreases n - i,
    {
        let m = doc.layers[i].paths.len();
        let mut k: usize = 0;
        while k < m
            invariant
                n == doc@.layers.len(),
                i < n,
                m == doc@.layers[i as int].paths.len(),
                k <= m,
                forall|a: int, q: int|
                    ((0 <= a < i && 0 <= q < doc@.layers[a].paths.len()) || (a == i && 0 <= q < k))
                        ==> #[trigger] doc@.layers[a].paths[q].id != id,
            decreases m - k,
        {
            if doc.layers[i].paths[k].id == id {
                assert(doc@.layers[i as int].paths[k as int].id == id);
                return Some((i, k));
            }
            k = k + 1;
        }
        i = i + 1;
    }
    None
}

/// Every place (layer index, path index) of a path that `ids` names, in
/// layer order and then path order.
pub fn locations_of(doc: &Document, ids: &Vec<u128>) -> (r: Vec<(usize, usize)>)
    ensures
        forall|j: int|
            0 <= j < r@.len() ==> {
                let (a, q) = #[trigger] r@[j];
                &&& a < doc@.layers.len()
                &&& q < doc@.layers[a as int].paths.len()
                &&& ids@.contains(doc@.layers[a as int].paths[q as int].id)
            },
        forall|a: int, q: int|
            0 <= a < doc@.layers.len() && 0 <= q < doc@.layers[a].paths.len() && ids@.contains(
                #[trigger] doc@.layers[a].paths[q].id,
            ) ==> r@.contains((a as usize, q as usize)),
        forall|j: int, k: int|
            0 <= j < k < r@.len() ==> (r@[j].0 < r@[k].0 || (r@[j].0 == r@[k].0 && r@[j].1
                < r@[k].1)),
{
    let mut r: Vec<(usize, usize)> = Vec::new();
    let n = doc.layers.len();
    let mut i: usize = 0;
    while i < n
        invariant
            n == doc@.layers.len(),
            i <= n,
            forall|j: int|
                0 <= j < r@.len() ==> {
                    let (a, q) = #[trigger] r@[j];
                    &&& a < i
                    &&& q < doc@.layers[a as int].paths.len()
                    &&& ids@.contains(doc@.layers[a as int].paths[q as int].id)
                },
            forall|a: int, q: int|
                0 <= a < i && 0 <= q < doc@.layers[a].paths.len() && ids@.contains(
                    #[trigger] doc@.layers[a].paths[q].id,
                ) ==> r@.contains((a as usize, q as usize)),
            forall|j: int, k: int|
                0 <= j < k < r@.len() ==> (r@[j].0 < r@[k].0 || (r@[j].0 == r@[k].0 && r@[j].1
                    < r@[k].1)),
        decreases n - i,
    {
        let m = doc.layers[i].paths.len();
        let mut k: usize = 0;
        while k < m
            invariant
                n == doc@.layers.len(),
                i < n,
                m == doc@.layers[i as int].paths.len(),
                k <= m,
                forall|j: int|
                    0 <= j < r@.len() ==> {
                        let (a, q) = #[trigger] r@[j];
                        &&& (a < i || (a == i && q < k))
                        &&& q < doc@.layers[a as int].paths.len()
                        &&& ids@.contains(doc@.layers[a as int].paths[q as int].id)
                    },
                forall|a: int, q: int|
                    ((0 <= a < i && 0 <= q < doc@.layers[a].paths.len()) || (a == i && 0 <= q < k))
                        && ids@.contains(#[trigger] doc@.layers[a].paths[q].id) ==> r@.contains(
                        (a as usize, q as usize),
                    ),
                forall|j: int, k2: int|
                    0 <= j < k2 < r@.len() ==> (r@[j].0 < r@[k2].0 || (r@[j].0 == r@[k2].0
                        && r@[j].1 < r@[k2].1)),
            decreases m - k,
        {
            if contains_id(ids, doc.layers[i].paths[k].id) {
                let ghost before = r@;
                r.push((i, k));
                assert forall|a: int, q: int|
                    ((0 <= a < i && 0 <= q < doc@.layers[a].paths.len()) || (a == i && 0 <= q
                        < k + 1)) && ids@.contains(
                        #[trigger] doc@.layers[a].paths[q].id,
                    ) implies r@.contains((a as usize, q as usize)) by {
                    if a == i && q == k {
                        assert(r@[r@.len() - 1] == (a as usize, q as usize));
                    } else {
                        let w = choose|w: int| 0 <= w < before.len() && before[w] == (
                        a as usize,
                        q as usize,
                    );
                        assert(r@[w] == before[w]);
                    }
                }
            }
            k = k + 1;
        }
        i = i + 1;
    }
    r
}

/// Moves the end point of element `element_idx` of the first path carrying
/// `id` to `p` (see `with_end`); nothing changes when no path carries `id` or
/// the index is past the end of its elements.
pub fn edit_point(doc: &mut Document, id: u128, element_idx: usize, p: Point)
    ensures
        same_settings(final(doc)@, old(doc)@),
        final(doc)@.layers.len() == old(doc)@.layers.len(),
        !has_path_with_id(old(doc)@.layers, id) ==> final(doc)@ == old(doc)@,
        forall|li: int, pi: int|
            is_first_with_id(old(doc)@.layers, li, pi, id) ==> {
                let op = old(doc)@.layers[li].paths[pi];
                let np = if element_idx < op.geometry.len() {
                    PathView {
                        geometry: op.geometry.update(
                            element_idx as int,
                            with_end(op.geometry[element_idx as int], p),
                        ),
                        ..op
                    }
                } else {
                    op
                };
                final(doc)@.layers == old(doc)@.layers.update(
                    li,
                    with_paths(old(doc)@.layers[li], old(doc)@.layers[li].paths.update(pi, np)),
                )
            },
{
    match find_path_location(doc, id) {
        None => {},
        Some((li, pi)) => {
            let ghost ol = doc@.layers;
            set_element_end(&mut doc.layers[li].paths[pi].geometry, element_idx, p);
            proof {
                assert forall|a: int, b: int| is_first_with_id(ol, a, b, id) implies a == li && b
                    == pi by {
                    if a < li {
                        assert(ol[a].paths[b].id != id);
                    } else if a > li {
                        assert(ol[li as int].paths[pi as int].id != id);
                    } else if b < pi {
                        assert(ol[a].paths[b].id != id);
                    } else if b > pi {
                        assert(ol[li as int].paths[pi as int].id != id);
                    }
                }
                let op = ol[li as int].paths[pi as int];
                let np = if element_idx < op.geometry.len() {
                    PathView {
                        geometry: op.geometry.update(
                            element_idx as int,
                            with_end(op.geometry[element_idx as int], p),
                        ),
                        ..op
                    }
                } else {
                    op
                };
                assert(doc@.layers[li as int].paths =~= ol[li as int].paths.update(pi as int, np));
                assert(doc@.layers =~= ol.update(
                    li as int,
                    with_paths(ol[li as int], ol[li as int].paths.update(pi as int, np)),
                ));
            }
        },
    }
}

} // verus!
