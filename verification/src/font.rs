//! Fonts for text paths, and the assembly of glyph outlines into paths.
//!
//! A font parser reports the outline of a glyph as a series of drawing
//! events (move, line, quadratic, cubic, close) with points already placed
//! on the page; `OutlineAssembler` turns those events into path elements.
use vstd::prelude::*;

use crate::path::{PathEl, Point};

verus! {

/// A font that text can be drawn with: its display name and the bytes of
/// its TrueType file.
pub struct FontFace {
    pub name: &'static str,
    pub data: &'static [u8],
}

impl FontFace {
    /// The face text is drawn with: `fonts[index]`, or the first font for an
    /// index out of range.
    pub fn pick(fonts: &[FontFace], index: usize) -> (f: &FontFace)
        requires
            fonts@.len() > 0,
        ensures
            index < fonts@.len() ==> *f == fonts@[index as int],
            index >= fonts@.len() ==> *f == fonts@[0],
    {
        if index < fonts.len() {
            &fonts[index]
        } else {
            &fonts[0]
        }
    }

    /// The name shown for the chosen font: its name, or `?` for an index out
    /// of range.
    pub fn shown_name(fonts: &[FontFace], index: usize) -> (s: &'static str)
        ensures
            index < fonts@.len() ==> s == fonts@[index as int].name,
            index >= fonts@.len() ==> s@ == "?"@,
    {
        if index < fonts.len() {
            fonts[index].name
        } else {
            "?"
        }
    }
}

/// One drawing event of a glyph outline.
#[derive(Clone, Copy, Debug)]
pub enum OutlineEvent {
    MoveTo(Point),
    LineTo(Point),
    QuadTo(Point, Point),
    CurveTo(Point, Point, Point),
    Close,
}

/// The state of an assembler as a value: the path being built (if one was
/// started), whether a contour is open, and the finished paths.
pub struct AssemblerView {
    pub current: Option<Seq<PathEl<Point>>>,
    pub open: bool,
    pub done: Seq<Seq<PathEl<Point>>>,
}

/// The path being built extended by `el`; nothing when no path was started.
pub open spec fn extended(current: Option<Seq<PathEl<Point>>>, el: PathEl<Point>) -> Option<Seq<PathEl<Point>>> {
    match current {
        Some(c) => Some(c.push(el)),
        None => None,
    }
}

/// The state after one event. A move starts a contour (and the path, if
/// none was started), closing first a contour left open; lines and curves
/// extend the path; a close closes the contour. Lines, curves and closes
/// before the first move are dropped.
pub open spec fn step(s: AssemblerView, e: OutlineEvent) -> AssemblerView {
    match e {
        OutlineEvent::MoveTo(p) => {
            let before = if s.open { extended(s.current, PathEl::ClosePath) } else { s.current };
            let base = match before {
                Some(c) => c,
                None => Seq::empty(),
            };
            AssemblerView { current: Some(base.push(PathEl::MoveTo(p))), open: true, done: s.done }
        },
        OutlineEvent::LineTo(p) => AssemblerView { current: extended(s.current, PathEl::LineTo(p)), ..s },
        OutlineEvent::QuadTo(c, p) => AssemblerView { current: extended(s.current, PathEl::QuadTo(c, p)), ..s },
        OutlineEvent::CurveTo(c1, c2, p) => AssemblerView {
            current: extended(s.current, PathEl::CurveTo(c1, c2, p)),
            ..s
        },
        OutlineEvent::Close => AssemblerView {
            current: extended(s.current, PathEl::ClosePath),
            open: false,
            done: s.done,
        },
    }
}

/// The state after a series of events, from `s`.
pub open spec fn run(s: AssemblerView, es: Seq<OutlineEvent>) -> AssemblerView
    decreases es.len(),
{
    if es.len() == 0 {
        s
    } else {
        step(run(s, es.drop_last()), es.last())
    }
}

/// A state in which the path being built, if any, begins with a move, and
/// a contour is open only in a started path.
pub open spec fn well_formed(s: AssemblerView) -> bool {
    &&& s.current matches Some(c) ==> c.len() > 0 && c[0] is MoveTo
    &&& s.open ==> s.current is Some
}

/// Every event keeps an assembler well formed: whatever the events, the
/// path it builds begins with a move.
pub proof fn lemma_step_well_formed(s: AssemblerView, e: OutlineEvent)
    requires
        well_formed(s),
    ensures
        well_formed(step(s, e)),
{
    match e {
        OutlineEvent::MoveTo(p) => {
            let before = if s.open { extended(s.current, PathEl::ClosePath) } else { s.current };
            if before is Some {
                assert(before->0.push(PathEl::MoveTo(p))[0] == before->0[0]);
            }
        },
        OutlineEvent::LineTo(p) => {
            if s.current is Some {
                assert(s.current->0.push(PathEl::LineTo(p))[0] == s.current->0[0]);
            }
        },
        OutlineEvent::QuadTo(c, p) => {
            if s.current is Some {
                assert(s.current->0.push(PathEl::QuadTo(c, p))[0] == s.current->0[0]);
            }
        },
        OutlineEvent::CurveTo(c1, c2, p) => {
            if s.current is Some {
                assert(s.current->0.push(PathEl::CurveTo(c1, c2, p))[0] == s.current->0[0]);
            }
        },
        OutlineEvent::Close => {
            if s.current is Some {
                assert(s.current->0.push(PathEl::ClosePath)[0] == s.current->0[0]);
            }
        },
    }
}

/// A series of events from a fresh assembler leaves it well formed.
pub proof fn lemma_run_well_formed(es: Seq<OutlineEvent>)
    ensures
        well_formed(run(fresh(), es)),
    decreases es.len(),
{
    if es.len() > 0 {
        lemma_run_well_formed(es.drop_last());
        lemma_step_well_formed(run(fresh(), es.drop_last()), es.last());
    }
}

/// A fresh assembler: nothing started, nothing finished.
pub open spec fn fresh() -> AssemblerView {
    AssemblerView { current: None, open: false, done: Seq::empty() }
}

/// Turns the drawing events of glyph outlines into paths.
pub struct OutlineAssembler {
    current: Option<Vec<PathEl<Point>>>,
    open: bool,
    done: Vec<Vec<PathEl<Point>>>,
}

impl View for OutlineAssembler {
    type V = AssemblerView;

    closed spec fn view(&self) -> AssemblerView {
        AssemblerView {
            current: match self.current {
                Some(c) => Some(c@),
                None => None,
            },
            open: self.open,
            done: self.done@.map_values(|p: Vec<PathEl<Point>>| p@),
        }
    }
}

impl OutlineAssembler {
    /// A fresh assembler.
    pub fn new() -> (a: OutlineAssembler)
        ensures
            a@ == fresh(),
    {
        let a = OutlineAssembler { current: None, open: false, done: Vec::new() };
        assert(a@.done =~= Seq::<Seq<PathEl<Point>>>::empty());
        a
    }

    fn push_el(&mut self, el: PathEl<Point>)
        ensures
            final(self)@ == (AssemblerView { current: extended(old(self)@.current, el), ..old(self)@ }),
    {
        match &mut self.current {
            Some(c) => {
                c.push(el);
            },
            None => {},
        }
    }

    /// Handles the event `e` (see `step`).
    pub fn feed(&mut self, e: OutlineEvent)
        ensures
            final(self)@ == step(old(self)@, e),
    {
        match e {
            OutlineEvent::MoveTo(p) => {
                if self.open {
                    self.push_el(PathEl::ClosePath);
                }
                let mut c = match self.current.take() {
                    Some(c) => c,
                    None => Vec::new(),
                };
                c.push(PathEl::MoveTo(p));
                self.current = Some(c);
                self.open = true;
            },
            OutlineEvent::LineTo(p) => {
                self.push_el(PathEl::LineTo(p));
            },
            OutlineEvent::QuadTo(c, p) => {
                self.push_el(PathEl::QuadTo(c, p));
            },
            OutlineEvent::CurveTo(c1, c2, p) => {
                self.push_el(PathEl::CurveTo(c1, c2, p));
            },
            OutlineEvent::Close => {
                self.push_el(PathEl::ClosePath);
                self.open = false;
            },
        }
    }

    /// Finishes the path being built and hands out every finished path, in
    /// order; the assembler is then fresh.
    pub fn take_paths(&mut self) -> (r: Vec<Vec<PathEl<Point>>>)
        ensures
            r@.map_values(|p: Vec<PathEl<Point>>| p@) == match old(self)@.current {
                Some(c) => old(self)@.done.push(c),
                None => old(self)@.done,
            },
            final(self)@ == (AssemblerView { current: None, done: Seq::empty(), ..old(self)@ }),
    {
        let ghost before = self.done@.map_values(|p: Vec<PathEl<Point>>| p@);
        if let Some(c) = self.current.take() {
            let ghost cv = c@;
            self.done.push(c);
            assert(self.done@.map_values(|p: Vec<PathEl<Point>>| p@) =~= before.push(cv));
        }
        let mut r: Vec<Vec<PathEl<Point>>> = Vec::new();
        std::mem::swap(&mut r, &mut self.done);
        assert(self.done@.map_values(|p: Vec<PathEl<Point>>| p@) =~= Seq::<Seq<PathEl<Point>>>::empty());
        r
    }
}

} // verus!
