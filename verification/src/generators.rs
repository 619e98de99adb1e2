//! The procedural generators' structural parts: which paths they make, how
//! those are named and laid out. The coordinates themselves are computed by
//! the caller.
use vstd::prelude::*;

use crate::model::{paths_view, push_path, PathView, PlotPath};
use crate::path::{polyline, polyline_path, PathEl, Point};
use crate::text::{chars_of, decimal, numbered_name, push_decimal, push_str, string_from_chars};

verus! {

broadcast use vstd::string::group_string_axioms;

/// The generators the drawing program offers.
#[derive(Clone, Copy, Debug, PartialEq, Eq, Structural)]
pub enum GeneratorKind {
    Spirograph,
    LSystem,
    Voronoi,
    Wave,
    Grid,
    Honeycomb,
    Spiral,
}

/// The name of each generator, as the drawing program shows it.
pub open spec fn kind_name(k: GeneratorKind) -> Seq<char> {
    match k {
        GeneratorKind::Spirograph => "Spirograph"@,
        GeneratorKind::LSystem => "L-System"@,
        GeneratorKind::Voronoi => "Voronoi"@,
        GeneratorKind::Wave => "Wave"@,
        GeneratorKind::Grid => "Grid"@,
        GeneratorKind::Honeycomb => "Honeycomb"@,
        GeneratorKind::Spiral => "Spiral"@,
    }
}

impl GeneratorKind {
    /// The generator's name (see `kind_name`).
    pub fn name(&self) -> (s: &'static str)
        ensures
            s@ == kind_name(*self),
    {
        match self {
            GeneratorKind::Spirograph => "Spirograph",
            GeneratorKind::LSystem => "L-System",
            GeneratorKind::Voronoi => "Voronoi",
            GeneratorKind::Wave => "Wave",
            GeneratorKind::Grid => "Grid",
            GeneratorKind::Honeycomb => "Honeycomb",
            GeneratorKind::Spiral => "Spiral",
        }
    }
}

/// A generated path as a value: name, elements, closed flag; visible and unfilled.
pub open spec fn generated(p: PathView, name: Seq<char>, geometry: Seq<PathEl<Point>>, closed: bool) -> bool {
    &&& p.name == name
    &&& p.geometry == geometry
    &&& p.closed == closed
    &&& p.visible
    &&& !p.filled
}

/// A new generated path with the given name.
pub fn named_path(geometry: Vec<PathEl<Point>>, closed: bool, name: String) -> (p: PlotPath)
    ensures
        generated(p@, name@, geometry@, closed),
{
    PlotPath::new(geometry, closed).with_name(name)
}

/// The open or closed polyline through `points`, named `name` (the spiral
/// and spirograph generators make one such path).
pub fn named_polyline(points: &Vec<Point>, name: &str, closed: bool) -> (p: PlotPath)
    ensures
        generated(p@, name@, polyline(points@, closed), closed),
{
    let g = polyline_path(points, closed);
    named_path(g, closed, string_from_chars(&chars_of(name)))
}

/// The straight line from `a` to `b`.
pub open spec fn line(a: Point, b: Point) -> Seq<PathEl<Point>> {
    seq![PathEl::MoveTo(a), PathEl::LineTo(b)]
}

/// The grid generator.
pub struct GridGenerator;

impl GridGenerator {
    /// The generator's kind.
    pub fn kind(&self) -> (k: GeneratorKind)
        ensures
            k == GeneratorKind::Grid,
    {
        GeneratorKind::Grid
    }

    /// The generator's name.
    pub fn name(&self) -> (s: &'static str)
        ensures
            s@ == kind_name(GeneratorKind::Grid),
    {
        GeneratorKind::Grid.name()
    }

    /// The grid's paths from the end points of its lines: the vertical lines
    /// first, named `Grid V0`, `Grid V1`, ..., then the horizontal ones, named
    /// `Grid H0`, ...; all open.
    pub fn assemble(vertical: &Vec<(Point, Point)>, horizontal: &Vec<(Point, Point)>) -> (r: Vec<PlotPath>)
        ensures
            r@.len() == vertical@.len() + horizontal@.len(),
            forall|k: int|
                0 <= k < vertical@.len() ==> generated(
                    #[trigger] paths_view(r@)[k],
                    "Grid V"@ + decimal(k as nat),
                    line(vertical@[k].0, vertical@[k].1),
                    false,
                ),
            forall|k: int|
                0 <= k < horizontal@.len() ==> generated(
                    #[trigger] paths_view(r@)[vertical@.len() + k],
                    "Grid H"@ + decimal(k as nat),
                    line(horizontal@[k].0, horizontal@[k].1),
                    false,
                ),
    {
        let mut r: Vec<PlotPath> = Vec::new();
        let mut i: usize = 0;
        while i < vertical.len()
            invariant
                i <= vertical@.len(),
                r@.len() == i,
                forall|k: int|
                    0 <= k < i ==> generated(
                        #[trigger] paths_view(r@)[k],
                        "Grid V"@ + decimal(k as nat),
                        line(vertical@[k].0, vertical@[k].1),
                        false,
                    ),
            decreases vertical@.len() - i,
        {
            let (a, b) = vertical[i];
            let mut g: Vec<PathEl<Point>> = Vec::new();
            g.push(PathEl::MoveTo(a));
            g.push(PathEl::LineTo(b));
            assert(g@ =~= line(a, b));
            let p = named_path(g, false, numbered_name("Grid V", i as u64));
            push_path(&mut r, p);
            i = i + 1;
        }
        let mut j: usize = 0;
        while j < horizontal.len()
            invariant
                j <= horizontal@.len(),
                r@.len() == vertical@.len() + j,
                forall|k: int|
                    0 <= k < vertical@.len() ==> generated(
                        #[trigger] paths_view(r@)[k],
                        "Grid V"@ + decimal(k as nat),
                        line(vertical@[k].0, vertical@[k].1),
                        false,
                    ),
                forall|k: int|
                    0 <= k < j ==> generated(
                        #[trigger] paths_view(r@)[vertical@.len() + k],
                        "Grid H"@ + decimal(k as nat),
                        line(horizontal@[k].0, horizontal@[k].1),
                        false,
                    ),
            decreases horizontal@.len() - j,
        {
            let (a, b) = horizontal[j];
            let mut g: Vec<PathEl<Point>> = Vec::new();
            g.push(PathEl::MoveTo(a));
            g.push(PathEl::LineTo(b));
            assert(g@ =~= line(a, b));
            let p = named_path(g, false, numbered_name("Grid H", j as u64));
            push_path(&mut r, p);
            j = j + 1;
        }
        r
    }
}

/// The wave generator.
pub struct WaveGenerator;

impl WaveGenerator {
    /// The generator's kind.
    pub fn kind(&self) -> (k: GeneratorKind)
        ensures
            k == GeneratorKind::Wave,
    {
        GeneratorKind::Wave
    }

    /// The generator's name.
    pub fn name(&self) -> (s: &'static str)
        ensures
            s@ == kind_name(GeneratorKind::Wave),
    {
        GeneratorKind::Wave.name()
    }

    /// One open polyline per wave, named `Wave 1`, `Wave 2`, ...
    pub fn assemble(waves: &Vec<Vec<Point>>) -> (r: Vec<PlotPath>)
        ensures
            r@.len() == waves@.len(),
            forall|k: int|
                0 <= k < waves@.len() ==> generated(
                    #[trigger] paths_view(r@)[k],
                    "Wave "@ + decimal((k + 1) as nat),
                    polyline(waves@[k]@, false),
                    false,
                ),
    {
        let mut r: Vec<PlotPath> = Vec::new();
        let mut i: usize = 0;
        while i < waves.len()
            invariant
                i <= waves@.len(),
                r@.len() == i,
                forall|k: int|
                    0 <= k < i ==> generated(
                        #[trigger] paths_view(r@)[k],
                        "Wave "@ + decimal((k + 1) as nat),
                        polyline(waves@[k]@, false),
                        false,
                    ),
            decreases waves@.len() - i,
        {
            let g = polyline_path(&waves[i], false);
            let p = named_path(g, false, numbered_name("Wave ", (i as u64) + 1));
            push_path(&mut r, p);
            i = i + 1;
        }
        r
    }
}

/// The spiral generator.
pub struct SpiralGenerator;

impl SpiralGenerator {
    /// The generator's kind.
    pub fn kind(&self) -> (k: GeneratorKind)
        ensures
            k == GeneratorKind::Spiral,
    {
        GeneratorKind::Spiral
    }

    /// The generator's name.
    pub fn name(&self) -> (s: &'static str)
        ensures
            s@ == kind_name(GeneratorKind::Spiral),
    {
        GeneratorKind::Spiral.name()
    }

    /// The single open polyline through the sampled points, named `Spiral`.
    pub fn assemble(points: &Vec<Point>) -> (r: Vec<PlotPath>)
        ensures
            r@.len() == 1,
            generated(paths_view(r@)[0], "Spiral"@, polyline(points@, false), false),
    {
        let mut r: Vec<PlotPath> = Vec::new();
        push_path(&mut r, named_polyline(points, "Spiral", false));
        r
    }
}

/// The spirograph generator.
pub struct SpirographGenerator;

impl SpirographGenerator {
    /// The generator's kind.
    pub fn kind(&self) -> (k: GeneratorKind)
        ensures
            k == GeneratorKind::Spirograph,
    {
        GeneratorKind::Spirograph
    }

    /// The generator's name.
    pub fn name(&self) -> (s: &'static str)
        ensures
            s@ == kind_name(GeneratorKind::Spirograph),
    {
        GeneratorKind::Spirograph.name()
    }

    /// The single open polyline through the sampled points, named `Spirograph`.
    pub fn assemble(points: &Vec<Point>) -> (r: Vec<PlotPath>)
        ensures
            r@.len() == 1,
            generated(paths_view(r@)[0], "Spirograph"@, polyline(points@, false), false),
    {
        let mut r: Vec<PlotPath> = Vec::new();
        push_path(&mut r, named_polyline(points, "Spirograph", false));
        r
    }
}

/// One closed, unnamed polyline per cell, through the cell's vertices.
pub fn closed_outlines(cells: &Vec<Vec<Point>>) -> (r: Vec<PlotPath>)
    ensures
        r@.len() == cells@.len(),
        forall|k: int|
            0 <= k < cells@.len() ==> generated(
                #[trigger] paths_view(r@)[k],
                Seq::empty(),
                polyline(cells@[k]@, true),
                true,
            ),
{
    let mut r: Vec<PlotPath> = Vec::new();
    let mut i: usize = 0;
    while i < cells.len()
        invariant
            i <= cells@.len(),
            r@.len() == i,
            forall|k: int|
                0 <= k < i ==> generated(
                    #[trigger] paths_view(r@)[k],
                    Seq::empty(),
                    polyline(cells@[k]@, true),
                    true,
                ),
        decreases cells@.len() - i,
    {
        let g = polyline_path(&cells[i], true);
        push_path(&mut r, PlotPath::new(g, true));
        i = i + 1;
    }
    r
}

/// The Voronoi generator.
pub struct VoronoiGenerator;

impl VoronoiGenerator {
    /// The generator's kind.
    pub fn kind(&self) -> (k: GeneratorKind)
        ensures
            k == GeneratorKind::Voronoi,
    {
        GeneratorKind::Voronoi
    }

    /// The generator's name.
    pub fn name(&self) -> (s: &'static str)
        ensures
            s@ == kind_name(GeneratorKind::Voronoi),
    {
        GeneratorKind::Voronoi.name()
    }

    /// One closed, unnamed polyline per cell, through the cell's vertices
    /// (see `closed_outlines`).
    pub fn assemble(cells: &Vec<Vec<Point>>) -> (r: Vec<PlotPath>)
        ensures
            r@.len() == cells@.len(),
            forall|k: int|
                0 <= k < cells@.len() ==> generated(
                    #[trigger] paths_view(r@)[k],
                    Seq::empty(),
                    polyline(cells@[k]@, true),
                    true,
                ),
    {
        closed_outlines(cells)
    }
}

/// The honeycomb generator.
pub struct HoneycombGenerator;

/// The cells of a honeycomb, row by row: even rows hold `cols` cells, odd
/// rows one fewer (they are shifted by half a cell).
pub open spec fn honeycomb_cells(cols: u32, rows: u32) -> Seq<(u32, u32)>
    decreases rows,
{
    if rows == 0 {
        Seq::empty()
    } else {
        let row = (rows - 1) as u32;
        let n = if row % 2 == 0 {
            cols as int
        } else {
            cols - 1
        };
        honeycomb_cells(cols, row) + Seq::new(n as nat, |c: int| (row, c as u32))
    }
}

/// A honeycomb of `cols >= 1` columns: row `r` holds the cells `(r, c)` for
/// `c` below `cols - r % 2` (odd rows hold one cell fewer), each once, and
/// `rows` rows hold `rows * cols - rows / 2` cells.
pub proof fn lemma_honeycomb_rows(cols: u32, rows: u32)
    requires
        cols >= 1,
    ensures
        honeycomb_cells(cols, rows).len() == rows * cols - rows / 2,
        forall|r: u32, c: u32|
            honeycomb_cells(cols, rows).contains((r, c)) <==> (r < rows && c < cols - r % 2),
        honeycomb_cells(cols, rows).no_duplicates(),
    decreases rows,
{
    if rows > 0 {
        let row = (rows - 1) as u32;
        lemma_honeycomb_rows(cols, row);
        let base = honeycomb_cells(cols, row);
        let n: int = if row % 2 == 0 { cols as int } else { cols - 1 };
        let add = Seq::new(n as nat, |c: int| (row, c as u32));
        let all = honeycomb_cells(cols, rows);
        assert(all == base + add);
        assert(rows * cols == row * cols + cols) by (nonlinear_arith)
            requires
                rows == row + 1,
        ;
        assert(all.len() == rows * cols - rows / 2);
        assert forall|r: u32, c: u32| all.contains((r, c)) <==> (r < rows && c < cols - r % 2) by {
            if r == row && c < cols - r % 2 {
                assert(add[c as int] == (r, c));
                assert(all[base.len() + c] == (r, c));
            }
            if all.contains((r, c)) {
                let k = choose|k: int| 0 <= k < all.len() && all[k] == (r, c);
                if k < base.len() {
                    assert(base[k] == (r, c));
                    assert(base.contains((r, c)));
                } else {
                    assert(add[k - base.len()] == (r, c));
                }
            }
            if r < row && c < cols - r % 2 {
                assert(base.contains((r, c)));
                let k = choose|k: int| 0 <= k < base.len() && base[k] == (r, c);
                assert(all[k] == (r, c));
            }
        }
        assert forall|a: int, b: int| 0 <= a < all.len() && 0 <= b < all.len() && a != b implies all[a] != all[b] by {
            if a < base.len() && b < base.len() {
                assert(all[a] == base[a] && all[b] == base[b]);
            } else if a >= base.len() && b >= base.len() {
                assert(all[a] == add[a - base.len()] && all[b] == add[b - base.len()]);
            } else {
                let (x, y) = if a < base.len() { (a, b) } else { (b, a) };
                assert(all[x] == base[x]);
                assert(base[x] == (base[x].0, base[x].1));
                assert(base.contains((base[x].0, base[x].1)));
                assert(all[y] == add[y - base.len()]);
                assert(base[x].0 < row);
            }
        }
    }
}

impl HoneycombGenerator {
    /// The generator's kind.
    pub fn kind(&self) -> (k: GeneratorKind)
        ensures
            k == GeneratorKind::Honeycomb,
    {
        GeneratorKind::Honeycomb
    }

    /// The generator's name.
    pub fn name(&self) -> (s: &'static str)
        ensures
            s@ == kind_name(GeneratorKind::Honeycomb),
    {
        GeneratorKind::Honeycomb.name()
    }

    /// One closed, unnamed hexagon per cell, through its corners (see
    /// `closed_outlines`).
    pub fn assemble(hexagons: &Vec<Vec<Point>>) -> (r: Vec<PlotPath>)
        ensures
            r@.len() == hexagons@.len(),
            forall|k: int|
                0 <= k < hexagons@.len() ==> generated(
                    #[trigger] paths_view(r@)[k],
                    Seq::empty(),
                    polyline(hexagons@[k]@, true),
                    true,
                ),
    {
        closed_outlines(hexagons)
    }

    /// The cells `(row, col)` of a honeycomb of `rows` rows (see
    /// `honeycomb_cells`). With no column, a second row would hold a negative
    /// number of cells; such a grid is not accepted.
    pub fn cells(cols: u32, rows: u32) -> (r: Vec<(u32, u32)>)
        requires
            cols >= 1 || rows <= 1,
        ensures
            r@ == honeycomb_cells(cols, rows),
    {
        let mut r: Vec<(u32, u32)> = Vec::new();
        let mut row: u32 = 0;
        while row < rows
            invariant
                row <= rows,
                cols >= 1 || rows <= 1,
                r@ == honeycomb_cells(cols, row),
            decreases rows - row,
        {
            let n = if row % 2 == 0 { cols } else { cols - 1 };
            let ghost base = r@;
            let mut c: u32 = 0;
            while c < n
                invariant
                    c <= n,
                    r@ == base + Seq::new(c as nat, |q: int| (row, q as u32)),
                decreases n - c,
            {
                r.push((row, c));
                assert(r@ =~= base + Seq::new((c + 1) as nat, |q: int| (row, q as u32)));
                c = c + 1;
            }
            assert(honeycomb_cells(cols, (row + 1) as u32) =~= base + Seq::new(
                n as nat,
                |q: int| (row, q as u32),
            ));
            row = row + 1;
        }
        r
    }
}

/// The name of the `i`-th outline (from 0) made from a text: `Text: <text>`
/// for the first, `Text: <text> (part <i + 1>)` for the others.
pub open spec fn text_part_name(content: Seq<char>, i: nat) -> Seq<char> {
    if i == 0 {
        "Text: "@ + content
    } else {
        "Text: "@ + content + " (part "@ + decimal(i + 1) + ")"@
    }
}

/// Names the outlines of a text (see `text_part_name`); each is a closed path.
pub fn text_paths(content: &str, outlines: Vec<Vec<PathEl<Point>>>) -> (r: Vec<PlotPath>)
    ensures
        r@.len() == outlines@.len(),
        forall|k: int|
            0 <= k < outlines@.len() ==> generated(
                #[trigger] paths_view(r@)[k],
                text_part_name(content@, k as nat),
                outlines@[k]@,
                true,
            ),
{
    let mut r: Vec<PlotPath> = Vec::new();
    let mut outlines = outlines;
    let ghost orig = outlines@;
    let n = outlines.len();
    let mut rev: Vec<Vec<PathEl<Point>>> = Vec::new();
    while outlines.len() > 0
        invariant
            outlines@.len() + rev@.len() == n,
            orig.len() == n,
            forall|k: int| 0 <= k < outlines@.len() ==> #[trigger] outlines@[k] == orig[k],
            forall|k: int| 0 <= k < rev@.len() ==> #[trigger] rev@[k] == orig[n - 1 - k],
        decreases outlines@.len(),
    {
        let g = outlines.pop().unwrap();
        rev.push(g);
    }
    let mut i: usize = 0;
    while rev.len() > 0
        invariant
            rev@.len() + i == n,
            orig.len() == n,
            forall|q: int| 0 <= q < rev@.len() ==> #[trigger] rev@[q] == orig[n - 1 - q],
            r@.len() == i,
            forall|k: int|
                0 <= k < i ==> generated(
                    #[trigger] paths_view(r@)[k],
                    text_part_name(content@, k as nat),
                    orig[k]@,
                    true,
                ),
        decreases rev@.len(),
    {
        let g = rev.pop().unwrap();
        let mut name = chars_of("Text: ");
        push_str(&mut name, content);
        if i > 0 {
            push_str(&mut name, " (part ");
            push_decimal(&mut name, (i as u64) + 1);
            push_str(&mut name, ")");
        }
        assert(name@ =~= text_part_name(content@, i as nat));
        push_path(&mut r, named_path(g, true, string_from_chars(&name)));
        i = i + 1;
    }
    r
}

} // verus!
