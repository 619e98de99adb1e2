# plotterdesigner

A vector designer for pen plotters: layered documents, procedural
generators, interactive selection and transforms, and SVG export ordered to
shorten pen travel.

The library (`src/`) is written in Verus. Its functions carry contracts over
mathematical models of their values, and Verus proves them. Coordinates are
held as the bit patterns of IEEE doubles: the library moves, orders, names,
filters and writes points, but never computes with them.

- `model` — documents, layers, pens and paths; layer operations.
- `path` — path elements, end points, subpaths and reversal, polylines, point editing.
- `selection` — selections by identifier and the edits applied to them.
- `lsystem` — rule parsing, rewriting and turtle commands.
- `generators` — naming and assembly of generated paths.
- `font` — font choice and assembly of glyph outlines into paths.
- `import` — an SVG file's tree of shapes (parsed with usvg), its paths depth first,
  and the document made from them.
- `export` — nearest-neighbour ordering, overlap removal, colours and SVG text.
- `optimize` — the export list: each visible layer's paths sorted for pen travel.
- `drawing` — what a path draws; reversing paths, and reordering them for pen travel, keep it.
- `canvas` — handles, tools, and what a press or a release does.
- `panels` — what the panels, dialogs and keyboard shortcuts do.
- `text` — character-sequence helpers.

The program (`app/`) is the egui front end: drawing, pointer measurements,
generator sampling, glyph placement, distance tables and file access, all of which
need floating point or I/O. It hands plain values to the library and takes
plain values back.
