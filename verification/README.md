# pcb_extract

A library for reading printed-circuit-board design and fabrication files,
written in Verus: every function in `src/` carries a contract that the
verifier proves.

## Layout

- `src/lib.rs` — format detection from file names and contents, archive
  listing, and the options of an extraction.
- `src/parsers/gerber*` — Gerber and Excellon files: tokens, commands,
  aperture macros, drill files, layer identification from X2 attributes and
  file names, archive expansion with a size limit, projects that keep
  layers in stacking order with their board bounds and diagnostics, and the
  assembly of a zip's layers into board edges, silkscreen, drills and copper.
- `src/parsers/altium*` — Altium `.PcbDoc` documents: property records,
  binary geometry records, layer categories, and what they become (board
  drawings, copper with nets, component footprints, the board outline).
- `src/parsers/eagle_binary*` — Eagle binary boards: the record tree, the
  string table, packages, placements, board drawings, copper and the
  footprint of each placed component.
- `src/parsers/eagle*` — telling Eagle inputs apart, layer mirroring, and
  Eagle XML boards read as a list of nodes: plain drawings, signal copper
  and pours, and placed components with their package's pads and drawings.
- `src/parsers/easyeda.rs` — EasyEDA JSON boards: the PCB document, the
  canvas origin, board shapes and components with their pads and drawings,
  read from their `~`-separated shape strings.
- `src/parsers/gdsii*` — GDSII streams: records, elements, structures,
  cells, integer bounding boxes, a spatial index, tile naming and colours.
- `src/bom.rs` — bill-of-materials grouping.
- `src/gerber_view*`, `src/gds_view*` — the pure parts of the two board
  viewers: layer labels, styles and paint order, the layer panel, source
  names, page addresses, layer order and persisted-state merging.
- `app/` — the command-line program: file input, floating-point unit
  conversion and geometry, and JSON output.
- `tests/` — tests of the library's behaviour on concrete inputs.

Lengths stay in each format's integer units, or as the decimal text the
file holds, inside the library; conversion to millimetres and rotation
(floating point) happen in `app/`.
