# itui

A library for building terminal user interfaces: widgets draw into a buffer of cells, and a
terminal sends a backend the cells that changed since the last draw.

The library under `src/` is verified with Verus. Every public function states what it returns
or changes, and the properties that relate several functions are proved as lemmas:

- `layout`, `flex_layout`: rectangles and how areas are split; the flex layout grows and
  shrinks spaces by their shares until they fill the room.
- `buffer`: the grid of cells, writing strings into it, merging buffers and the difference
  between two buffers.
- `style`, `text`, `symbols`: colors and modifiers, styled text, box-drawing and block symbols.
- `widgets`: blocks, tabs, tables, lists and multi-selection lists, bar charts, histograms,
  sparklines, seven-segment displays, text input, gauges drawn from their measured fills, and
  a chart's layout, frame, legend and titles.
- `viewport`, `backend`: where the terminal draws and the commands that draw a run of cells.

The widths and heights of grapheme clusters come from the `unicode-width` and
`unicode-segmentation` crates, through a few trusted calls in `src/unicode.rs` and
`src/buffer.rs`.

`app/` holds what Verus does not check: the terminal, the crossterm backend, the layouts
solved with the cassowary solver, the canvas and the plotting of a chart's data points on it,
the measuring of the gauges' fills and the pie chart (all floating-point values), and the
traits through which widgets are rendered.
