//! A table: a header row, then rows of cells set in columns, one row of which may be selected.
//! The columns' widths come from the caller, which solves the width constraints.
use vstd::prelude::*;

use crate::buffer::{region_in, restyled_cells, string_cells, Buffer, Restyle};
use crate::layout::{Constraint, Rect};
use crate::style::{default_style, Style};
use crate::unicode::{display_width, width_of};
use crate::widgets::block::Block;
use crate::widgets::list::holds_cell;

verus! {

/// What a table keeps between two draws: the first row shown and the selected row.
#[derive(Debug, Clone)]
pub struct TableState {
    pub offset: usize,
    pub selected: Option<usize>,
}

impl Default for TableState {
    fn default() -> (s: TableState)
        ensures
            s.offset == 0,
            s.selected.is_none(),
    {
        TableState { offset: 0, selected: None }
    }
}

impl TableState {
    pub fn selected(&self) -> (s: Option<usize>)
        ensures s == self.selected,
    {
        self.selected
    }

    /// Selects a row, or none; with none, the table is shown from its first row again.
    pub fn select(&mut self, index: Option<usize>)
        ensures
            final(self).selected == index,
            final(self).offset == (if index.is_none() { 0 } else { old(self).offset }),
    {
        self.selected = index;
        if index.is_none() {
            self.offset = 0;
        }
    }
}

/// A row of a table: its cells, each already written out as text, with a style of its own or
/// not.
#[derive(Debug, Clone)]
pub enum Row {
    Data(Vec<String>),
    StyledData(Vec<String>, Style),
}

/// The characters of each string.
pub open spec fn texts_of(v: Seq<String>) -> Seq<Seq<char>> {
    v.map_values(|s: String| s@)
}

/// The texts of a row's cells.
pub open spec fn row_texts(r: Row) -> Seq<Seq<char>> {
    match r {
        Row::Data(d) => texts_of(d@),
        Row::StyledData(d, _) => texts_of(d@),
    }
}

/// The texts with `prefix` put in front of the first one.
pub open spec fn with_prefix(texts: Seq<Seq<char>>, prefix: Seq<char>) -> Seq<Seq<char>> {
    if texts.len() == 0 { texts } else { texts.update(0, prefix + texts[0]) }
}

/// The column where the cell `c` of a line starts: each column before it takes its width and
/// the spacing.
pub open spec fn column_x(x0: int, widths: Seq<u16>, spacing: int, c: int) -> int
    decreases c,
{
    if c <= 0 { x0 } else { column_x(x0, widths, spacing, c - 1) + widths[c - 1] + spacing }
}

/// Whether a cell printed at `(x, y)` lands in the buffer; one that does not is left out.
pub open spec fn lands_in(buf_area: Rect, x: int, y: int) -> bool {
    x <= u16::MAX && buf_area.contains_point(x, y)
}

/// The cells after the first `k` texts of a line are printed on row `y` from column `x0` on,
/// each cut to the width of its column.
pub open spec fn line_run(
    buf_area: Rect,
    cells: Seq<(Seq<char>, Style)>,
    x0: int,
    y: int,
    widths: Seq<u16>,
    spacing: int,
    texts: Seq<Seq<char>>,
    style: Style,
    k: int,
) -> Seq<(Seq<char>, Style)>
    decreases k,
{
    if k <= 0 {
        cells
    } else {
        let c = line_run(buf_area, cells, x0, y, widths, spacing, texts, style, k - 1);
        let x = column_x(x0, widths, spacing, k - 1);
        if lands_in(buf_area, x, y) {
            string_cells(buf_area, c, x, y, texts[k - 1], widths[k - 1] as int, style)
        } else {
            c
        }
    }
}

/// The number of cells of a line: one for each text that has a column.
pub open spec fn line_len(widths: Seq<u16>, texts: Seq<Seq<char>>) -> int {
    if widths.len() < texts.len() { widths.len() as int } else { texts.len() as int }
}

/// The first row shown, for a window of `remaining` rows that starts at `offset`: it keeps the
/// selected row in view, and is the first row when nothing is selected.
pub open spec fn next_offset(selected: Option<usize>, offset: int, remaining: int) -> int {
    match selected {
        Some(s) => if s >= remaining + offset - 1 {
            s + 1 - remaining
        } else if s < offset {
            s as int
        } else {
            offset
        },
        None => 0,
    }
}

proof fn lemma_column_x_grows(x0: int, widths: Seq<u16>, spacing: int, a: int, b: int)
    requires
        0 <= a <= b,
        spacing >= 0,
    ensures
        column_x(x0, widths, spacing, a) <= column_x(x0, widths, spacing, b),
    decreases b - a,
{
    if a < b {
        lemma_column_x_grows(x0, widths, spacing, a, b - 1);
    }
}

/// Past `u16::MAX` nothing more of the line lands in the buffer.
proof fn lemma_line_run_stops(
    buf_area: Rect,
    cells: Seq<(Seq<char>, Style)>,
    x0: int,
    y: int,
    widths: Seq<u16>,
    spacing: int,
    texts: Seq<Seq<char>>,
    style: Style,
    a: int,
    b: int,
)
    requires
        0 <= a <= b,
        spacing >= 0,
        column_x(x0, widths, spacing, a) > u16::MAX,
    ensures
        line_run(buf_area, cells, x0, y, widths, spacing, texts, style, b)
            == line_run(buf_area, cells, x0, y, widths, spacing, texts, style, a),
    decreases b - a,
{
    if a < b {
        lemma_line_run_stops(buf_area, cells, x0, y, widths, spacing, texts, style, a, b - 1);
        lemma_column_x_grows(x0, widths, spacing, a, b - 1);
    }
}

/// Prints the texts of a line on row `y`, one in each column from `x0` on, cut to the column's
/// width, with `prefix` in front of the first one; what would fall outside the buffer is left
/// out.
fn draw_line(
    buf: &mut Buffer,
    x0: u16,
    y: u16,
    widths: &[u16],
    spacing: u16,
    texts: &Vec<String>,
    prefix: &str,
    style: Style,
)
    requires
        old(buf).wf(),
    ensures
        final(buf).wf(),
        final(buf).area == old(buf).area,
        final(buf).cells() == line_run(
            old(buf).area,
            old(buf).cells(),
            x0 as int,
            y as int,
            widths@,
            spacing as int,
            with_prefix(texts_of(texts@), prefix@),
            style,
            line_len(widths@, texts_of(texts@)),
        ),
{
    let ghost ts = with_prefix(texts_of(texts@), prefix@);
    let ghost c0 = buf.cells();
    let n: usize = if widths.len() < texts.len() { widths.len() } else { texts.len() };
    let mut x: u64 = x0 as u64;
    let mut c: usize = 0;
    while c < n
        invariant_except_break
            x == column_x(x0 as int, widths@, spacing as int, c as int),
            x <= 3 * (u16::MAX as int),
        invariant
            buf.wf(),
            buf.area == old(buf).area,
            n == line_len(widths@, texts_of(texts@)),
            ts == with_prefix(texts_of(texts@), prefix@),
            n <= widths@.len(),
            n <= texts@.len(),
            c <= n,
            buf.cells() == line_run(buf.area, c0, x0 as int, y as int, widths@, spacing as int, ts, style, c as int),
        ensures
            buf.cells() == line_run(buf.area, c0, x0 as int, y as int, widths@, spacing as int, ts, style, n as int),
        decreases n - c,
    {
        if x > u16::MAX as u64 {
            proof {
                lemma_line_run_stops(buf.area, c0, x0 as int, y as int, widths@, spacing as int, ts, style, c as int, n as int);
            }
            break;
        }
        let xs = x as u16;
        if holds_cell(buf.area, xs, y) {
            if c == 0 {
                let mut s = String::from_str(prefix);
                s.append(texts[0].as_str());
                assert(s@ == ts[0]);
                buf.set_stringn(xs, y, s.as_str(), widths[c] as usize, style);
            } else {
                assert(texts[c as int]@ == ts[c as int]);
                buf.set_stringn(xs, y, texts[c].as_str(), widths[c] as usize, style);
            }
        }
        x = x + widths[c] as u64 + spacing as u64;
        c = c + 1;
    }
}

/// A widget to display data in formatted columns.
pub struct Table<'a> {
    /// A block to wrap the widget in
    pub block: Option<Block<'a>>,
    /// Base style for the widget
    pub style: Style,
    /// Header row for all columns
    pub header: Vec<String>,
    /// Style for the header
    pub header_style: Style,
    /// Width constraints for each column
    pub widths: &'a [Constraint],
    /// Space between each column
    pub column_spacing: u16,
    /// Space between the header and the rows
    pub header_gap: u16,
    /// Style used to render the selected row
    pub highlight_style: Style,
    /// Symbol in front of the selected row
    pub highlight_symbol: Option<&'a str>,
    /// Data to display in each row
    pub rows: Vec<Row>,
}

impl<'a> Default for Table<'a> {
    fn default() -> (t: Table<'a>)
        ensures
            t.block.is_none(),
            t.style == default_style(),
            t.header@.len() == 0,
            t.header_style == default_style(),
            t.widths@.len() == 0,
            t.column_spacing == 1,
            t.header_gap == 1,
            t.highlight_style == default_style(),
            t.highlight_symbol.is_none(),
            t.rows@.len() == 0,
    {
        Table::new(Vec::new(), Vec::new())
    }
}

/// Whether no percentage among the constraints is above 100.
pub open spec fn percentages_valid(widths: Seq<Constraint>) -> bool {
    forall|i: int| 0 <= i < widths.len() ==> (#[trigger] widths[i] matches Constraint::Percentage(p) ==> p <= 100)
}

impl<'a> Table<'a> {
    pub fn new(header: Vec<String>, rows: Vec<Row>) -> (t: Table<'a>)
        ensures
            t.block.is_none(),
            t.style == default_style(),
            t.header == header,
            t.header_style == default_style(),
            t.widths@.len() == 0,
            t.column_spacing == 1,
            t.header_gap == 1,
            t.highlight_style == default_style(),
            t.highlight_symbol.is_none(),
            t.rows == rows,
    {
        Table {
            block: None,
            style: Style::new(),
            header,
            header_style: Style::new(),
            widths: &[],
            column_spacing: 1,
            header_gap: 1,
            highlight_style: Style::new(),
            highlight_symbol: None,
            rows,
        }
    }

    pub fn block(self, block: Block<'a>) -> (t: Table<'a>)
        ensures t == (Table { block: Some(block), ..self }),
    {
        let mut t = self;
        t.block = Some(block);
        t
    }

    pub fn header(self, header: Vec<String>) -> (t: Table<'a>)
        ensures t == (Table { header, ..self }),
    {
        let mut t = self;
        t.header = header;
        t
    }

    pub fn header_style(self, style: Style) -> (t: Table<'a>)
        ensures t == (Table { header_style: style, ..self }),
    {
        let mut t = self;
        t.header_style = style;
        t
    }

    /// Sets the width constraints of the columns; a percentage is at most 100.
    pub fn widths(self, widths: &'a [Constraint]) -> (t: Table<'a>)
        requires
            percentages_valid(widths@),
        ensures
            t == (Table { widths, ..self }),
    {
        let mut t = self;
        t.widths = widths;
        t
    }

    pub fn rows(self, rows: Vec<Row>) -> (t: Table<'a>)
        ensures t == (Table { rows, ..self }),
    {
        let mut t = self;
        t.rows = rows;
        t
    }

    pub fn style(self, style: Style) -> (t: Table<'a>)
        ensures t == (Table { style, ..self }),
    {
        let mut t = self;
        t.style = style;
        t
    }

    pub fn highlight_symbol(self, highlight_symbol: &'a str) -> (t: Table<'a>)
        ensures t == (Table { highlight_symbol: Some(highlight_symbol), ..self }),
    {
        let mut t = self;
        t.highlight_symbol = Some(highlight_symbol);
        t
    }

    pub fn highlight_style(self, highlight_style: Style) -> (t: Table<'a>)
        ensures t == (Table { highlight_style, ..self }),
    {
        let mut t = self;
        t.highlight_style = highlight_style;
        t
    }

    pub fn column_spacing(self, spacing: u16) -> (t: Table<'a>)
        ensures t == (Table { column_spacing: spacing, ..self }),
    {
        let mut t = self;
        t.column_spacing = spacing;
        t
    }

    pub fn header_gap(self, gap: u16) -> (t: Table<'a>)
        ensures t == (Table { header_gap: gap, ..self }),
    {
        let mut t = self;
        t.header_gap = gap;
        t
    }
}

impl<'a> Table<'a> {
    /// The area inside the block, if there is one.
    pub open spec fn table_area(self, area: Rect) -> Rect {
        match self.block {
            Some(b) => b.spec_inner(area),
            None => area,
        }
    }

    /// The symbol in front of the selected row.
    pub open spec fn symbol_of(self) -> Seq<char> {
        match self.highlight_symbol {
            Some(s) => s@,
            None => Seq::empty(),
        }
    }

    /// As many spaces as the highlight symbol is wide: what stands in front of the other rows.
    pub open spec fn blank_of(self) -> Seq<char> {
        Seq::new(display_width(self.symbol_of()) as nat, |i: int| ' ')
    }

    /// The row the rows start on: after the header and the gap.
    pub open spec fn rows_top(self, area: Rect) -> int {
        self.table_area(area).y + 1 + self.header_gap
    }

    /// Whether the table has room for rows below its header and the gap.
    pub open spec fn shows_rows(self, area: Rect) -> bool {
        self.rows_top(area) < self.table_area(area).spec_bottom()
    }

    /// The number of rows the table has room for.
    pub open spec fn room(self, area: Rect) -> int {
        self.table_area(area).spec_bottom() - self.rows_top(area)
    }

    /// The first row shown once the table is drawn.
    pub open spec fn drawn_offset(self, area: Rect, state: TableState) -> int {
        if self.shows_rows(area) {
            next_offset(state.selected, state.offset as int, self.room(area))
        } else {
            state.offset as int
        }
    }

    /// The number of rows shown from `offset` on: as many as there are, up to the room.
    pub open spec fn shown_rows(self, area: Rect, offset: int) -> int {
        if offset < self.rows@.len() {
            let left = self.rows@.len() - offset;
            if self.room(area) < left { self.room(area) } else { left }
        } else {
            0
        }
    }

    /// The texts, style and symbol of the `i`-th row shown from `offset` on: the selected row
    /// is highlighted and gets the highlight symbol, the others get blanks in its place.
    pub open spec fn row_look(self, selected: Option<usize>, offset: int, i: int) -> (Seq<Seq<char>>, Style, Seq<char>) {
        let r = self.rows@[offset + i];
        let is_selected = match selected {
            Some(s) => s - offset == i,
            None => false,
        };
        if is_selected {
            (row_texts(r), self.highlight_style, self.symbol_of())
        } else {
            match r {
                Row::Data(d) => (texts_of(d@), default_style(), self.blank_of()),
                Row::StyledData(d, s) => (texts_of(d@), s, self.blank_of()),
            }
        }
    }

    /// The cells after the first `k` rows shown from `offset` on are printed, one a line from
    /// row `y0` on.
    pub open spec fn rows_run(
        self,
        buf_area: Rect,
        cells: Seq<(Seq<char>, Style)>,
        x0: int,
        y0: int,
        selected: Option<usize>,
        offset: int,
        widths: Seq<u16>,
        k: int,
    ) -> Seq<(Seq<char>, Style)>
        decreases k,
    {
        if k <= 0 {
            cells
        } else {
            let c = self.rows_run(buf_area, cells, x0, y0, selected, offset, widths, k - 1);
            let (texts, style, symbol) = self.row_look(selected, offset, k - 1);
            line_run(buf_area, c, x0, y0 + k - 1, widths, self.column_spacing as int, with_prefix(texts, symbol), style, line_len(widths, texts))
        }
    }

    /// The cells after the table is drawn on `area` over `cells` with the columns' widths: the
    /// widget's style over the area, the block, the header on the first row, then, after the
    /// gap, the rows from the first one shown on, as many as there is room for.
    pub open spec fn drawn_cells(
        self,
        buf_area: Rect,
        cells: Seq<(Seq<char>, Style)>,
        area: Rect,
        state: TableState,
        widths: Seq<u16>,
    ) -> Seq<(Seq<char>, Style)> {
        let t = self.table_area(area);
        let c0 = restyled_cells(buf_area, cells, area, Restyle::Whole(self.style));
        let c1 = match self.block {
            Some(b) => b.drawn_cells(buf_area, c0, area),
            None => c0,
        };
        let header = texts_of(self.header@);
        let c2 = if t.y < t.spec_bottom() {
            line_run(buf_area, c1, t.x as int, t.y as int, widths, self.column_spacing as int, header, self.header_style, line_len(widths, header))
        } else {
            c1
        };
        if self.shows_rows(area) {
            let offset = self.drawn_offset(area, state);
            self.rows_run(buf_area, c2, t.x as int, self.rows_top(area), state.selected, offset, widths, self.shown_rows(area, offset))
        } else {
            c2
        }
    }

    /// Draws the table on `area`, the column `c` being `column_widths[c]` cells wide, and keeps
    /// the selected row in view.
    pub fn draw(&self, area: Rect, buf: &mut Buffer, state: &mut TableState, column_widths: &[u16])
        requires
            old(buf).wf(),
            region_in(*old(buf), area),
            self.block matches Some(b) ==> b.inner_computable(area),
        ensures
            final(buf).wf(),
            final(buf).area == old(buf).area,
            final(buf).cells() == self.drawn_cells(old(buf).area, old(buf).cells(), area, *old(state), column_widths@),
            final(state).selected == old(state).selected,
            final(state).offset == self.drawn_offset(area, *old(state)),
    {
        buf.set_style(area, self.style);
        let table_area = match &self.block {
            Some(b) => {
                b.draw(area, buf);
                b.inner(area)
            },
            None => area,
        };
        let x0 = table_area.left();
        let top = table_area.top();
        let bottom = table_area.bottom();
        let ghost widths = column_widths@;
        let ghost spacing = self.column_spacing as int;
        let empty = "";
        proof {
            reveal_strlit("");
        }
        if top < bottom {
            assert(with_prefix(texts_of(self.header@), empty@) =~= texts_of(self.header@));
            draw_line(buf, x0, top, column_widths, self.column_spacing, &self.header, empty, self.header_style);
        }
        let ghost c2 = buf.cells();
        let rows_top: u32 = top as u32 + 1 + self.header_gap as u32;
        if rows_top >= bottom as u32 {
            return;
        }
        let remaining: usize = (bottom as u32 - rows_top) as usize;
        let offset: usize = match state.selected {
            Some(s) => if s >= state.offset && s - state.offset >= remaining - 1 {
                s - (remaining - 1)
            } else if s < state.offset {
                s
            } else {
                state.offset
            },
            None => 0,
        };
        state.offset = offset;
        let selected = state.selected;

        let symbol = match self.highlight_symbol {
            Some(s) => s,
            None => empty,
        };
        assert(symbol@ == self.symbol_of());
        let w = width_of(symbol);
        let space = " ";
        proof {
            reveal_strlit(" ");
        }
        let mut blank = String::new();
        let mut k: usize = 0;
        while k < w
            invariant
                k <= w,
                space@ == seq![' '],
                blank@ == Seq::new(k as nat, |i: int| ' '),
            decreases w - k,
        {
            blank.append(space);
            assert(blank@ =~= Seq::new((k + 1) as nat, |i: int| ' '));
            k = k + 1;
        }
        assert(blank@ == self.blank_of());

        let n: usize = if offset < self.rows.len() {
            let left = self.rows.len() - offset;
            if remaining < left { remaining } else { left }
        } else {
            0
        };
        let mut i: usize = 0;
        while i < n
            invariant
                buf.wf(),
                buf.area == old(buf).area,
                i <= n,
                n == self.shown_rows(area, offset as int),
                n <= remaining,
                n == 0 || offset + n <= self.rows.len(),
                rows_top as int == self.rows_top(area),
                rows_top + remaining == bottom,
                bottom <= u16::MAX,
                x0 == self.table_area(area).x,
                remaining == self.room(area),
                widths == column_widths@,
                spacing == self.column_spacing as int,
                symbol@ == self.symbol_of(),
                blank@ == self.blank_of(),
                selected == old(state).selected,
                selected matches Some(s) ==> offset <= s,
                buf.cells() == self.rows_run(buf.area, c2, x0 as int, rows_top as int, selected, offset as int, widths, i as int),
            decreases n - i,
        {
            let row = &self.rows[offset + i];
            let is_selected = match selected {
                Some(s) => s - offset == i,
                None => false,
            };
            let y = (rows_top as usize + i) as u16;
            let ghost look = self.row_look(selected, offset as int, i as int);
            match row {
                Row::Data(d) => {
                    if is_selected {
                        draw_line(buf, x0, y, column_widths, self.column_spacing, d, symbol, self.highlight_style);
                    } else {
                        draw_line(buf, x0, y, column_widths, self.column_spacing, d, blank.as_str(), Style::new());
                    }
                },
                Row::StyledData(d, s) => {
                    if is_selected {
                        draw_line(buf, x0, y, column_widths, self.column_spacing, d, symbol, self.highlight_style);
                    } else {
                        draw_line(buf, x0, y, column_widths, self.column_spacing, d, blank.as_str(), *s);
                    }
                },
            }
            i = i + 1;
        }
    }
}

/// Whenever the table has room for rows, drawing it keeps the selected row in view: the first
/// row shown is at most the selected one, the selected one comes before the end of the room,
/// and, when the table has that row, it is among the rows drawn, highlighted.
pub proof fn lemma_table_keeps_selected_in_view(table: Table, area: Rect, state: TableState, s: usize)
    requires
        table.shows_rows(area),
        state.selected == Some(s),
    ensures
        table.drawn_offset(area, state) <= s < table.drawn_offset(area, state) + table.room(area),
        s < table.rows@.len() ==> {
            let o = table.drawn_offset(area, state);
            &&& s - o < table.shown_rows(area, o)
            &&& table.row_look(state.selected, o, s - o).1 == table.highlight_style
            &&& table.row_look(state.selected, o, s - o).2 == table.symbol_of()
        },
{
}

} // verus!
