//! The buffer: a grid of cells, each holding a grapheme and a style, that widgets draw to.
use vstd::prelude::*;

use crate::layout::Rect;
use crate::style::{default_style, Color, Modifier, Style};
use crate::text::{Span, Spans};
use crate::unicode::{grapheme_clusters, graphemes_of};

verus! {

/// A buffer cell.
#[derive(Debug, PartialEq)]
pub struct Cell {
    pub symbol: String,
    pub style: Style,
}

impl View for Cell {
    type V = (Seq<char>, Style);

    open spec fn view(&self) -> (Seq<char>, Style) {
        (self.symbol@, self.style)
    }
}

/// A blank cell: one space, with the default style.
pub open spec fn blank_cell() -> (Seq<char>, Style) {
    (seq![' '], default_style())
}

impl Clone for Cell {
    fn clone(&self) -> (c: Cell)
        ensures c@ == self@,
    {
        Cell { symbol: self.symbol.clone(), style: self.style }
    }
}

impl Default for Cell {
    fn default() -> (c: Cell)
        ensures c@ == blank_cell(),
    {
        let symbol = String::from_str(" ");
        proof {
            reveal_strlit(" ");
        }
        Cell { symbol, style: Style::new() }
    }
}

impl Cell {
    pub fn set_symbol(&mut self, symbol: &str) -> (r: &mut Cell)
        ensures
            (*r)@ == (symbol@, old(self).style),
            *final(self) == *final(r),
    {
        self.symbol = String::from_str(symbol);
        self
    }

    pub fn set_char(&mut self, ch: char) -> (r: &mut Cell)
        ensures
            (*r)@ == (seq![ch], old(self).style),
            *final(self) == *final(r),
    {
        self.symbol = char_string(ch);
        self
    }

    pub fn set_fg(&mut self, color: Color) -> (r: &mut Cell)
        ensures
            (*r)@ == (old(self).symbol@, Style { fg: color, ..old(self).style }),
            *final(self) == *final(r),
    {
        self.style.fg = color;
        self
    }

    pub fn set_bg(&mut self, color: Color) -> (r: &mut Cell)
        ensures
            (*r)@ == (old(self).symbol@, Style { bg: color, ..old(self).style }),
            *final(self) == *final(r),
    {
        self.style.bg = color;
        self
    }

    pub fn set_modifier(&mut self, modifier: Modifier) -> (r: &mut Cell)
        ensures
            (*r)@ == (old(self).symbol@, Style { modifier, ..old(self).style }),
            *final(self) == *final(r),
    {
        self.style.modifier = modifier;
        self
    }

    pub fn set_style(&mut self, style: Style) -> (r: &mut Cell)
        ensures
            (*r)@ == (old(self).symbol@, style),
            *final(self) == *final(r),
    {
        self.style = style;
        self
    }

    /// Puts a single space back with the default style.
    pub fn reset(&mut self)
        ensures
            final(self)@ == blank_cell(),
    {
        self.symbol = String::from_str(" ");
        proof {
            reveal_strlit(" ");
        }
        self.style.reset();
    }
}

/// Calls `char::to_string`. The contract claims that the string holds exactly the character.
#[verifier::external_body]
pub(crate) fn char_string(ch: char) -> (s: String)
    ensures
        s@ == seq![ch],
{
    ch.to_string()
}


/// A grid of cells that maps to the desired content of the terminal after a draw call.
/// Cell `(x, y)` of the area sits at index `(y - area.y) * area.width + (x - area.x)`.
#[derive(Debug, PartialEq)]
pub struct Buffer {
    /// The area represented by this buffer
    pub area: Rect,
    /// The content of the buffer, row by row.
    pub content: Vec<Cell>,
}

impl Default for Buffer {
    fn default() -> (b: Buffer)
        ensures
            b.area == (Rect { x: 0, y: 0, width: 0, height: 0 }),
            b.content@.len() == 0,
    {
        Buffer { area: Rect { x: 0, y: 0, width: 0, height: 0 }, content: Vec::new() }
    }
}

/// Whether an area can back a buffer: its number of cells fits in a `u16`.
pub open spec fn area_fits(area: Rect) -> bool {
    area.width * area.height <= u16::MAX
}

/// Whether a buffer can cover `area`: its cell count fits in a `u16`.
pub fn can_hold(area: Rect) -> (r: bool)
    ensures r == area_fits(area),
{
    assert((area.width as u32) * (area.height as u32) <= 65535 * 65535) by (nonlinear_arith)
        requires area.width <= 65535, area.height <= 65535;
    (area.width as u32) * (area.height as u32) <= 65535
}

/// The index of cell `(x, y)` in the content of a buffer over `area`.
pub open spec fn index_in(area: Rect, x: int, y: int) -> int {
    (y - area.y) * area.width + (x - area.x)
}

/// The cell coordinates of index `i` in the content of a buffer over `area`.
pub open spec fn pos_in(area: Rect, i: int) -> (int, int) {
    (area.x + i % (area.width as int), area.y + i / (area.width as int))
}

/// The cell `(x, y)` of `area` has an index within the area, which gives back its coordinates.
pub proof fn lemma_index_bound(area: Rect, x: int, y: int)
    requires
        area.contains_point(x, y),
    ensures
        0 <= index_in(area, x, y) < area.width * area.height,
        index_in(area, x, y) % (area.width as int) == x - area.x,
        index_in(area, x, y) / (area.width as int) == y - area.y,
{
    let (w, h, dx, dy) = (area.width as int, area.height as int, x - area.x, y - area.y);
    assert(0 <= dy * w + dx < h * w) by (nonlinear_arith)
        requires 0 <= dx < w, 0 <= dy < h;
    assert(w * h == h * w) by (nonlinear_arith);
    vstd::arithmetic::div_mod::lemma_fundamental_div_mod_converse(dy * w + dx, w, dy, dx);
}

impl Clone for Buffer {
    fn clone(&self) -> (b: Buffer)
        ensures
            b.area == self.area,
            b.content@.len() == self.content@.len(),
            b.cells() == self.cells(),
    {
        let mut content: Vec<Cell> = Vec::new();
        for i in 0..self.content.len()
            invariant
                content@.len() == i,
                forall|j: int| 0 <= j < i ==> (#[trigger] content@[j])@ == self.content@[j]@,
        {
            content.push(self.content[i].clone());
        }
        let b = Buffer { area: self.area, content };
        assert(b.cells() =~= self.cells());
        b
    }
}

impl Buffer {
    /// The content length matches the area, and the area's cell count fits in a `u16`.
    pub open spec fn wf(&self) -> bool {
        &&& area_fits(self.area)
        &&& self.content@.len() == self.area.width * self.area.height
    }

    /// The cells of the buffer.
    pub open spec fn cells(&self) -> Seq<(Seq<char>, Style)> {
        self.content@.map_values(|c: Cell| c@)
    }

    /// The cell at `(x, y)`.
    pub open spec fn cell_at(&self, x: int, y: int) -> (Seq<char>, Style) {
        self.content@[index_in(self.area, x, y)]@
    }

    /// A buffer over `area` with all cells set to the default one.
    pub fn empty(area: Rect) -> (b: Buffer)
        requires
            area_fits(area),
        ensures
            b.wf(),
            b.area == area,
            forall|i: int| 0 <= i < b.content@.len() ==> (#[trigger] b.content@[i])@ == blank_cell(),
    {
        let cell = Cell::default();
        Buffer::filled(area, &cell)
    }

    /// A buffer over `area` with all cells equal to `cell`.
    pub fn filled(area: Rect, cell: &Cell) -> (b: Buffer)
        requires
            area_fits(area),
        ensures
            b.wf(),
            b.area == area,
            forall|i: int| 0 <= i < b.content@.len() ==> (#[trigger] b.content@[i])@ == cell@,
    {
        let size = area.area() as usize;
        let mut content: Vec<Cell> = Vec::with_capacity(size);
        for k in 0..size
            invariant
                content@.len() == k,
                forall|i: int| 0 <= i < k ==> (#[trigger] content@[i])@ == cell@,
        {
            content.push(cell.clone());
        }
        Buffer { area, content }
    }

    /// The content of the buffer as a slice.
    pub fn content(&self) -> (c: &[Cell])
        ensures
            c@ == self.content@,
    {
        self.content.as_slice()
    }

    /// The area covered by this buffer.
    pub fn area(&self) -> (a: &Rect)
        ensures
            *a == self.area,
    {
        &self.area
    }

    /// The index in the content of the cell at the global coordinates `(x, y)`.
    pub fn index_of(&self, x: u16, y: u16) -> (i: usize)
        requires
            self.wf(),
            self.area.contains_point(x as int, y as int),
        ensures
            i == index_in(self.area, x as int, y as int),
            i < self.content@.len(),
    {
        proof {
            lemma_index_bound(self.area, x as int, y as int);
        }
        ((y - self.area.y) * self.area.width + (x - self.area.x)) as usize
    }

    /// The global coordinates of the cell at index `i` of the content.
    pub fn pos_of(&self, i: usize) -> (p: (u16, u16))
        requires
            self.wf(),
            i < self.content@.len(),
            pos_in(self.area, i as int).0 <= u16::MAX,
            pos_in(self.area, i as int).1 <= u16::MAX,
        ensures
            p.0 == pos_in(self.area, i as int).0,
            p.1 == pos_in(self.area, i as int).1,
    {
        proof {
            assert(self.area.width > 0) by (nonlinear_arith)
                requires i < self.area.width * self.area.height, i >= 0;
        }
        let j = i as u16;
        (self.area.x + j % self.area.width, self.area.y + j / self.area.width)
    }

    /// The cell at `(x, y)`.
    pub fn get(&self, x: u16, y: u16) -> (c: &Cell)
        requires
            self.wf(),
            self.area.contains_point(x as int, y as int),
        ensures
            *c == self.content@[index_in(self.area, x as int, y as int)],
    {
        let i = self.index_of(x, y);
        &self.content[i]
    }

    /// The cell at `(x, y)`, to change it.
    pub fn get_mut(&mut self, x: u16, y: u16) -> (c: &mut Cell)
        requires
            old(self).wf(),
            old(self).area.contains_point(x as int, y as int),
        ensures
            *c == old(self).content@[index_in(old(self).area, x as int, y as int)],
            final(self).area == old(self).area,
            final(self).content@ == old(self).content@.update(
                index_in(old(self).area, x as int, y as int),
                *final(c),
            ),
    {
        let i = self.index_of(x, y);
        &mut self.content[i]
    }
}

impl Buffer {
    /// Prints at most the first `limit` grapheme clusters of a string from `(x, y)` on, as far
    /// as the end of the line.
    pub fn set_stringn(&mut self, x: u16, y: u16, string: &str, limit: usize, style: Style)
        requires
            old(self).wf(),
            old(self).area.contains_point(x as int, y as int),
        ensures
            final(self).wf(),
            final(self).area == old(self).area,
            final(self).cells() == string_cells(
                old(self).area,
                old(self).cells(),
                x as int,
                y as int,
                string@,
                limit as int,
                style,
            ),
    {
        let start = self.index_of(x, y);
        let graphemes = graphemes_of(string);
        let room = (self.area.right() - x) as usize;
        let max_index = if room < limit { room } else { limit };
        let n = if max_index < graphemes.len() { max_index } else { graphemes.len() };
        let ghost old_content = self.content@;
        proof {
            lemma_row_room(self.area, x as int, y as int);
        }
        let mut k: usize = 0;
        while k < n
            invariant
                k <= n,
                n == written_count(self.area.spec_right() - x, limit as int, grapheme_clusters(string@).len() as int),
                start == index_in(self.area, x as int, y as int),
                start + n <= self.content@.len(),
                self.wf(),
                self.area == old(self).area,
                self.content@.len() == old_content.len(),
                graphemes@.len() == grapheme_clusters(string@).len(),
                forall|i: int| 0 <= i < graphemes@.len() ==> (#[trigger] graphemes@[i])@ == grapheme_clusters(string@)[i],
                forall|i: int| 0 <= i < self.content@.len() ==> (#[trigger] self.content@[i])@ == (
                    if start <= i < start + k {
                        (grapheme_clusters(string@)[i - start], style)
                    } else {
                        old_content[i]@
                    }),
            decreases n - k,
        {
            let cell = Cell { symbol: String::from_str(graphemes[k]), style };
            self.content.set(start + k, cell);
            k = k + 1;
        }
        assert(self.cells() =~= string_cells(old(self).area, old(self).cells(), x as int, y as int, string@, limit as int, style));
    }

    /// Prints a string from `(x, y)` on, as far as the end of the line.
    pub fn set_string(&mut self, x: u16, y: u16, string: &str, style: Style)
        requires
            old(self).wf(),
            old(self).area.contains_point(x as int, y as int),
        ensures
            final(self).wf(),
            final(self).area == old(self).area,
            final(self).cells() == string_cells(
                old(self).area,
                old(self).cells(),
                x as int,
                y as int,
                string@,
                usize::MAX as int,
                style,
            ),
    {
        self.set_stringn(x, y, string, usize::MAX, style);
    }
}

/// The cells, the next column and the width left after the first `k` spans are printed from
/// `(x, y)` on within `width` columns, each span in its own style, one grapheme cluster per
/// cell. Printing stops once no width is left or the next column is outside the buffer.
pub open spec fn spans_run(
    area: Rect,
    cells: Seq<(Seq<char>, Style)>,
    x: int,
    y: int,
    spans: Seq<Span>,
    width: int,
    k: int,
) -> (Seq<(Seq<char>, Style)>, int, int)
    decreases k,
{
    if k <= 0 {
        (cells, x, width)
    } else {
        let (c, x1, r1) = spans_run(area, cells, x, y, spans, width, k - 1);
        if r1 <= 0 || !area.contains_point(x1, y) {
            (c, x1, r1)
        } else {
            let sp = spans[k - 1];
            let n = written_count(area.spec_right() - x1, r1, grapheme_clusters(sp.content@).len() as int);
            (string_cells(area, c, x1, y, sp.content@, r1, sp.style), x1 + n, r1 - n)
        }
    }
}

impl Buffer {
    /// Prints the spans of a line from `(x, y)` on, each in its own style, within `width`
    /// columns, and gives the position after the last cell printed.
    pub fn set_spans(&mut self, x: u16, y: u16, spans: &Spans, width: u16) -> (p: (u16, u16))
        requires
            old(self).wf(),
        ensures
            final(self).wf(),
            final(self).area == old(self).area,
            final(self).cells() == spans_run(old(self).area, old(self).cells(), x as int, y as int, spans.0@, width as int, spans.0@.len() as int).0,
            p.0 == spans_run(old(self).area, old(self).cells(), x as int, y as int, spans.0@, width as int, spans.0@.len() as int).1,
            p.1 == y,
    {
        let ghost c0 = self.cells();
        let mut remaining: u16 = width;
        let mut cx = x;
        let n = spans.0.len();
        let mut k: usize = 0;
        while k < n
            invariant_except_break
                (self.cells(), cx as int, remaining as int) == spans_run(self.area, c0, x as int, y as int, spans.0@, width as int, k as int),
            invariant
                self.wf(),
                self.area == old(self).area,
                n == spans.0@.len(),
                k <= n,
            ensures
                (self.cells(), cx as int, remaining as int) == spans_run(self.area, c0, x as int, y as int, spans.0@, width as int, n as int),
            decreases n - k,
        {
            let inside = self.area.x <= cx && (cx as u32) < self.area.x as u32 + self.area.width as u32
                && self.area.y <= y && (y as u32) < self.area.y as u32 + self.area.height as u32;
            if remaining == 0 || !inside {
                proof {
                    lemma_spans_run_stopped(self.area, c0, x as int, y as int, spans.0@, width as int, k as int, n as int);
                }
                break;
            }
            let span = &spans.0[k];
            let clusters = graphemes_of(span.content.as_str()).len();
            let right = self.area.right();
            let room = (right - cx) as usize;
            let m = if room < remaining as usize { room } else { remaining as usize };
            let written = if m < clusters { m } else { clusters };
            self.set_stringn(cx, y, span.content.as_str(), remaining as usize, span.style);
            cx = cx + written as u16;
            remaining = remaining - written as u16;
            k = k + 1;
        }
        (cx, y)
    }
}

/// Once printing has stopped, the later spans print nothing.
proof fn lemma_spans_run_stopped(
    area: Rect,
    cells: Seq<(Seq<char>, Style)>,
    x: int,
    y: int,
    spans: Seq<Span>,
    width: int,
    k: int,
    n: int,
)
    requires
        0 <= k <= n,
        spans_run(area, cells, x, y, spans, width, k).2 <= 0 || !area.contains_point(spans_run(area, cells, x, y, spans, width, k).1, y),
    ensures
        spans_run(area, cells, x, y, spans, width, n) == spans_run(area, cells, x, y, spans, width, k),
    decreases n - k,
{
    if k < n {
        lemma_spans_run_stopped(area, cells, x, y, spans, width, k, n - 1);
    }
}

/// The cells after printing `string` from `(x, y)` on: the first `min(right - x, limit,
/// clusters)` grapheme clusters of the string, one per cell, with `style`.
pub open spec fn string_cells(
    area: Rect,
    cells: Seq<(Seq<char>, Style)>,
    x: int,
    y: int,
    string: Seq<char>,
    limit: int,
    style: Style,
) -> Seq<(Seq<char>, Style)> {
    let start = index_in(area, x, y);
    let gs = grapheme_clusters(string);
    let n = written_count(area.spec_right() - x, limit, gs.len() as int);
    Seq::new(cells.len(), |i: int| if start <= i < start + n { (gs[i - start], style) } else { cells[i] })
}

/// How many clusters `set_stringn` writes: no more than the room left on the line, the limit, and
/// the number of clusters.
pub open spec fn written_count(room: int, limit: int, clusters: int) -> int {
    let m = if room < limit { room } else { limit };
    if m < clusters { m } else { clusters }
}

proof fn lemma_row_room(area: Rect, x: int, y: int)
    requires
        area.contains_point(x, y),
        area_fits(area),
    ensures
        index_in(area, x, y) + (area.spec_right() - x) <= area.width * area.height,
{
    let (w, h, dx, dy) = (area.width as int, area.height as int, x - area.x, y - area.y);
    assert(dy * w + w <= h * w) by (nonlinear_arith)
        requires 0 <= dy < h, w >= 0;
    assert(w * h == h * w) by (nonlinear_arith);
}

/// The cell at position `j` of the merge of `other` into `b`, over `area`: the cell of `other`
/// where it covers the position, else the cell of `b` where it covers it, else a blank cell.
pub open spec fn merged_cell(b: Buffer, other: Buffer, area: Rect, j: int) -> (Seq<char>, Style) {
    let (x, y) = pos_in(area, j);
    if other.area.contains_point(x, y) {
        other.cell_at(x, y)
    } else if b.area.contains_point(x, y) {
        b.cell_at(x, y)
    } else {
        blank_cell()
    }
}

impl Buffer {
    /// Resizes the buffer so that it maps `area` and its length is `area.width * area.height`:
    /// the content is cut, or extended with blank cells.
    pub fn resize(&mut self, area: Rect)
        requires
            area_fits(area),
        ensures
            final(self).wf(),
            final(self).area == area,
            forall|i: int| 0 <= i < final(self).content@.len() ==> (#[trigger] final(self).content@[i])@ == (
                if i < old(self).content@.len() { old(self).content@[i]@ } else { blank_cell() }),
    {
        let length = area.area() as usize;
        if self.content.len() > length {
            self.content.truncate(length);
        } else {
            let ghost old_content = self.content@;
            while self.content.len() < length
                invariant
                    self.content@.len() <= length,
                    old_content.len() <= self.content@.len(),
                    forall|i: int| 0 <= i < self.content@.len() ==> (#[trigger] self.content@[i])@ == (
                        if i < old_content.len() { old_content[i]@ } else { blank_cell() }),
                decreases length - self.content@.len(),
            {
                self.content.push(Cell::default());
            }
        }
        self.area = area;
    }

    /// Resets every cell to a blank one.
    pub fn reset(&mut self)
        ensures
            final(self).area == old(self).area,
            final(self).content@.len() == old(self).content@.len(),
            forall|i: int| 0 <= i < final(self).content@.len() ==> (#[trigger] final(self).content@[i])@ == blank_cell(),
    {
        let n = self.content.len();
        for k in 0..n
            invariant
                n == self.content@.len(),
                self.area == old(self).area,
                self.content@.len() == old(self).content@.len(),
                forall|i: int| 0 <= i < k ==> (#[trigger] self.content@[i])@ == blank_cell(),
        {
            self.content.set(k, Cell::default());
        }
    }

    /// Merges another buffer into this one: the buffer grows to the union of the two areas,
    /// keeps its own cells, and takes the other buffer's cells where the other buffer covers.
    pub fn merge(&mut self, other: &Buffer)
        requires
            old(self).wf(),
            other.wf(),
            old(self).area.edges_fit(),
            other.area.edges_fit(),
            area_fits(old(self).area.spec_union(other.area)),
        ensures
            final(self).wf(),
            final(self).area == old(self).area.spec_union(other.area),
            forall|j: int| 0 <= j < final(self).content@.len() ==> (#[trigger] final(self).content@[j])@
                == merged_cell(*old(self), *other, final(self).area, j),
    {
        let area = self.area.union(other.area);
        let size = area.area() as usize;
        let mut content: Vec<Cell> = Vec::with_capacity(size);
        for j in 0..size
            invariant
                size == area.width * area.height,
                area_fits(area),
                area == old(self).area.spec_union(other.area),
                self.wf(),
                other.wf(),
                *self == *old(self),
                old(self).area.edges_fit(),
                other.area.edges_fit(),
                content@.len() == j,
                forall|i: int| 0 <= i < j ==> (#[trigger] content@[i])@ == merged_cell(*old(self), *other, area, i),
        {
            proof {
                lemma_index_pos_roundtrip(area, j as int, 0, 0);
                assert(area.width > 0) by (nonlinear_arith) requires j < area.width * area.height, j >= 0;
                assert(area.edges_fit());
                assert(j as u16 as int == j);
            }
            let px = area.x + (j as u16) % area.width;
            let py = area.y + (j as u16) / area.width;
            let cell = if other.area.x <= px && px < other.area.x + other.area.width && other.area.y <= py
                && py < other.area.y + other.area.height {
                other.get(px, py).clone()
            } else if self.area.x <= px && px < self.area.x + self.area.width && self.area.y <= py
                && py < self.area.y + self.area.height {
                self.get(px, py).clone()
            } else {
                Cell::default()
            };
            content.push(cell);
        }
        self.area = area;
        self.content = content;
    }
}

/// The widest line of `lines`, counted in grapheme clusters, each count cut to its low 16 bits.
pub open spec fn widest_line(lines: Seq<Seq<char>>) -> u16
    decreases lines.len(),
{
    if lines.len() == 0 {
        0
    } else {
        let w = (grapheme_clusters(lines.last()).len() % 0x1_0000) as u16;
        let rest = widest_line(lines.drop_last());
        if w >= rest { w } else { rest }
    }
}

/// The cell at `(x, y)` of a buffer built from `lines` with `width` columns: the `x`th cluster of
/// line `y` if the line has one and it fits, else a blank cell.
pub open spec fn line_cell(lines: Seq<Seq<char>>, width: int, x: int, y: int) -> (Seq<char>, Style) {
    let gs = grapheme_clusters(lines[y]);
    if x < gs.len() && x < width {
        (gs[x], default_style())
    } else {
        blank_cell()
    }
}

impl Buffer {
    /// A buffer whose rows hold the given lines, as wide as the widest line.
    pub fn with_lines(lines: Vec<&str>) -> (b: Buffer)
        requires
            lines@.len() <= u16::MAX,
            widest_line(lines@.map_values(|l: &str| l@)) * lines@.len() <= u16::MAX,
            lines@.len() > 0 ==> widest_line(lines@.map_values(|l: &str| l@)) > 0,
        ensures
            b.wf(),
            b.area == (Rect {
                x: 0,
                y: 0,
                width: widest_line(lines@.map_values(|l: &str| l@)),
                height: lines@.len() as u16,
            }),
            forall|x: int, y: int| b.area.contains_point(x, y) ==> #[trigger] b.cell_at(x, y)
                == line_cell(lines@.map_values(|l: &str| l@), b.area.width as int, x, y),
    {
        let ghost ls = lines@.map_values(|l: &str| l@);
        let height = lines.len() as u16;
        let mut width: u16 = 0;
        let mut i: usize = 0;
        while i < lines.len()
            invariant
                i <= lines@.len(),
                ls == lines@.map_values(|l: &str| l@),
                width == widest_line(ls.take(i as int)),
            decreases lines@.len() - i,
        {
            let count = graphemes_of(lines[i]).len();
            let w = (count % 0x1_0000) as u16;
            proof {
                assert(ls.take(i + 1).drop_last() =~= ls.take(i as int));
                assert(ls.take(i + 1).last() == lines@[i as int]@);
            }
            if w >= width {
                width = w;
            }
            i = i + 1;
        }
        assert(ls.take(lines@.len() as int) =~= ls);
        let area = Rect { x: 0, y: 0, width, height };
        assert(width * height <= u16::MAX);
        let mut buffer = Buffer::empty(area);
        assert forall|px: int, py: int| area.contains_point(px, py) implies #[trigger] buffer.cell_at(px, py)
            == blank_cell() by {
            lemma_index_bound(area, px, py);
        }
        let mut y: usize = 0;
        while y < lines.len()
            invariant
                y <= lines@.len(),
                lines@.len() <= u16::MAX,
                ls == lines@.map_values(|l: &str| l@),
                buffer.wf(),
                buffer.area == area,
                area.x == 0 && area.y == 0 && area.width == width && area.height == lines@.len(),
                lines@.len() > 0 ==> width > 0,
                forall|px: int, py: int| area.contains_point(px, py) ==> #[trigger] buffer.cell_at(px, py)
                    == if py < y { line_cell(ls, width as int, px, py) } else { blank_cell() },
            decreases lines@.len() - y,
        {
            let ghost before = buffer;
            buffer.set_string(0, y as u16, lines[y], Style::new());
            proof {
                assert forall|px: int, py: int| area.contains_point(px, py) implies #[trigger] buffer.cell_at(px, py)
                    == if py < y + 1 { line_cell(ls, width as int, px, py) } else { blank_cell() } by {
                    lemma_index_bound(area, px, py);
                    lemma_index_bound(area, 0, y as int);
                    lemma_row_room(area, 0, y as int);
                    let k = index_in(area, px, py);
                    let start = index_in(area, 0, y as int);
                    assert(buffer.cells()[k] == buffer.content@[k]@);
                    assert(before.cell_at(px, py) == before.content@[k]@);
                    assert(before.cell_at(px, py) == if py < y { line_cell(ls, width as int, px, py) } else { blank_cell() });
                    assert(ls[py] == lines@[py]@);
                    if py == y {
                        assert(k == start + px);
                    } else if py < y {
                        assert(k < start) by (nonlinear_arith)
                            requires k == py * width + px, start == y * width, 0 <= px < width, py < y;
                    } else {
                        assert(k >= start + width) by (nonlinear_arith)
                            requires k == py * width + px, start == y * width, 0 <= px, py > y;
                    }
                }
            }
            y = y + 1;
        }
        buffer
    }
}

/// The views of a row of cells.
pub open spec fn cells_view(row: Seq<Cell>) -> Seq<(Seq<char>, Style)> {
    row.map_values(|c: Cell| c@)
}

/// The cells after the first `n` cells of `row` are written from `(x, y)` on, one per column.
pub open spec fn row_written(
    area: Rect,
    cells: Seq<(Seq<char>, Style)>,
    x: int,
    y: int,
    row: Seq<(Seq<char>, Style)>,
    n: int,
) -> Seq<(Seq<char>, Style)> {
    let start = index_in(area, x, y);
    Seq::new(cells.len(), |i: int| if start <= i < start + n { row[i - start] } else { cells[i] })
}

/// Writes copies of the first `n` cells of `row` from `(x, y)` on, one per column.
pub(crate) fn write_cells(buf: &mut Buffer, x: u16, y: u16, row: &Vec<Cell>, n: usize)
    requires
        old(buf).wf(),
        old(buf).area.contains_point(x as int, y as int),
        n <= row@.len(),
        x + n <= old(buf).area.spec_right(),
    ensures
        final(buf).wf(),
        final(buf).area == old(buf).area,
        final(buf).cells() == row_written(old(buf).area, old(buf).cells(), x as int, y as int, cells_view(row@), n as int),
{
    let start = buf.index_of(x, y);
    let ghost old_content = buf.content@;
    proof {
        lemma_row_room(buf.area, x as int, y as int);
    }
    let mut k: usize = 0;
    while k < n
        invariant
            k <= n,
            n <= row@.len(),
            start == index_in(buf.area, x as int, y as int),
            start + n <= buf.content@.len(),
            buf.wf(),
            buf.area == old(buf).area,
            buf.content@.len() == old_content.len(),
            forall|i: int| 0 <= i < buf.content@.len() ==> (#[trigger] buf.content@[i])@ == (
                if start <= i < start + k {
                    row@[i - start]@
                } else {
                    old_content[i]@
                }),
        decreases n - k,
    {
        let cell = row[k].clone();
        buf.content.set(start + k, cell);
        k = k + 1;
    }
    assert(buf.cells() =~= row_written(old(buf).area, old(buf).cells(), x as int, y as int, cells_view(row@), n as int));
}

/// The indices `0..k` at which two runs of cells differ, in order.
pub open spec fn changed_indices(prev: Seq<(Seq<char>, Style)>, next: Seq<(Seq<char>, Style)>, k: int) -> Seq<int>
    decreases k,
{
    if k <= 0 {
        seq![]
    } else {
        let before = changed_indices(prev, next, k - 1);
        if prev[k - 1] != next[k - 1] { before.push(k - 1) } else { before }
    }
}

/// The changed indices below `k` are exactly the indices below `k` where the two runs differ,
/// each once, in increasing order.
pub proof fn lemma_changed_indices_exact(prev: Seq<(Seq<char>, Style)>, next: Seq<(Seq<char>, Style)>, k: int)
    requires
        0 <= k <= prev.len(),
        prev.len() == next.len(),
    ensures
        forall|i: int| 0 <= i < k ==> (changed_indices(prev, next, k).contains(i) <==> prev[i] != next[i]),
        forall|j: int| 0 <= j < changed_indices(prev, next, k).len() ==> 0 <= #[trigger] changed_indices(prev, next, k)[j] < k,
        forall|a: int, b: int|
            0 <= a < b < changed_indices(prev, next, k).len() ==> changed_indices(prev, next, k)[a] < changed_indices(prev, next, k)[b],
    decreases k,
{
    if k > 0 {
        lemma_changed_indices_exact(prev, next, k - 1);
        let before = changed_indices(prev, next, k - 1);
        let now = changed_indices(prev, next, k);
        assert forall|i: int| 0 <= i < k implies (now.contains(i) <==> prev[i] != next[i]) by {
            if prev[k - 1] != next[k - 1] {
                assert(now == before.push(k - 1));
                if i == k - 1 {
                    assert(now[before.len() as int] == i);
                } else if now.contains(i) {
                    let j = choose|j: int| 0 <= j < now.len() && now[j] == i;
                    assert(j < before.len());
                    assert(before[j] == i);
                } else if before.contains(i) {
                    let j = choose|j: int| 0 <= j < before.len() && before[j] == i;
                    assert(now[j] == i);
                }
            } else {
                assert(now == before);
                if i == k - 1 && now.contains(i) {
                    let j = choose|j: int| 0 <= j < now.len() && now[j] == i;
                    assert(before[j] < k - 1);
                }
            }
        }
    }
}

/// Drawing the cells of `next` at the changed indices over `prev` gives `next`: once a backend
/// has drawn the updates of `diff`, the screen that showed the previous buffer shows the new one.
pub proof fn lemma_diff_redraws(prev: Seq<(Seq<char>, Style)>, next: Seq<(Seq<char>, Style)>)
    requires
        prev.len() == next.len(),
    ensures
        Seq::new(
            prev.len(),
            |i: int| if changed_indices(prev, next, prev.len() as int).contains(i) { next[i] } else { prev[i] },
        ) == next,
{
    lemma_changed_indices_exact(prev, next, prev.len() as int);
    let drawn = Seq::new(
        prev.len(),
        |i: int| if changed_indices(prev, next, prev.len() as int).contains(i) { next[i] } else { prev[i] },
    );
    assert(drawn =~= next);
}

/// Whether `u` is the update of the cell at index `i` of `b`: its coordinates relative to the
/// area's top left corner, and the cell.
pub open spec fn update_at(u: (u16, u16, &Cell), i: int, b: &Buffer) -> bool {
    &&& 0 <= i < b.content@.len()
    &&& u.0 == i % (b.area.width as int)
    &&& u.1 == i / (b.area.width as int)
    &&& *u.2 == b.content@[i]
}

impl Buffer {
    /// The cells of `other` that differ from the cells of `self` at the same index, with their
    /// coordinates relative to the area's top left corner, in order: what a backend must draw to
    /// go from `self` to `other`.
    pub fn diff<'a>(&self, other: &'a Buffer) -> (updates: Vec<(u16, u16, &'a Cell)>)
        requires
            self.wf(),
            other.wf(),
            self.area.width == other.area.width,
            self.area.height == other.area.height,
        ensures
            updates@.len() == changed_indices(self.cells(), other.cells(), other.content@.len() as int).len(),
            forall|j: int| 0 <= j < updates@.len() ==> update_at(updates@[j], #[trigger] changed_indices(self.cells(), other.cells(), other.content@.len() as int)[j], other),
    {
        let mut updates: Vec<(u16, u16, &'a Cell)> = Vec::new();
        let width = other.area.width;
        let n = other.content.len();
        let mut i: usize = 0;
        while i < n
            invariant
                i <= n,
                n == other.content@.len(),
                self.content@.len() == n,
                other.wf(),
                width == other.area.width,
                updates@.len() == changed_indices(self.cells(), other.cells(), i as int).len(),
                forall|j: int| 0 <= j < updates@.len() ==> #[trigger] changed_indices(self.cells(), other.cells(), i as int)[j] < i
                    && update_at(updates@[j], changed_indices(self.cells(), other.cells(), i as int)[j], other),
            decreases n - i,
        {
            let previous = &self.content[i];
            let current = &other.content[i];
            let same = previous.symbol == current.symbol && previous.style == current.style;
            proof {
                assert(same == (self.cells()[i as int] == other.cells()[i as int]));
                assert(other.area.width > 0) by (nonlinear_arith)
                    requires i < other.area.width * other.area.height, i >= 0;
                assert((i as int) / (width as int) < other.area.height) by (nonlinear_arith)
                    requires i < width * other.area.height, width > 0, i >= 0;
            }
            let ghost before = updates@;
            if !same {
                proof {
                    assert((i as int) % (width as int) < width) by (nonlinear_arith)
                        requires width > 0, i >= 0;
                }
                let x = (i % (width as usize)) as u16;
                let y = (i / (width as usize)) as u16;
                assert(x == (i as int) % (width as int));
                assert(y == (i as int) / (width as int));
                updates.push((x, y, current));
            }
            proof {
                let c0 = changed_indices(self.cells(), other.cells(), i as int);
                let c1 = changed_indices(self.cells(), other.cells(), i + 1);
                assert(c1 == if !same { c0.push(i as int) } else { c0 });
                assert forall|j: int| 0 <= j < updates@.len() implies #[trigger] c1[j] < i + 1 && update_at(updates@[j], c1[j], other) by {
                    if j < c0.len() {
                        assert(c1[j] == c0[j]);
                        assert(updates@[j] == before[j]);
                        assert(c0[j] < i);
                        assert(update_at(before[j], c0[j], other));

                    } else {
                        assert(!same);
                        assert(j == c0.len());
                        assert(c1[j] == i);
                        assert(updates@[j].0 == (i as int) % (width as int));
                        assert(updates@[j].1 == (i as int) / (width as int));
                        assert(*updates@[j].2 == other.content@[i as int]);
                        assert(update_at(updates@[j], i as int, other));
                    }
                }
            }
            i = i + 1;
        }
        updates
    }
}

/// The cells after every cell of `region` got `symbol` and `style`.
pub open spec fn filled_cells(
    area: Rect,
    cells: Seq<(Seq<char>, Style)>,
    region: Rect,
    symbol: Seq<char>,
    style: Style,
) -> Seq<(Seq<char>, Style)> {
    Seq::new(
        cells.len(),
        |i: int|
            if region.contains_point(pos_in(area, i).0, pos_in(area, i).1) {
                (symbol, style)
            } else {
                cells[i]
            },
    )
}

/// How the cells of a region are restyled: their background color, both colors, their whole
/// style, or a style laid over theirs.
#[derive(Clone, Copy)]
pub enum Restyle {
    Background(Color),
    Colors(Color, Color),
    Whole(Style),
    Patch(Style),
}

/// The style of a cell after it is restyled.
pub open spec fn restyled(old: Style, r: Restyle) -> Style {
    match r {
        Restyle::Background(color) => Style { bg: color, ..old },
        Restyle::Colors(fg, bg) => Style { fg, bg, ..old },
        Restyle::Whole(style) => style,
        Restyle::Patch(style) => old.spec_patch(style),
    }
}

/// The cells after every cell of `region` is restyled, keeping its symbol.
pub open spec fn restyled_cells(
    area: Rect,
    cells: Seq<(Seq<char>, Style)>,
    region: Rect,
    r: Restyle,
) -> Seq<(Seq<char>, Style)> {
    Seq::new(
        cells.len(),
        |i: int|
            if region.contains_point(pos_in(area, i).0, pos_in(area, i).1) {
                (cells[i].0, restyled(cells[i].1, r))
            } else {
                cells[i]
            },
    )
}

/// The cells after every cell of `region` got the background `color`.
pub open spec fn background_cells(
    area: Rect,
    cells: Seq<(Seq<char>, Style)>,
    region: Rect,
    color: Color,
) -> Seq<(Seq<char>, Style)> {
    restyled_cells(area, cells, region, Restyle::Background(color))
}

/// Whether `region` lies in the buffer's area and its edges stay below `u16::MAX`.
pub open spec fn region_in(buf: Buffer, region: Rect) -> bool {
    buf.area.contains_rect(region) && region.edges_fit()
}

/// The cell index `i` of `area` lies in `region` exactly when its coordinates do, cell by cell.
proof fn lemma_region_index(area: Rect, region: Rect, i: int, x: int, y: int)
    requires
        area.contains_rect(region),
        area.contains_point(x, y),
        i == index_in(area, x, y),
    ensures
        pos_in(area, i) == (x, y),
{
    lemma_index_pos_roundtrip(area, 0, x, y);
}

/// Gives every cell of `region` the symbol and the style, row by row.
#[verifier::spinoff_prover]
pub(crate) fn fill_region(buf: &mut Buffer, region: Rect, symbol: &str, style: Style)
    requires
        old(buf).wf(),
        region_in(*old(buf), region),
    ensures
        final(buf).wf(),
        final(buf).area == old(buf).area,
        final(buf).cells() == filled_cells(old(buf).area, old(buf).cells(), region, symbol@, style),
{
    let ghost area = buf.area;
    let ghost old_cells = buf.cells();
    let bottom = region.y + region.height;
    let right = region.x + region.width;
    let mut y = region.y;
    while y < bottom
        invariant
            region.y <= y <= bottom,
            bottom == region.y + region.height,
            right == region.x + region.width,
            buf.wf(),
            buf.area == area,
            region_in(*buf, region),
            old_cells.len() == buf.content@.len(),
            forall|i: int| 0 <= i < buf.content@.len() ==> (#[trigger] buf.content@[i])@ == (
                if region.contains_point(pos_in(area, i).0, pos_in(area, i).1) && pos_in(area, i).1 < y {
                    (symbol@, style)
                } else {
                    old_cells[i]
                }),
        decreases bottom - y,
    {
        let mut x = region.x;
        while x < right
            invariant
                region.x <= x <= right,
                region.y <= y < bottom,
                bottom == region.y + region.height,
                right == region.x + region.width,
                buf.wf(),
                buf.area == area,
                region_in(*buf, region),
                old_cells.len() == buf.content@.len(),
                forall|i: int| 0 <= i < buf.content@.len() ==> (#[trigger] buf.content@[i])@ == (
                    if region.contains_point(pos_in(area, i).0, pos_in(area, i).1) && (pos_in(area, i).1
                        < y || (pos_in(area, i).1 == y && pos_in(area, i).0 < x)) {
                        (symbol@, style)
                    } else {
                        old_cells[i]
                    }),
            decreases right - x,
        {
            let ghost before = buf.content@;
            proof {
                lemma_index_bound(area, x as int, y as int);
                lemma_region_index(area, region, index_in(area, x as int, y as int), x as int, y as int);
            }
            buf.get_mut(x, y).set_symbol(symbol).set_style(style);
            proof {
                let k = index_in(area, x as int, y as int);
                assert forall|i: int| 0 <= i < buf.content@.len() implies (#[trigger] buf.content@[i])@ == (
                    if region.contains_point(pos_in(area, i).0, pos_in(area, i).1) && (pos_in(area, i).1
                        < y || (pos_in(area, i).1 == y && pos_in(area, i).0 < x + 1)) {
                        (symbol@, style)
                    } else {
                        old_cells[i]
                    }) by {
                    if i != k {
                        assert(buf.content@[i] == before[i]);
                        assert(area.width > 0);
                        lemma_index_pos_roundtrip(area, i, 0, 0);
                    }
                }
            }
            x = x + 1;
        }
        y = y + 1;
    }
    assert(buf.cells() =~= filled_cells(area, old_cells, region, symbol@, style)) by {
        assert forall|i: int| 0 <= i < buf.content@.len() implies region.contains_point(pos_in(area, i).0, pos_in(area, i).1)
            ==> pos_in(area, i).1 < y by {}
    }
}

/// The cells after every cell of `region` got `symbol`, each keeping its style.
pub open spec fn symboled_cells(
    area: Rect,
    cells: Seq<(Seq<char>, Style)>,
    region: Rect,
    symbol: Seq<char>,
) -> Seq<(Seq<char>, Style)> {
    Seq::new(
        cells.len(),
        |i: int|
            if region.contains_point(pos_in(area, i).0, pos_in(area, i).1) {
                (symbol, cells[i].1)
            } else {
                cells[i]
            },
    )
}

/// Gives every cell of `region` the symbol, keeping its style, row by row.
#[verifier::spinoff_prover]
pub(crate) fn resymbol_region(buf: &mut Buffer, region: Rect, symbol: &str)
    requires
        old(buf).wf(),
        region_in(*old(buf), region),
    ensures
        final(buf).wf(),
        final(buf).area == old(buf).area,
        final(buf).cells() == symboled_cells(old(buf).area, old(buf).cells(), region, symbol@),
{
    let ghost area = buf.area;
    let ghost old_cells = buf.cells();
    let bottom = region.y + region.height;
    let right = region.x + region.width;
    let mut y = region.y;
    while y < bottom
        invariant
            region.y <= y <= bottom,
            bottom == region.y + region.height,
            right == region.x + region.width,
            buf.wf(),
            buf.area == area,
            region_in(*buf, region),
            old_cells.len() == buf.content@.len(),
            forall|i: int| 0 <= i < buf.content@.len() ==> (#[trigger] buf.content@[i])@ == (
                if region.contains_point(pos_in(area, i).0, pos_in(area, i).1) && pos_in(area, i).1 < y {
                    (symbol@, old_cells[i].1)
                } else {
                    old_cells[i]
                }),
        decreases bottom - y,
    {
        let mut x = region.x;
        while x < right
            invariant
                region.x <= x <= right,
                region.y <= y < bottom,
                bottom == region.y + region.height,
                right == region.x + region.width,
                buf.wf(),
                buf.area == area,
                region_in(*buf, region),
                old_cells.len() == buf.content@.len(),
                forall|i: int| 0 <= i < buf.content@.len() ==> (#[trigger] buf.content@[i])@ == (
                    if region.contains_point(pos_in(area, i).0, pos_in(area, i).1) && (pos_in(area, i).1
                        < y || (pos_in(area, i).1 == y && pos_in(area, i).0 < x)) {
                        (symbol@, old_cells[i].1)
                    } else {
                        old_cells[i]
                    }),
            decreases right - x,
        {
            let ghost before = buf.content@;
            proof {
                lemma_index_bound(area, x as int, y as int);
                lemma_region_index(area, region, index_in(area, x as int, y as int), x as int, y as int);
            }
            buf.get_mut(x, y).set_symbol(symbol);
            proof {
                let k = index_in(area, x as int, y as int);
                assert forall|i: int| 0 <= i < buf.content@.len() implies (#[trigger] buf.content@[i])@ == (
                    if region.contains_point(pos_in(area, i).0, pos_in(area, i).1) && (pos_in(area, i).1
                        < y || (pos_in(area, i).1 == y && pos_in(area, i).0 < x + 1)) {
                        (symbol@, old_cells[i].1)
                    } else {
                        old_cells[i]
                    }) by {
                    if i != k {
                        assert(buf.content@[i] == before[i]);
                        assert(area.width > 0);
                        lemma_index_pos_roundtrip(area, i, 0, 0);
                    }
                }
            }
            x = x + 1;
        }
        y = y + 1;
    }
    assert(buf.cells() =~= symboled_cells(area, old_cells, region, symbol@)) by {
        assert forall|i: int| 0 <= i < buf.content@.len() implies region.contains_point(pos_in(area, i).0, pos_in(area, i).1)
            ==> pos_in(area, i).1 < y by {}
    }
}

/// Restyles every cell of `region`, row by row.
#[verifier::spinoff_prover]
pub(crate) fn restyle_region(buf: &mut Buffer, region: Rect, r: Restyle)
    requires
        old(buf).wf(),
        region_in(*old(buf), region),
    ensures
        final(buf).wf(),
        final(buf).area == old(buf).area,
        final(buf).cells() == restyled_cells(old(buf).area, old(buf).cells(), region, r),
{
    let ghost area = buf.area;
    let ghost old_cells = buf.cells();
    let bottom = region.y + region.height;
    let right = region.x + region.width;
    let mut y = region.y;
    while y < bottom
        invariant
            region.y <= y <= bottom,
            bottom == region.y + region.height,
            right == region.x + region.width,
            buf.wf(),
            buf.area == area,
            region_in(*buf, region),
            old_cells.len() == buf.content@.len(),
            forall|i: int| 0 <= i < buf.content@.len() ==> (#[trigger] buf.content@[i])@ == (
                if region.contains_point(pos_in(area, i).0, pos_in(area, i).1) && pos_in(area, i).1 < y {
                    (old_cells[i].0, restyled(old_cells[i].1, r))
                } else {
                    old_cells[i]
                }),
        decreases bottom - y,
    {
        let mut x = region.x;
        while x < right
            invariant
                region.x <= x <= right,
                region.y <= y < bottom,
                bottom == region.y + region.height,
                right == region.x + region.width,
                buf.wf(),
                buf.area == area,
                region_in(*buf, region),
                old_cells.len() == buf.content@.len(),
                forall|i: int| 0 <= i < buf.content@.len() ==> (#[trigger] buf.content@[i])@ == (
                    if region.contains_point(pos_in(area, i).0, pos_in(area, i).1) && (pos_in(area, i).1
                        < y || (pos_in(area, i).1 == y && pos_in(area, i).0 < x)) {
                        (old_cells[i].0, restyled(old_cells[i].1, r))
                    } else {
                        old_cells[i]
                    }),
            decreases right - x,
        {
            let ghost before = buf.content@;
            proof {
                lemma_index_bound(area, x as int, y as int);
                lemma_region_index(area, region, index_in(area, x as int, y as int), x as int, y as int);
            }
            match r {
                Restyle::Background(color) => {
                    buf.get_mut(x, y).set_bg(color);
                },
                Restyle::Colors(fg, bg) => {
                    buf.get_mut(x, y).set_fg(fg).set_bg(bg);
                },
                Restyle::Whole(style) => {
                    buf.get_mut(x, y).set_style(style);
                },
                Restyle::Patch(style) => {
                    let cell = buf.get_mut(x, y);
                    let patched = cell.style.patch(style);
                    cell.set_style(patched);
                },
            }
            proof {
                let k = index_in(area, x as int, y as int);
                assert forall|i: int| 0 <= i < buf.content@.len() implies (#[trigger] buf.content@[i])@ == (
                    if region.contains_point(pos_in(area, i).0, pos_in(area, i).1) && (pos_in(area, i).1
                        < y || (pos_in(area, i).1 == y && pos_in(area, i).0 < x + 1)) {
                        (old_cells[i].0, restyled(old_cells[i].1, r))
                    } else {
                        old_cells[i]
                    }) by {
                    if i != k {
                        assert(buf.content@[i] == before[i]);
                        assert(area.width > 0);
                        lemma_index_pos_roundtrip(area, i, 0, 0);
                    }
                }
            }
            x = x + 1;
        }
        y = y + 1;
    }
    assert(buf.cells() =~= restyled_cells(area, old_cells, region, r)) by {
        assert forall|i: int| 0 <= i < buf.content@.len() implies region.contains_point(pos_in(area, i).0, pos_in(area, i).1)
            ==> pos_in(area, i).1 < y by {}
    }
}

/// Gives every cell of `region` the background color.
pub(crate) fn set_region_bg(buf: &mut Buffer, region: Rect, color: Color)
    requires
        old(buf).wf(),
        region_in(*old(buf), region),
    ensures
        final(buf).wf(),
        final(buf).area == old(buf).area,
        final(buf).cells() == background_cells(old(buf).area, old(buf).cells(), region, color),
{
    restyle_region(buf, region, Restyle::Background(color));
}

impl Buffer {
    /// Gives every cell of `area` the style, keeping its symbol.
    pub fn set_style(&mut self, area: Rect, style: Style)
        requires
            old(self).wf(),
            region_in(*old(self), area),
        ensures
            final(self).wf(),
            final(self).area == old(self).area,
            final(self).cells() == restyled_cells(old(self).area, old(self).cells(), area, Restyle::Whole(style)),
    {
        restyle_region(self, area, Restyle::Whole(style));
    }

    /// Gives every cell of `area` the background color, keeping the rest.
    pub fn set_background(&mut self, area: Rect, color: Color)
        requires
            old(self).wf(),
            region_in(*old(self), area),
        ensures
            final(self).wf(),
            final(self).area == old(self).area,
            final(self).cells() == background_cells(old(self).area, old(self).cells(), area, color),
    {
        restyle_region(self, area, Restyle::Background(color));
    }
}

/// Moving from a cell index to its coordinates and back gives the index again, and the other
/// way round.
pub proof fn lemma_index_pos_roundtrip(area: Rect, i: int, x: int, y: int)
    requires
        area.width > 0,
    ensures
        0 <= i < area.width * area.height ==> index_in(area, pos_in(area, i).0, pos_in(area, i).1) == i
            && area.contains_point(pos_in(area, i).0, pos_in(area, i).1),
        area.contains_point(x, y) ==> pos_in(area, index_in(area, x, y)) == (x, y),
{
    let w = area.width as int;
    if 0 <= i < area.width * area.height {
        vstd::arithmetic::div_mod::lemma_fundamental_div_mod(i, w);
        assert(i / w < area.height) by (nonlinear_arith)
            requires 0 <= i < w * area.height, w > 0, i == w * (i / w) + i % w, 0 <= i % w < w;
        assert(i / w >= 0) by (nonlinear_arith) requires i >= 0, w > 0;
        assert((i / w) * w == w * (i / w)) by (nonlinear_arith);
    }
    if area.contains_point(x, y) {
        lemma_index_bound(area, x, y);
    }
}

/// After a merge, each cell of the other buffer is found at its coordinates, and each cell of the
/// buffer that the other does not cover is kept at its coordinates.
pub proof fn lemma_merge_by_coordinates(b: Buffer, other: Buffer, merged: Buffer, x: int, y: int)
    requires
        b.area.edges_fit(),
        other.area.edges_fit(),
        merged.wf(),
        merged.area == b.area.spec_union(other.area),
        forall|j: int| 0 <= j < merged.content@.len() ==> (#[trigger] merged.content@[j])@ == merged_cell(b, other, merged.area, j),
    ensures
        other.area.contains_point(x, y) ==> merged.cell_at(x, y) == other.cell_at(x, y),
        b.area.contains_point(x, y) && !other.area.contains_point(x, y) ==> merged.cell_at(x, y) == b.cell_at(x, y),
{
    crate::layout::lemma_union_holds_both(b.area, other.area);
    if other.area.contains_point(x, y) || b.area.contains_point(x, y) {
        assert(merged.area.contains_point(x, y));
        lemma_index_bound(merged.area, x, y);
        lemma_index_pos_roundtrip(merged.area, 0, x, y);
        assert(merged.content@[index_in(merged.area, x, y)]@ == merged_cell(b, other, merged.area, index_in(merged.area, x, y)));
    }
}

} // verus!
