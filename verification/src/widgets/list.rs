//! A list of items, one of which may be selected, shown through a window that follows the
//! selection.
use vstd::prelude::*;

use crate::buffer::{region_in, restyled_cells, spans_run, string_cells, written_count, Buffer, Restyle};
use crate::layout::{Corner, Rect};
use crate::style::{default_style, Style};
use crate::text::{Spans, Text};
use crate::unicode::{display_width, grapheme_clusters, graphemes_of, width_of};
use crate::widgets::block::Block;
use crate::widgets::window::{heights_sum, lemma_sum_mono, lemma_sum_nonneg, lemma_window_shows_selected, visible_bounds, window};

verus! {

/// What a list keeps between two draws: the first item shown.
#[derive(Debug, Clone)]
pub struct ListState {
    pub offset: usize,
}

impl Default for ListState {
    fn default() -> (s: ListState)
        ensures s.offset == 0,
    {
        ListState { offset: 0 }
    }
}

/// An item of a list: some text, on one line or more, with a style.
#[derive(Debug)]
pub struct ListItem {
    pub content: Text,
    pub style: Style,
}

impl ListItem {
    pub fn new(content: Text) -> (item: ListItem)
        ensures
            item.content == content,
            item.style == default_style(),
    {
        ListItem { content, style: Style::new() }
    }

    pub fn style(self, style: Style) -> (item: ListItem)
        ensures
            item.content == self.content,
            item.style == style,
    {
        let mut item = self;
        item.style = style;
        item
    }

    /// The number of lines of the item.
    pub fn height(&self) -> (h: usize)
        ensures h == self.content.lines@.len(),
    {
        self.content.height()
    }
}

/// The heights of the items.
pub open spec fn item_heights(items: Seq<ListItem>) -> Seq<usize> {
    items.map_values(|item: ListItem| item.content.lines@.len() as usize)
}

/// The heights of the items, in a vector.
pub(crate) fn heights_of(items: &Vec<ListItem>) -> (hs: Vec<usize>)
    ensures hs@ == item_heights(items@),
{
    let mut hs: Vec<usize> = Vec::new();
    for i in 0..items.len()
        invariant
            hs@ == item_heights(items@.take(i as int)),
    {
        hs.push(items[i].height());
        assert(item_heights(items@.take(i + 1)) =~= item_heights(items@.take(i as int)).push(items@[i as int].content.lines@.len() as usize));
    }
    assert(items@.take(items@.len() as int) =~= items@);
    hs
}

/// A widget to display several items among which one can be selected.
pub struct List<'a> {
    pub block: Option<Block<'a>>,
    pub items: Vec<ListItem>,
    /// Style used as a base style for the widget
    pub style: Style,
    pub start_corner: Corner,
    /// Style used to render the selected item
    pub highlight_style: Style,
    /// Symbol in front of the selected item (shifts all items to the right)
    pub highlight_symbol: Option<&'a str>,
    pub selected: Option<usize>,
}

impl<'a> List<'a> {
    pub fn new(items: Vec<ListItem>) -> (l: List<'a>)
        ensures
            l.block.is_none(),
            l.items == items,
            l.style == default_style(),
            l.start_corner == Corner::TopLeft,
            l.highlight_style == default_style(),
            l.highlight_symbol.is_none(),
            l.selected.is_none(),
    {
        List {
            block: None,
            items,
            style: Style::new(),
            start_corner: Corner::TopLeft,
            highlight_style: Style::new(),
            highlight_symbol: None,
            selected: None,
        }
    }

    pub fn block(self, block: Block<'a>) -> (l: List<'a>)
        ensures l == (List { block: Some(block), ..self }),
    {
        let mut l = self;
        l.block = Some(block);
        l
    }

    pub fn style(self, style: Style) -> (l: List<'a>)
        ensures l == (List { style, ..self }),
    {
        let mut l = self;
        l.style = style;
        l
    }

    pub fn highlight_symbol(self, highlight_symbol: &'a str) -> (l: List<'a>)
        ensures l == (List { highlight_symbol: Some(highlight_symbol), ..self }),
    {
        let mut l = self;
        l.highlight_symbol = Some(highlight_symbol);
        l
    }

    pub fn highlight_style(self, style: Style) -> (l: List<'a>)
        ensures l == (List { highlight_style: style, ..self }),
    {
        let mut l = self;
        l.highlight_style = style;
        l
    }

    pub fn start_corner(self, corner: Corner) -> (l: List<'a>)
        ensures l == (List { start_corner: corner, ..self }),
    {
        let mut l = self;
        l.start_corner = corner;
        l
    }

    pub fn select(self, index: Option<usize>) -> (l: List<'a>)
        ensures l == (List { selected: index, ..self }),
    {
        let mut l = self;
        l.selected = index;
        l
    }

    /// The window of items shown in a viewport `list_height` rows high, and the new offset of the
    /// state, which is the window's start. Without a selection the window starts from the first
    /// item.
    pub fn visible_items(&self, state: &mut ListState, list_height: usize) -> (r: (usize, usize))
        requires
            self.items@.len() > 0,
            self.selected.is_some() ==> old(state).offset <= self.items@.len(),
            heights_sum(item_heights(self.items@), 0, self.items@.len() as int) <= usize::MAX,
        ensures
            ({
                let offset = if self.selected.is_some() { old(state).offset as int } else { 0 };
                let w = window(item_heights(self.items@), self.selected, offset, list_height as int);
                r.0 == w.0 && r.1 == w.1
            }),
            final(state).offset == r.0,
            r.0 <= r.1 <= self.items@.len(),
    {
        if self.selected.is_none() {
            state.offset = 0;
        }
        let hs = heights_of(&self.items);
        let (start, end) = visible_bounds(&hs, self.selected, state.offset, list_height);
        state.offset = start;
        (start, end)
    }
}

/// The cells after the first `k` lines are printed one a row from `(x, y)` on, each within
/// `width` columns.
pub open spec fn lines_run(
    buf_area: Rect,
    cells: Seq<(Seq<char>, Style)>,
    x: int,
    y: int,
    lines: Seq<Spans>,
    width: int,
    k: int,
) -> Seq<(Seq<char>, Style)>
    decreases k,
{
    if k <= 0 {
        cells
    } else {
        let c = lines_run(buf_area, cells, x, y, lines, width, k - 1);
        spans_run(buf_area, c, x, y + k - 1, lines[k - 1].0@, width, lines[k - 1].0@.len() as int).0
    }
}

/// Prints the lines one a row from `(x, y)` on, each within `width` columns.
pub(crate) fn draw_lines(buf: &mut Buffer, x: u16, y: u16, lines: &Vec<Spans>, width: u16)
    requires
        old(buf).wf(),
        y + lines@.len() <= u16::MAX,
    ensures
        final(buf).wf(),
        final(buf).area == old(buf).area,
        final(buf).cells() == lines_run(old(buf).area, old(buf).cells(), x as int, y as int, lines@, width as int, lines@.len() as int),
{
    let ghost c0 = buf.cells();
    let n = lines.len();
    for j in 0..n
        invariant
            buf.wf(),
            buf.area == old(buf).area,
            n == lines@.len(),
            y + n <= u16::MAX,
            buf.cells() == lines_run(buf.area, c0, x as int, y as int, lines@, width as int, j as int),
    {
        buf.set_spans(x, y + j as u16, &lines[j], width);
    }
}

/// The row where the item `i` of a window starting at `start` begins: from the top down, or,
/// from the bottom left corner, from the bottom up.
pub open spec fn item_row(hs: Seq<usize>, corner: Corner, la: Rect, start: int, i: int) -> int {
    match corner {
        Corner::BottomLeft => la.spec_bottom() - heights_sum(hs, start, i + 1),
        _ => la.y + heights_sum(hs, start, i),
    }
}

/// What stands in front of the items that are not selected: as many spaces as the symbol is
/// wide.
pub open spec fn blank_for(symbol: Seq<char>) -> Seq<char> {
    Seq::new(display_width(symbol) as nat, |i: int| ' ')
}

/// A string of `n` spaces.
pub(crate) fn spaces(n: usize) -> (s: String)
    ensures
        s@ == Seq::new(n as nat, |i: int| ' '),
{
    let space = " ";
    proof {
        reveal_strlit(" ");
    }
    let mut s = String::new();
    let mut k: usize = 0;
    while k < n
        invariant
            k <= n,
            space@ == seq![' '],
            s@ == Seq::new(k as nat, |i: int| ' '),
        decreases n - k,
    {
        s.append(space);
        assert(s@ =~= Seq::new((k + 1) as nat, |i: int| ' '));
        k = k + 1;
    }
    s
}

/// Whether the cell at `(x, y)` lies in `area`.
pub(crate) fn holds_cell(area: Rect, x: u16, y: u16) -> (b: bool)
    ensures
        b == area.contains_point(x as int, y as int),
{
    area.x <= x && (x as u32) < area.x as u32 + area.width as u32 && area.y <= y && (y as u32) < area.y as u32
        + area.height as u32
}

/// The cells after an item is drawn on its rows from `y` on in the list area `la`: the item's
/// style laid over the list's on its rows; where the list has a selection, the highlight symbol
/// (selected item) or blanks (the others) in front of it; its lines after that, within what is
/// left of the width; and the highlight style over the rows of the selected item.
pub open spec fn item_cells(
    buf_area: Rect,
    cells: Seq<(Seq<char>, Style)>,
    la: Rect,
    y: int,
    item: ListItem,
    base: Style,
    selection: Option<usize>,
    selected: bool,
    symbol: Seq<char>,
    highlight: Style,
) -> Seq<(Seq<char>, Style)> {
    let h = item.content.lines@.len();
    let r = Rect { x: la.x, y: y as u16, width: la.width, height: h as u16 };
    let item_style = base.spec_patch(item.style);
    let c1 = restyled_cells(buf_area, cells, r, Restyle::Whole(item_style));
    let sym = if selected { symbol } else { blank_for(symbol) };
    let prints_symbol = selection is Some && buf_area.contains_point(la.x as int, y);
    let c2 = if prints_symbol { string_cells(buf_area, c1, la.x as int, y, sym, la.width as int, item_style) } else { c1 };
    let ex = if prints_symbol {
        la.x + written_count(buf_area.spec_right() - la.x, la.width as int, grapheme_clusters(sym).len() as int)
    } else {
        la.x as int
    };
    let c3 = lines_run(buf_area, c2, ex, y, item.content.lines@, la.width - (ex - la.x), h as int);
    if selected { restyled_cells(buf_area, c3, r, Restyle::Whole(highlight)) } else { c3 }
}

impl<'a> List<'a> {
    /// The area inside the block, if there is one.
    pub open spec fn list_area(self, area: Rect) -> Rect {
        match self.block {
            Some(b) => b.spec_inner(area),
            None => area,
        }
    }

    /// The symbol in front of the selected item.
    pub open spec fn symbol_of(self) -> Seq<char> {
        match self.highlight_symbol {
            Some(s) => s@,
            None => Seq::empty(),
        }
    }

    /// Whether the list has room and items to draw.
    pub open spec fn shows_items(self, area: Rect) -> bool {
        self.list_area(area).width >= 1 && self.list_area(area).height >= 1 && self.items@.len() > 0
    }

    /// The window of items drawn: from the state's offset when something is selected, else from
    /// the first item.
    pub open spec fn window_of(self, area: Rect, state: ListState) -> (int, int) {
        let offset = if self.selected.is_some() { state.offset as int } else { 0 };
        window(item_heights(self.items@), self.selected, offset, self.list_area(area).height as int)
    }

    /// The first item drawn once the list is drawn.
    pub open spec fn drawn_offset(self, area: Rect, state: ListState) -> int {
        if self.shows_items(area) { self.window_of(area, state).0 } else { state.offset as int }
    }

    /// The cells after the first `k` items of the window from `start` on are drawn.
    pub open spec fn items_run(self, buf_area: Rect, cells: Seq<(Seq<char>, Style)>, la: Rect, start: int, k: int) -> Seq<(Seq<char>, Style)>
        decreases k,
    {
        if k <= 0 {
            cells
        } else {
            let c = self.items_run(buf_area, cells, la, start, k - 1);
            let i = start + k - 1;
            item_cells(
                buf_area,
                c,
                la,
                item_row(item_heights(self.items@), self.start_corner, la, start, i),
                self.items@[i],
                self.style,
                self.selected,
                self.selected == Some(i as usize),
                self.symbol_of(),
                self.highlight_style,
            )
        }
    }

    /// The cells after the list is drawn on `area` over `cells`: the widget's style over the
    /// area, the block, then the items of the window, one after the other.
    pub open spec fn drawn_cells(self, buf_area: Rect, cells: Seq<(Seq<char>, Style)>, area: Rect, state: ListState) -> Seq<(Seq<char>, Style)> {
        let c0 = restyled_cells(buf_area, cells, area, Restyle::Whole(self.style));
        let c1 = match self.block {
            Some(b) => b.drawn_cells(buf_area, c0, area),
            None => c0,
        };
        if self.shows_items(area) {
            let (s, e) = self.window_of(area, state);
            self.items_run(buf_area, c1, self.list_area(area), s, e - s)
        } else {
            c1
        }
    }

    /// Whether the list can be drawn on `area`: the area lies in the buffer, the block's inner
    /// area computes, and, where there are items to show, their heights add up within a `usize`
    /// and a kept offset lies within them.
    pub open spec fn drawable(self, buf: Buffer, area: Rect, state: ListState) -> bool {
        &&& region_in(buf, area)
        &&& self.block matches Some(b) ==> b.inner_computable(area)
        &&& self.shows_items(area) ==> heights_sum(item_heights(self.items@), 0, self.items@.len() as int) <= usize::MAX
        &&& self.shows_items(area) && self.selected.is_some() ==> state.offset <= self.items@.len()
    }

    /// Draws the list on `area`, showing the window of items that keeps the selected one in view.
    pub fn draw(&self, area: Rect, buf: &mut Buffer, state: &mut ListState)
        requires
            old(buf).wf(),
            self.drawable(*old(buf), area, *old(state)),
        ensures
            final(buf).wf(),
            final(buf).area == old(buf).area,
            final(buf).cells() == self.drawn_cells(old(buf).area, old(buf).cells(), area, *old(state)),
            final(state).offset == self.drawn_offset(area, *old(state)),
    {
        buf.set_style(area, self.style);
        let la = match &self.block {
            Some(b) => {
                b.draw(area, buf);
                b.inner(area)
            },
            None => area,
        };
        if la.width < 1 || la.height < 1 {
            return;
        }
        if self.items.len() == 0 {
            return;
        }
        let ghost hs = item_heights(self.items@);
        let ghost old_offset = if self.selected.is_some() { old(state).offset as int } else { 0 };
        let (start, end) = self.visible_items(state, la.height as usize);
        proof {
            lemma_window_shows_selected(hs, self.selected, old_offset, la.height as int);
        }
        let ghost c1 = buf.cells();
        let symbol = match self.highlight_symbol {
            Some(s) => s,
            None => "",
        };
        proof {
            reveal_strlit("");
        }
        assert(symbol@ == self.symbol_of());
        let blank = spaces(width_of(symbol));
        let has_selection = self.selected.is_some();
        let mut current: u16 = 0;
        let mut i: usize = start;
        while i < end
            invariant
                buf.wf(),
                buf.area == old(buf).area,
                start <= i <= end <= self.items@.len(),
                hs == item_heights(self.items@),
                heights_sum(hs, start as int, end as int) <= la.height,
                current == heights_sum(hs, start as int, i as int),
                la == self.list_area(area),
                la.width >= 1,
                region_in(*buf, la),
                symbol@ == self.symbol_of(),
                blank@ == blank_for(self.symbol_of()),
                has_selection == self.selected.is_some(),
                buf.cells() == self.items_run(buf.area, c1, la, start as int, i - start),
            decreases end - i,
        {
            let item = &self.items[i];
            let h = item.height();
            proof {
                lemma_sum_mono(hs, start as int, start as int, i + 1, end as int);
                lemma_sum_nonneg(hs, start as int, i as int);
                assert(heights_sum(hs, start as int, i + 1) == current + h);
            }
            let y = match self.start_corner {
                Corner::BottomLeft => la.bottom() - (current + h as u16),
                _ => la.y + current,
            };
            let r = Rect { x: la.x, y, width: la.width, height: h as u16 };
            let item_style = self.style.patch(item.style);
            buf.set_style(r, item_style);
            let is_selected = match self.selected {
                Some(s) => s == i,
                None => false,
            };
            let ex = if has_selection && holds_cell(buf.area, la.x, y) {
                let sym = if is_selected { symbol } else { blank.as_str() };
                let clusters = graphemes_of(sym).len();
                let room = (buf.area.right() - la.x) as usize;
                let m = if room < la.width as usize { room } else { la.width as usize };
                let written = if m < clusters { m } else { clusters };
                buf.set_stringn(la.x, y, sym, la.width as usize, item_style);
                la.x + written as u16
            } else {
                la.x
            };
            draw_lines(buf, ex, y, &item.content.lines, la.width - (ex - la.x));
            if is_selected {
                buf.set_style(r, self.highlight_style);
            }
            current = current + h as u16;
            i = i + 1;
        }
    }
}

} // verus!

