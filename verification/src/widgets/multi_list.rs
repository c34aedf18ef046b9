//! A list in which any number of items can be selected, and one highlighted.
use vstd::prelude::*;
use std::collections::HashSet;

use crate::buffer::{region_in, restyled_cells, string_cells, written_count, Buffer, Restyle};
use crate::layout::{Corner, Rect};
use crate::style::{default_style, Style};
use crate::unicode::{grapheme_clusters, graphemes_of};
use crate::widgets::block::Block;
use crate::widgets::list::{draw_lines, heights_of, holds_cell, item_heights, item_row, lines_run, ListItem};
use crate::widgets::window::{heights_sum, lemma_sum_mono, lemma_sum_nonneg, lemma_window_shows_selected, visible_bounds, window};

verus! {

broadcast use vstd::std_specs::hash::group_hash_axioms;

/// What a multi-selection list keeps between two draws: the selected items, the highlighted one,
/// and the first item shown.
#[derive(Debug)]
pub struct MultiListState {
    pub selected: HashSet<usize>,
    pub highlighted: Option<usize>,
    pub offset: usize,
}

impl Default for MultiListState {
    fn default() -> (s: MultiListState)
        ensures
            s.selected@ == Set::<usize>::empty(),
            s.highlighted.is_none(),
            s.offset == 0,
    {
        MultiListState { selected: HashSet::new(), highlighted: None, offset: 0 }
    }
}

impl MultiListState {
    /// Adds item `i` to the selection.
    pub fn select(&mut self, i: usize)
        ensures
            final(self).selected@ == old(self).selected@.insert(i),
            final(self).highlighted == old(self).highlighted,
            final(self).offset == old(self).offset,
    {
        self.selected.insert(i);
    }

    /// Takes item `i` out of the selection.
    pub fn deselect(&mut self, i: usize)
        ensures
            final(self).selected@ == old(self).selected@.remove(i),
            final(self).highlighted == old(self).highlighted,
            final(self).offset == old(self).offset,
    {
        self.selected.remove(&i);
    }

    /// Selects item `i` if it was not selected, and deselects it if it was.
    pub fn toggle_selection(&mut self, i: usize)
        ensures
            final(self).selected@ == if old(self).selected@.contains(i) {
                old(self).selected@.remove(i)
            } else {
                old(self).selected@.insert(i)
            },
            final(self).highlighted == old(self).highlighted,
            final(self).offset == old(self).offset,
    {
        if self.selected.contains(&i) {
            self.selected.remove(&i);
        } else {
            self.selected.insert(i);
        }
    }

    pub fn highlight(&mut self, i: Option<usize>)
        ensures
            final(self).selected@ == old(self).selected@,
            final(self).highlighted == i,
            final(self).offset == old(self).offset,
    {
        self.highlighted = i;
    }

    pub fn get_highlight(&mut self) -> (h: Option<usize>)
        ensures
            h == old(self).highlighted,
            final(self).selected@ == old(self).selected@,
            final(self).highlighted == old(self).highlighted,
            final(self).offset == old(self).offset,
    {
        self.highlighted
    }

    pub fn get_selections(&self) -> (s: &HashSet<usize>)
        ensures s@ == self.selected@,
    {
        &self.selected
    }
}

/// Toggling an item twice gives back the selection from before.
pub proof fn lemma_toggle_twice(s: Set<usize>, i: usize)
    ensures
        ({
            let once = if s.contains(i) { s.remove(i) } else { s.insert(i) };
            let twice = if once.contains(i) { once.remove(i) } else { once.insert(i) };
            twice == s
        }),
{
    let once = if s.contains(i) { s.remove(i) } else { s.insert(i) };
    let twice = if once.contains(i) { once.remove(i) } else { once.insert(i) };
    assert(twice =~= s);
}

/// A list in which several items can be selected.
pub struct MutliList<'a> {
    pub block: Option<Block<'a>>,
    pub items: Vec<ListItem>,
    pub style: Style,
    pub start_corner: Corner,
    pub selected_style: Style,
    pub highlight_style: Style,
    pub highlight_symbol: Option<&'a str>,
}

impl<'a> MutliList<'a> {
    pub fn new(items: Vec<ListItem>) -> (l: MutliList<'a>)
        ensures
            l.block.is_none(),
            l.items == items,
            l.style == default_style(),
            l.start_corner == Corner::TopLeft,
            l.selected_style == default_style(),
            l.highlight_style == default_style(),
            l.highlight_symbol.is_none(),
    {
        MutliList {
            block: None,
            style: Style::new(),
            items,
            start_corner: Corner::TopLeft,
            selected_style: Style::new(),
            highlight_style: Style::new(),
            highlight_symbol: None,
        }
    }

    pub fn block(self, block: Block<'a>) -> (l: MutliList<'a>)
        ensures l == (MutliList { block: Some(block), ..self }),
    {
        let mut l = self;
        l.block = Some(block);
        l
    }

    pub fn style(self, style: Style) -> (l: MutliList<'a>)
        ensures l == (MutliList { style, ..self }),
    {
        let mut l = self;
        l.style = style;
        l
    }

    pub fn highlight_symbol(self, highlight_symbol: &'a str) -> (l: MutliList<'a>)
        ensures l == (MutliList { highlight_symbol: Some(highlight_symbol), ..self }),
    {
        let mut l = self;
        l.highlight_symbol = Some(highlight_symbol);
        l
    }

    pub fn highlight_style(self, style: Style) -> (l: MutliList<'a>)
        ensures l == (MutliList { highlight_style: style, ..self }),
    {
        let mut l = self;
        l.highlight_style = style;
        l
    }

    pub fn start_corner(self, corner: Corner) -> (l: MutliList<'a>)
        ensures l == (MutliList { start_corner: corner, ..self }),
    {
        let mut l = self;
        l.start_corner = corner;
        l
    }

    pub fn selected_style(self, selected_style: Style) -> (l: MutliList<'a>)
        ensures l == (MutliList { selected_style, ..self }),
    {
        let mut l = self;
        l.selected_style = selected_style;
        l
    }

    /// The window `(start, end)` of items shown in a viewport `max_height` rows high: the offset
    /// is first brought back onto the last item, then the window follows the highlighted item.
    pub fn get_items_bounds(&self, highlighted: Option<usize>, offset: usize, max_height: usize) -> (r: (usize, usize))
        requires
            self.items@.len() > 0,
            heights_sum(item_heights(self.items@), 0, self.items@.len() as int) <= usize::MAX,
        ensures
            ({
                let o = if offset < self.items@.len() { offset as int } else { self.items@.len() - 1 };
                let w = window(item_heights(self.items@), highlighted, o, max_height as int);
                r.0 == w.0 && r.1 == w.1
            }),
            r.0 <= r.1 <= self.items@.len(),
    {
        let last = self.items.len() - 1;
        let offset = if offset < last { offset } else { last };
        let hs = heights_of(&self.items);
        visible_bounds(&hs, highlighted, offset, max_height)
    }
}

/// The cells after an item of a multi-selection list is drawn on its rows from `y` on in the list
/// area `la`: the item's style laid over the list's on its rows; the highlight symbol in front of
/// the highlighted item; its lines after that, within what is left of the width; and, over its
/// rows, the selected style (selected item) or the list's style, with the highlight style laid
/// over it for the highlighted item.
pub open spec fn multi_item_cells(
    buf_area: Rect,
    cells: Seq<(Seq<char>, Style)>,
    la: Rect,
    y: int,
    item: ListItem,
    list: MutliList,
    selected: bool,
    highlighted: bool,
) -> Seq<(Seq<char>, Style)> {
    let h = item.content.lines@.len();
    let r = Rect { x: la.x, y: y as u16, width: la.width, height: h as u16 };
    let item_style = list.style.spec_patch(item.style);
    let c1 = restyled_cells(buf_area, cells, r, Restyle::Whole(item_style));
    let sym = list.symbol_of();
    let prints_symbol = highlighted && buf_area.contains_point(la.x as int, y);
    let c2 = if prints_symbol { string_cells(buf_area, c1, la.x as int, y, sym, la.width as int, item_style) } else { c1 };
    let ex = if prints_symbol {
        la.x + written_count(buf_area.spec_right() - la.x, la.width as int, grapheme_clusters(sym).len() as int)
    } else {
        la.x as int
    };
    let c3 = lines_run(buf_area, c2, ex, y, item.content.lines@, la.width - (ex - la.x), h as int);
    let style = if selected { list.selected_style } else { list.style };
    let style = if highlighted { style.spec_patch(list.highlight_style) } else { style };
    restyled_cells(buf_area, c3, r, Restyle::Whole(style))
}

impl<'a> MutliList<'a> {
    /// The area inside the block, if there is one.
    pub open spec fn list_area(self, area: Rect) -> Rect {
        match self.block {
            Some(b) => b.spec_inner(area),
            None => area,
        }
    }

    /// The symbol in front of the highlighted item.
    pub open spec fn symbol_of(self) -> Seq<char> {
        match self.highlight_symbol {
            Some(s) => s@,
            None => Seq::empty(),
        }
    }

    /// Whether the list has room and items to draw.
    pub open spec fn shows_items(self, area: Rect) -> bool {
        self.list_area(area).width >= 1 && self.list_area(area).height >= 1 && self.items@.len() > 0
    }

    /// The window of items drawn: from the state's offset, brought back onto the last item,
    /// following the highlighted item.
    pub open spec fn window_of(self, area: Rect, state: MultiListState) -> (int, int) {
        let o = if state.offset < self.items@.len() { state.offset as int } else { self.items@.len() - 1 };
        window(item_heights(self.items@), state.highlighted, o, self.list_area(area).height as int)
    }

    /// The first item drawn once the list is drawn.
    pub open spec fn drawn_offset(self, area: Rect, state: MultiListState) -> int {
        if self.shows_items(area) { self.window_of(area, state).0 } else { state.offset as int }
    }

    /// The cells after the first `k` items of the window from `start` on are drawn.
    pub open spec fn items_run(
        self,
        buf_area: Rect,
        cells: Seq<(Seq<char>, Style)>,
        la: Rect,
        start: int,
        selected: Set<usize>,
        highlighted: Option<usize>,
        k: int,
    ) -> Seq<(Seq<char>, Style)>
        decreases k,
    {
        if k <= 0 {
            cells
        } else {
            let c = self.items_run(buf_area, cells, la, start, selected, highlighted, k - 1);
            let i = start + k - 1;
            multi_item_cells(
                buf_area,
                c,
                la,
                item_row(item_heights(self.items@), self.start_corner, la, start, i),
                self.items@[i],
                self,
                selected.contains(i as usize),
                highlighted == Some(i as usize),
            )
        }
    }

    /// The cells after the list is drawn on `area` over `cells`: the widget's style over the
    /// area, the block, then the items of the window, one after the other.
    pub open spec fn drawn_cells(self, buf_area: Rect, cells: Seq<(Seq<char>, Style)>, area: Rect, state: MultiListState) -> Seq<(Seq<char>, Style)> {
        let c0 = restyled_cells(buf_area, cells, area, Restyle::Whole(self.style));
        let c1 = match self.block {
            Some(b) => b.drawn_cells(buf_area, c0, area),
            None => c0,
        };
        if self.shows_items(area) {
            let (s, e) = self.window_of(area, state);
            self.items_run(buf_area, c1, self.list_area(area), s, state.selected@, state.highlighted, e - s)
        } else {
            c1
        }
    }

    /// Whether the list can be drawn on `area`: the area lies in the buffer, the block's inner
    /// area computes, and, where there are items to show, their heights add up within a `usize`.
    pub open spec fn drawable(self, buf: Buffer, area: Rect) -> bool {
        &&& region_in(buf, area)
        &&& self.block matches Some(b) ==> b.inner_computable(area)
        &&& self.shows_items(area) ==> heights_sum(item_heights(self.items@), 0, self.items@.len() as int) <= usize::MAX
    }

    /// Draws the list on `area`, showing the window of items that keeps the highlighted one in
    /// view.
    pub fn draw(&self, area: Rect, buf: &mut Buffer, state: &mut MultiListState)
        requires
            old(buf).wf(),
            self.drawable(*old(buf), area),
        ensures
            final(buf).wf(),
            final(buf).area == old(buf).area,
            final(buf).cells() == self.drawn_cells(old(buf).area, old(buf).cells(), area, *old(state)),
            final(state).offset == self.drawn_offset(area, *old(state)),
            final(state).selected@ == old(state).selected@,
            final(state).highlighted == old(state).highlighted,
    {
        buf.set_style(area, self.style);
        let la = match &self.block {
            Some(b) => {
                b.draw(area, buf);
                b.inner(area)
            },
            None => area,
        };
        if la.width < 1 || la.height < 1 {
            return;
        }
        if self.items.len() == 0 {
            return;
        }
        let ghost hs = item_heights(self.items@);
        let ghost o = if state.offset < self.items@.len() { state.offset as int } else { self.items@.len() - 1 };
        let (start, end) = self.get_items_bounds(state.highlighted, state.offset, la.height as usize);
        proof {
            lemma_window_shows_selected(hs, state.highlighted, o, la.height as int);
        }
        state.offset = start;
        let ghost c1 = buf.cells();
        let symbol = match self.highlight_symbol {
            Some(s) => s,
            None => "",
        };
        proof {
            reveal_strlit("");
        }
        assert(symbol@ == self.symbol_of());
        let mut current: u16 = 0;
        let mut i: usize = start;
        while i < end
            invariant
                buf.wf(),
                buf.area == old(buf).area,
                start <= i <= end <= self.items@.len(),
                hs == item_heights(self.items@),
                heights_sum(hs, start as int, end as int) <= la.height,
                current == heights_sum(hs, start as int, i as int),
                la == self.list_area(area),
                la.width >= 1,
                region_in(*buf, la),
                symbol@ == self.symbol_of(),
                state.selected@ == old(state).selected@,
                state.highlighted == old(state).highlighted,
                buf.cells() == self.items_run(buf.area, c1, la, start as int, old(state).selected@, old(state).highlighted, i - start),
            decreases end - i,
        {
            let item = &self.items[i];
            let h = item.height();
            proof {
                lemma_sum_mono(hs, start as int, start as int, i + 1, end as int);
                lemma_sum_nonneg(hs, start as int, i as int);
                assert(heights_sum(hs, start as int, i + 1) == current + h);
            }
            let y = match self.start_corner {
                Corner::BottomLeft => la.bottom() - (current + h as u16),
                _ => la.y + current,
            };
            let r = Rect { x: la.x, y, width: la.width, height: h as u16 };
            let item_style = self.style.patch(item.style);
            buf.set_style(r, item_style);
            let is_selected = state.selected.contains(&i);
            let is_highlighted = match state.highlighted {
                Some(hl) => hl == i,
                None => false,
            };
            let ex = if is_highlighted && holds_cell(buf.area, la.x, y) {
                let clusters = graphemes_of(symbol).len();
                let room = (buf.area.right() - la.x) as usize;
                let m = if room < la.width as usize { room } else { la.width as usize };
                let written = if m < clusters { m } else { clusters };
                buf.set_stringn(la.x, y, symbol, la.width as usize, item_style);
                la.x + written as u16
            } else {
                la.x
            };
            draw_lines(buf, ex, y, &item.content.lines, la.width - (ex - la.x));
            let style = if is_selected { self.selected_style } else { self.style };
            let style = if is_highlighted { style.patch(self.highlight_style) } else { style };
            buf.set_style(r, style);
            current = current + h as u16;
            i = i + 1;
        }
    }
}

} // verus!

