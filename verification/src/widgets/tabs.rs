//! Tabs: titles side by side on one row, one of them highlighted, separated by a divider.
use vstd::prelude::*;

use crate::buffer::{background_cells, index_in, region_in, string_cells, written_count, Buffer};
use crate::unicode::grapheme_clusters;
use crate::layout::{Margin, Rect};
use crate::style::{default_style, Style};
use crate::symbols::line;
use crate::unicode::{display_width, width_of};
use crate::widgets::block::Block;

verus! {

/// A widget to display available tabs in a multiple panels context.
pub struct Tabs<'a> {
    /// A block to wrap this widget in if necessary
    pub block: Option<Block<'a>>,
    /// One title for each tab
    pub titles: &'a [&'a str],
    /// The index of the selected tab
    pub selected: usize,
    /// The style used to draw the text
    pub style: Style,
    /// The style used to display the selected item
    pub highlight_style: Style,
    /// Tab divider
    pub divider: &'a str,
    /// Margin width
    pub margin: Margin,
}

impl<'a> Default for Tabs<'a> {
    fn default() -> (t: Tabs<'a>)
        ensures
            t.block.is_none(),
            t.titles@.len() == 0,
            t.selected == 0,
            t.style == default_style(),
            t.highlight_style == default_style(),
            t.divider == line::VERTICAL,
            t.margin == (Margin { horizontal: 0, vertical: 0 }),
    {
        Tabs {
            block: None,
            titles: &[],
            selected: 0,
            style: Style::new(),
            highlight_style: Style::new(),
            divider: line::VERTICAL,
            margin: Margin { horizontal: 0, vertical: 0 },
        }
    }
}

impl<'a> Tabs<'a> {
    pub fn block(self, block: Block<'a>) -> (t: Tabs<'a>)
        ensures t == (Tabs { block: Some(block), ..self }),
    {
        let mut t = self;
        t.block = Some(block);
        t
    }

    pub fn titles(self, titles: &'a [&'a str]) -> (t: Tabs<'a>)
        ensures t == (Tabs { titles, ..self }),
    {
        let mut t = self;
        t.titles = titles;
        t
    }

    pub fn select(self, selected: usize) -> (t: Tabs<'a>)
        ensures t == (Tabs { selected, ..self }),
    {
        let mut t = self;
        t.selected = selected;
        t
    }

    pub fn style(self, style: Style) -> (t: Tabs<'a>)
        ensures t == (Tabs { style, ..self }),
    {
        let mut t = self;
        t.style = style;
        t
    }

    pub fn highlight_style(self, style: Style) -> (t: Tabs<'a>)
        ensures t == (Tabs { highlight_style: style, ..self }),
    {
        let mut t = self;
        t.highlight_style = style;
        t
    }

    pub fn divider(self, divider: &'a str) -> (t: Tabs<'a>)
        ensures t == (Tabs { divider, ..self }),
    {
        let mut t = self;
        t.divider = divider;
        t
    }

    pub fn margin(self, margin: Margin) -> (t: Tabs<'a>)
        ensures t == (Tabs { margin, ..self }),
    {
        let mut t = self;
        t.margin = margin;
        t
    }

    /// The area inside the block, if there is one.
    pub open spec fn block_area(self, area: Rect) -> Rect {
        match self.block {
            Some(b) => b.spec_inner(area),
            None => area,
        }
    }

    /// The row the titles go on: inside the block and the margin.
    pub open spec fn tabs_area(self, area: Rect) -> Rect {
        self.block_area(area).spec_inner(self.margin)
    }

    /// The cells, the next column, and whether the row is full, after the first `k` titles are
    /// printed over `cells` on the row `t`: a title that does not fit is cut at the end of the
    /// row; after every title but the last, the divider is printed after a space, with a space
    /// after it, if the row has room for it.
    pub open spec fn titles_run(self, buf_area: Rect, cells: Seq<(Seq<char>, Style)>, t: Rect, k: int) -> (Seq<(Seq<char>, Style)>, int, bool)
        decreases k,
    {
        if k <= 0 {
            (cells, t.x as int, false)
        } else {
            let (c, x, full) = self.titles_run(buf_area, cells, t, k - 1);
            let i = k - 1;
            let right = t.x + t.width;
            let style = if i == self.selected { self.highlight_style } else { self.style };
            let title = self.titles@[i]@;
            if full || x >= right {
                (c, x, true)
            } else {
                let space = right - x;
                let title_width = display_width(title) as u16;
                if title_width > space {
                    (string_cells(buf_area, c, x, t.y as int, title, space, style), x, true)
                } else {
                    let c1 = string_cells(buf_area, c, x, t.y as int, title, usize::MAX as int, style);
                    let x1 = x + title_width;
                    let divider_width = (display_width(self.divider@) as u16) + 1;
                    if i + 1 == self.titles@.len() {
                        (c1, x1, false)
                    } else if space - title_width >= divider_width {
                        let c2 = if x1 + 1 < right {
                            string_cells(buf_area, c1, x1 + 1, t.y as int, self.divider@, usize::MAX as int, self.style)
                        } else {
                            c1
                        };
                        (c2, x1 + divider_width + 1, false)
                    } else {
                        (c1, x1, true)
                    }
                }
            }
        }
    }

    /// Whether the tabs can be drawn on `area`: the inner areas compute, what is drawn lies in the
    /// buffer and leaves a column before `u16::MAX`, and the divider's width is below
    /// `u16::MAX`.
    pub open spec fn drawable(self, buf: Buffer, area: Rect) -> bool {
        let t = self.tabs_area(area);
        &&& self.block matches Some(b) ==> b.inner_computable(area)
        &&& (self.block is Some && area.width >= 2 && area.height >= 2) ==> region_in(buf, area)
        &&& self.block_area(area).inner_computable(self.margin)
        &&& t.height >= 1 ==> {
            &&& region_in(buf, t)
            &&& t.x + t.width < u16::MAX
            &&& display_width(self.divider@) < u16::MAX
        }
    }

    /// The cells after the tabs are drawn on `area` over `cells`: the block, the background of
    /// the widget's style on the row, then the titles.
    pub open spec fn drawn_cells(self, buf_area: Rect, cells: Seq<(Seq<char>, Style)>, area: Rect) -> Seq<(Seq<char>, Style)> {
        let t = self.tabs_area(area);
        let c0 = match self.block {
            Some(b) => b.drawn_cells(buf_area, cells, area),
            None => cells,
        };
        if t.height < 1 {
            c0
        } else {
            let c1 = background_cells(buf_area, c0, t, self.style.bg);
            self.titles_run(buf_area, c1, t, self.titles@.len() as int).0
        }
    }

    pub fn render(&self, area: Rect, buf: &mut Buffer)
        requires
            old(buf).wf(),
            self.drawable(*old(buf), area),
        ensures
            final(buf).wf(),
            final(buf).area == old(buf).area,
            final(buf).cells() == self.drawn_cells(old(buf).area, old(buf).cells(), area),
    {
        let block_area = match &self.block {
            Some(b) => {
                b.draw(area, buf);
                b.inner(area)
            },
            None => area,
        };
        let tabs_area = block_area.inner(&self.margin);
        if tabs_area.height < 1 {
            return;
        }
        buf.set_background(tabs_area, self.style.bg);
        let ghost c1 = buf.cells();
        let right = tabs_area.x + tabs_area.width;
        let mut x = tabs_area.x;
        let divider_width = (width_of(self.divider) as u16) + 1;
        let titles_length = self.titles.len();
        let mut i: usize = 0;
        while i < titles_length
            invariant_except_break
                (buf.cells(), x as int, false) == self.titles_run(buf.area, c1, tabs_area, i as int),
            invariant
                buf.wf(),
                buf.area == old(buf).area,
                tabs_area == self.tabs_area(area),
                tabs_area.height >= 1,
                region_in(*buf, tabs_area),
                right == tabs_area.x + tabs_area.width,
                right < u16::MAX,
                tabs_area.x <= x,
                titles_length == self.titles@.len(),
                divider_width == (display_width(self.divider@) as u16) + 1,
                i <= titles_length,
            ensures
                buf.cells() == self.titles_run(buf.area, c1, tabs_area, titles_length as int).0,
            decreases titles_length - i,
        {
            let ghost before = self.titles_run(buf.area, c1, tabs_area, i as int);
            let style = if i == self.selected { self.highlight_style } else { self.style };
            let title = self.titles[i];
            let last_title = i + 1 == titles_length;
            if x >= right {
                proof {
                    lemma_titles_run_full(*self, buf.area, c1, tabs_area, i as int + 1, titles_length as int);
                }
                break;
            }
            let space_remaining = right - x;
            let title_width = width_of(title) as u16;
            if title_width > space_remaining {
                buf.set_stringn(x, tabs_area.y, title, space_remaining as usize, style);
                proof {
                    lemma_titles_run_full(*self, buf.area, c1, tabs_area, i as int + 1, titles_length as int);
                }
                break;
            } else {
                buf.set_string(x, tabs_area.y, title, style);
                x = x + title_width;
                let space = space_remaining - title_width;
                if !last_title {
                    if space >= divider_width {
                        if x + 1 < right {
                            buf.set_string(x + 1, tabs_area.y, self.divider, self.style);
                        }
                        x = x + divider_width + 1;
                    } else {
                        proof {
                            lemma_titles_run_full(*self, buf.area, c1, tabs_area, i as int + 1, titles_length as int);
                        }
                        break;
                    }
                }
            }
            i = i + 1;
        }
    }
}

/// Once the row is full, the later titles change nothing.
proof fn lemma_titles_run_full(tabs: Tabs, buf_area: Rect, cells: Seq<(Seq<char>, Style)>, t: Rect, k: int, n: int)
    requires
        0 <= k <= n,
        tabs.titles_run(buf_area, cells, t, k).2,
    ensures
        tabs.titles_run(buf_area, cells, t, n) == tabs.titles_run(buf_area, cells, t, k),
    decreases n - k,
{
    if k < n {
        lemma_titles_run_full(tabs, buf_area, cells, t, k + 1, n);
    }
}

/// Where the titles go and whether the row fills up do not depend on the cells drawn over.
proof fn lemma_titles_run_positions(tabs: Tabs, buf_area: Rect, c: Seq<(Seq<char>, Style)>, d: Seq<(Seq<char>, Style)>, t: Rect, k: int)
    ensures
        tabs.titles_run(buf_area, c, t, k).1 == tabs.titles_run(buf_area, d, t, k).1,
        tabs.titles_run(buf_area, c, t, k).2 == tabs.titles_run(buf_area, d, t, k).2,
        tabs.titles_run(buf_area, c, t, k).1 >= t.x,
        tabs.titles_run(buf_area, c, t, k).0.len() == c.len(),
    decreases k,
{
    if k > 0 {
        lemma_titles_run_positions(tabs, buf_area, c, d, t, k - 1);
    }
}

/// The first cell of title `j`, once written, is not written again by the later titles and
/// dividers, and while the row has room the next title starts after it.
proof fn lemma_title_first_cell_kept(tabs: Tabs, buf_area: Rect, c: Seq<(Seq<char>, Style)>, t: Rect, j: int, k: int)
    requires
        0 <= j < k <= tabs.titles@.len(),
        c.len() == buf_area.width * buf_area.height,
        buf_area.contains_rect(t),
        t.height >= 1,
        t.x + t.width < u16::MAX,
        !tabs.titles_run(buf_area, c, t, j).2,
        tabs.titles_run(buf_area, c, t, j).1 < t.x + t.width,
        grapheme_clusters(tabs.titles@[j]@).len() > 0,
    ensures
        ({
            let x = tabs.titles_run(buf_area, c, t, j).1;
            let r = tabs.titles_run(buf_area, c, t, k);
            &&& r.0[index_in(buf_area, x, t.y as int)] == (
                grapheme_clusters(tabs.titles@[j]@)[0],
                if j == tabs.selected { tabs.highlight_style } else { tabs.style },
            )
            &&& (!r.2 && k < tabs.titles@.len()) ==> r.1 >= x + 1
        }),
    decreases k,
{
    let x = tabs.titles_run(buf_area, c, t, j).1;
    let p = index_in(buf_area, x, t.y as int);
    lemma_titles_run_positions(tabs, buf_area, c, c, t, j);
    lemma_titles_run_positions(tabs, buf_area, c, c, t, k - 1);
    lemma_titles_run_positions(tabs, buf_area, c, c, t, k);
    crate::buffer::lemma_index_bound(buf_area, x, t.y as int);
    if k > j + 1 {
        lemma_title_first_cell_kept(tabs, buf_area, c, t, j, k - 1);
        let (c0, x0, full) = tabs.titles_run(buf_area, c, t, k - 1);
        if !full && x0 < t.x + t.width {
            let i = k - 1;
            let title = tabs.titles@[i]@;
            let style = if i == tabs.selected { tabs.highlight_style } else { tabs.style };
            let right = t.x + t.width;
            assert(p < index_in(buf_area, x0, t.y as int));
            let title_width = display_width(title) as u16;
            if title_width <= right - x0 {
                let c1 = string_cells(buf_area, c0, x0, t.y as int, title, usize::MAX as int, style);
                assert(c1[p] == c0[p]);
                let x1 = x0 + title_width;
                assert(p < index_in(buf_area, x1 + 1, t.y as int));
            }
        }
    } else {
        let i = j;
        let title = tabs.titles@[i]@;
        let style = if i == tabs.selected { tabs.highlight_style } else { tabs.style };
        let right = t.x + t.width;
        let c0 = tabs.titles_run(buf_area, c, t, j).0;
        let gs = grapheme_clusters(title);
        assert(buf_area.spec_right() - x >= 1);
        let title_width = display_width(title) as u16;
        if title_width > right - x {
            assert(written_count(buf_area.spec_right() - x, right - x, gs.len() as int) >= 1);
        } else {
            assert(written_count(buf_area.spec_right() - x, usize::MAX as int, gs.len() as int) >= 1);
            let c1 = string_cells(buf_area, c0, x, t.y as int, title, usize::MAX as int, style);
            let x1 = x + title_width;
            assert(p < index_in(buf_area, x1 + 1, t.y as int));
        }
    }
}

impl<'a> Tabs<'a> {
    /// Only the selected title is highlighted: where title `j` is reached on the row with room
    /// left, its first cell holds its first cluster in the highlight style when `j` is the
    /// selected index and in the tabs' style otherwise, whatever the later titles.
    pub proof fn lemma_only_selected_highlighted(self, buf_area: Rect, cells: Seq<(Seq<char>, Style)>, area: Rect, j: int)
        requires
            cells.len() == buf_area.width * buf_area.height,
            self.tabs_area(area).height >= 1,
            buf_area.contains_rect(self.tabs_area(area)),
            self.tabs_area(area).x + self.tabs_area(area).width < u16::MAX,
            0 <= j < self.titles@.len(),
            !self.titles_run(buf_area, cells, self.tabs_area(area), j).2,
            self.titles_run(buf_area, cells, self.tabs_area(area), j).1 < self.tabs_area(area).x + self.tabs_area(area).width,
            grapheme_clusters(self.titles@[j]@).len() > 0,
        ensures
            self.drawn_cells(buf_area, cells, area)[index_in(
                buf_area,
                self.titles_run(buf_area, cells, self.tabs_area(area), j).1,
                self.tabs_area(area).y as int,
            )] == (
                grapheme_clusters(self.titles@[j]@)[0],
                if j == self.selected { self.highlight_style } else { self.style },
            ),
    {
        let t = self.tabs_area(area);
        let c0 = match self.block {
            Some(b) => b.drawn_cells(buf_area, cells, area),
            None => cells,
        };
        let c1 = background_cells(buf_area, c0, t, self.style.bg);
        lemma_titles_run_positions(self, buf_area, cells, c1, t, j);
        assert(c0.len() == cells.len());
        lemma_title_first_cell_kept(self, buf_area, c1, t, j, self.titles@.len() as int);
    }
}

} // verus!
