//! Gauges whose fill has been measured. A bar gauge is given the columns it fills, the symbol of
//! the partly filled column after them, and how far its color reaches where the fill ends
//! inside its label; a line gauge draws its label, gives where its line starts, and is then
//! given where the line's fill ends. Measuring a fill from a ratio is floating-point work done
//! outside the library.
use vstd::prelude::*;

use crate::buffer::{
    region_in, restyle_region, restyled_cells, resymbol_region, spans_run, string_cells, symboled_cells, Buffer,
    Restyle,
};
use crate::layout::Rect;
use crate::style::{Color, Style};
use crate::symbols::line::LineSet;
use crate::text::{Span, Spans};
use crate::unicode::display_width;
use crate::widgets::block::Block;

verus! {

/// A gauge drawn as a bar over the rows of its area, with its label on the middle row.
pub struct GaugeBar<'a> {
    pub block: Option<Block<'a>>,
    pub style: Style,
    pub gauge_style: Style,
    pub label: Span,
    /// How many columns the bar fills from the left.
    pub filled: u16,
    /// The symbol of the partly filled column after the filled ones, if it is drawn.
    pub partial: Option<&'static str>,
    /// Where the fill ends inside the label: how many columns from the left take the gauge's
    /// colors on the label's row instead.
    pub label_fill: Option<u16>,
}

/// A one-row rectangle on row `y` from column `x`, `width` columns wide.
pub open spec fn row_rect(x: int, y: int, width: int) -> Rect {
    Rect { x: x as u16, y: y as u16, width: width as u16, height: 1 }
}

impl<'a> GaugeBar<'a> {
    /// The area of the bar: inside the block, if there is one.
    pub open spec fn gauge_area(self, area: Rect) -> Rect {
        match self.block {
            Some(b) => b.spec_inner(area),
            None => area,
        }
    }

    /// The label's width, cut to 16 bits.
    pub open spec fn label_width(self) -> int {
        (display_width(self.label.content@) as u16) as int
    }

    /// The column where the label starts: centered in the bar.
    pub open spec fn label_x(self, ga: Rect) -> int {
        (ga.width - self.label_width()) / 2 + ga.x
    }

    /// The row of the label: the middle one.
    pub open spec fn center_row(self, ga: Rect) -> int {
        ga.height / 2 + ga.y
    }

    /// The column where the gauge's colors end on row `y`.
    pub open spec fn color_end(self, ga: Rect, y: int) -> int {
        let end = ga.x + self.filled;
        let m = self.label_x(ga);
        match self.label_fill {
            Some(r) => if y == self.center_row(ga) && end >= m && end < m + self.label_width() { ga.x + r } else { end },
            None => end,
        }
    }

    /// The cells after row `y` of the bar is drawn: the filled columns blanked, the partly
    /// filled column's symbol after them, the label on the middle row, and the gauge's colors,
    /// swapped, up to where they end.
    pub open spec fn row_cells(self, buf_area: Rect, cells: Seq<(Seq<char>, Style)>, ga: Rect, y: int) -> Seq<(Seq<char>, Style)> {
        let end = ga.x + self.filled;
        let c1 = symboled_cells(buf_area, cells, row_rect(ga.x as int, y, self.filled as int), seq![' ']);
        let c2 = match self.partial {
            Some(s) => symboled_cells(buf_area, c1, row_rect(end, y, 1), s@),
            None => c1,
        };
        let m = self.label_x(ga);
        let c3 = if y == self.center_row(ga) {
            string_cells(buf_area, c2, m, y, self.label.content@, ga.spec_right() - m, self.label.style)
        } else {
            c2
        };
        restyled_cells(
            buf_area,
            c3,
            row_rect(ga.x as int, y, self.color_end(ga, y) - ga.x),
            Restyle::Colors(self.gauge_style.bg, self.gauge_style.fg),
        )
    }

    /// The cells after the first `k` rows of the bar are drawn.
    pub open spec fn rows_run(self, buf_area: Rect, cells: Seq<(Seq<char>, Style)>, ga: Rect, k: int) -> Seq<(Seq<char>, Style)>
        decreases k,
    {
        if k <= 0 {
            cells
        } else {
            self.row_cells(buf_area, self.rows_run(buf_area, cells, ga, k - 1), ga, ga.y + k - 1)
        }
    }

    /// The cells after the gauge is drawn on `area`: its style over the area, the block, the
    /// gauge's style over the bar's area, then the bar row by row.
    pub open spec fn drawn_cells(self, buf_area: Rect, cells: Seq<(Seq<char>, Style)>, area: Rect) -> Seq<(Seq<char>, Style)> {
        let c0 = restyled_cells(buf_area, cells, area, Restyle::Whole(self.style));
        let c1 = match self.block {
            Some(b) => b.drawn_cells(buf_area, c0, area),
            None => c0,
        };
        let ga = self.gauge_area(area);
        let c2 = restyled_cells(buf_area, c1, ga, Restyle::Whole(self.gauge_style));
        if ga.height < 1 {
            c2
        } else {
            self.rows_run(buf_area, c2, ga, ga.height as int)
        }
    }

    /// What drawing needs: the area in the buffer, the block's inner area computable, the fills
    /// within the bar's width, the label no wider than it, and the cells written outside the bar
    /// (the partly filled column, and the label's start on a bar with no width) in the buffer.
    pub open spec fn drawable(self, buf: Buffer, area: Rect) -> bool {
        let ga = self.gauge_area(area);
        &&& region_in(buf, area)
        &&& self.block matches Some(b) ==> b.inner_computable(area)
        &&& ga.height >= 1 ==> {
            &&& self.filled <= ga.width
            &&& self.label_fill matches Some(r) ==> r <= ga.width
            &&& self.label_width() <= ga.width
            &&& self.partial is Some ==> region_in(buf, Rect { x: (ga.x + self.filled) as u16, y: ga.y, width: 1, height: ga.height })
            &&& ga.width == 0 ==> buf.area.contains_point(self.label_x(ga), self.center_row(ga))
        }
    }

    /// Draws the gauge on `area`.
    pub fn draw(&self, area: Rect, buf: &mut Buffer)
        requires
            old(buf).wf(),
            self.drawable(*old(buf), area),
        ensures
            final(buf).wf(),
            final(buf).area == old(buf).area,
            final(buf).cells() == self.drawn_cells(old(buf).area, old(buf).cells(), area),
    {
        buf.set_style(area, self.style);
        let ga = match &self.block {
            Some(b) => {
                b.draw(area, buf);
                b.inner(area)
            },
            None => area,
        };
        let ghost c1 = buf.cells();
        if ga.width > 0 && ga.height > 0 {
            buf.set_style(ga, self.gauge_style);
        } else {
            assert(buf.cells() =~= restyled_cells(buf.area, c1, ga, Restyle::Whole(self.gauge_style)));
        }
        if ga.height < 1 {
            return;
        }
        let ghost c2 = buf.cells();
        let center = ga.height / 2 + ga.y;
        let lw = #[verifier::truncate] (self.label.width() as u16);
        let middle = (ga.width - lw) / 2 + ga.x;
        let end = ga.x + self.filled;
        let mut y = ga.y;
        while y < ga.y + ga.height
            invariant
                buf.wf(),
                buf.area == old(buf).area,
                self.drawable(*old(buf), area),
                ga == self.gauge_area(area),
                ga.height >= 1,
                region_in(*buf, ga) || ga.width == 0,
                ga.y <= y <= ga.y + ga.height,
                ga.y + ga.height <= u16::MAX,
                center == self.center_row(ga),
                lw == self.label_width(),
                middle == self.label_x(ga),
                end == ga.x + self.filled,
                buf.cells() == self.rows_run(buf.area, c2, ga, y - ga.y),
            decreases ga.y + ga.height - y,
        {
            let ghost before = buf.cells();
            proof {
                reveal_strlit(" ");
                assert(" "@ =~= seq![' ']);
            }
            if self.filled > 0 {
                resymbol_region(buf, Rect { x: ga.x, y, width: self.filled, height: 1 }, " ");
            } else {
                assert(buf.cells() =~= symboled_cells(buf.area, before, row_rect(ga.x as int, y as int, 0), seq![' ']));
            }
            let ghost s1 = buf.cells();
            assert(s1 == symboled_cells(buf.area, before, row_rect(ga.x as int, y as int, self.filled as int), seq![' ']));
            if let Some(s) = self.partial {
                resymbol_region(buf, Rect { x: end, y, width: 1, height: 1 }, s);
            }
            let mut color_end = end;
            if y == center {
                buf.set_stringn(middle, y, self.label.content.as_str(), (ga.right() - middle) as usize, self.label.style);
                if let Some(r) = self.label_fill {
                    if end >= middle && (end as u32) < (middle as u32) + (lw as u32) {
                        color_end = ga.x + r;
                    }
                }
            }
            let ghost c3 = buf.cells();
            assert(color_end == self.color_end(ga, y as int));
            if color_end > ga.x {
                restyle_region(buf, Rect { x: ga.x, y, width: color_end - ga.x, height: 1 }, Restyle::Colors(self.gauge_style.bg, self.gauge_style.fg));
            } else {
                assert(buf.cells() =~= restyled_cells(buf.area, c3, row_rect(ga.x as int, y as int, 0), Restyle::Colors(self.gauge_style.bg, self.gauge_style.fg)));
            }
            assert(buf.cells() == self.row_cells(buf.area, before, ga, y as int));
            y = y + 1;
        }
    }
}

/// A line gauge: its label on the first row of its area, then a line to the area's right end,
/// in the gauge's foreground color up to where it is filled and in its background color after.
pub struct LineGaugeBar<'a> {
    pub block: Option<Block<'a>>,
    pub style: Style,
    pub gauge_style: Style,
    pub label: Spans,
    pub line_set: LineSet,
}

impl<'a> LineGaugeBar<'a> {
    /// The area of the line gauge: inside the block, if there is one.
    pub open spec fn gauge_area(self, area: Rect) -> Rect {
        match self.block {
            Some(b) => b.spec_inner(area),
            None => area,
        }
    }

    /// The cells after the gauge's style over the area and the block.
    pub open spec fn framed_cells(self, buf_area: Rect, cells: Seq<(Seq<char>, Style)>, area: Rect) -> Seq<(Seq<char>, Style)> {
        let c0 = restyled_cells(buf_area, cells, area, Restyle::Whole(self.style));
        match self.block {
            Some(b) => b.drawn_cells(buf_area, c0, area),
            None => c0,
        }
    }

    /// The label written on the first row of the gauge's area over `cells`, and the column
    /// after it.
    pub open spec fn label_run(self, buf_area: Rect, cells: Seq<(Seq<char>, Style)>, ga: Rect) -> (Seq<(Seq<char>, Style)>, int, int) {
        spans_run(buf_area, cells, ga.x as int, ga.y as int, self.label.0@, ga.width as int, self.label.0@.len() as int)
    }

    /// The cells after the label is drawn on `area`.
    pub open spec fn labelled_cells(self, buf_area: Rect, cells: Seq<(Seq<char>, Style)>, area: Rect) -> Seq<(Seq<char>, Style)> {
        let c1 = self.framed_cells(buf_area, cells, area);
        let ga = self.gauge_area(area);
        if ga.height < 1 { c1 } else { self.label_run(buf_area, c1, ga).0 }
    }

    /// Where the line starts, one column after the label, on the first row; none where the
    /// area has no row or the line would start at or past its right end.
    pub open spec fn line_start(self, buf_area: Rect, cells: Seq<(Seq<char>, Style)>, area: Rect) -> Option<(u16, u16)> {
        let ga = self.gauge_area(area);
        let start = self.label_run(buf_area, self.framed_cells(buf_area, cells, area), ga).1 + 1;
        if ga.height < 1 || start >= ga.spec_right() { None } else { Some((start as u16, ga.y)) }
    }

    /// Draws the gauge's style, its block and its label on `area`, and gives where the line
    /// starts, if it has room.
    pub fn draw_label(&self, area: Rect, buf: &mut Buffer) -> (r: Option<(u16, u16)>)
        requires
            old(buf).wf(),
            region_in(*old(buf), area),
            self.block matches Some(b) ==> b.inner_computable(area),
        ensures
            final(buf).wf(),
            final(buf).area == old(buf).area,
            final(buf).cells() == self.labelled_cells(old(buf).area, old(buf).cells(), area),
            r == self.line_start(old(buf).area, old(buf).cells(), area),
    {
        buf.set_style(area, self.style);
        let ga = match &self.block {
            Some(b) => {
                b.draw(area, buf);
                b.inner(area)
            },
            None => area,
        };
        if ga.height < 1 {
            return None;
        }
        let (col, row) = buf.set_spans(ga.x, ga.y, &self.label, ga.width);
        if (col as u32) + 1 >= ga.right() as u32 {
            None
        } else {
            Some((col + 1, row))
        }
    }

    /// The cells after the line is drawn on row `row` from column `start` to `right`: the
    /// horizontal symbol throughout, with the gauge's foreground color laid over the cells up
    /// to `end` and its background color after, both with its modifiers.
    pub open spec fn line_cells(self, buf_area: Rect, cells: Seq<(Seq<char>, Style)>, start: u16, end: u16, right: u16, row: u16) -> Seq<(Seq<char>, Style)> {
        let region = Rect { x: start, y: row, width: (right - start) as u16, height: 1 };
        let c1 = symboled_cells(buf_area, cells, region, self.line_set.horizontal@);
        let c2 = restyled_cells(
            buf_area,
            c1,
            Rect { x: start, y: row, width: (end - start) as u16, height: 1 },
            Restyle::Patch(Style { fg: self.gauge_style.fg, bg: Color::Reset, modifier: self.gauge_style.modifier }),
        );
        restyled_cells(
            buf_area,
            c2,
            Rect { x: end, y: row, width: (right - end) as u16, height: 1 },
            Restyle::Patch(Style { fg: self.gauge_style.bg, bg: Color::Reset, modifier: self.gauge_style.modifier }),
        )
    }

    /// Draws the line on row `row` from column `start` to `right`, filled up to `end`.
    pub fn draw_line(&self, buf: &mut Buffer, start: u16, end: u16, right: u16, row: u16)
        requires
            old(buf).wf(),
            start <= end <= right,
            region_in(*old(buf), Rect { x: start, y: row, width: (right - start) as u16, height: 1 }),
        ensures
            final(buf).wf(),
            final(buf).area == old(buf).area,
            final(buf).cells() == self.line_cells(old(buf).area, old(buf).cells(), start, end, right, row),
    {
        resymbol_region(buf, Rect { x: start, y: row, width: right - start, height: 1 }, self.line_set.horizontal);
        let filled = Style { fg: self.gauge_style.fg, bg: Color::Reset, modifier: self.gauge_style.modifier };
        restyle_region(buf, Rect { x: start, y: row, width: end - start, height: 1 }, Restyle::Patch(filled));
        let rest = Style { fg: self.gauge_style.bg, bg: Color::Reset, modifier: self.gauge_style.modifier };
        restyle_region(buf, Rect { x: end, y: row, width: right - end, height: 1 }, Restyle::Patch(rest));
    }
}

} // verus!
