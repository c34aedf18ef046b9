//! A bar chart: labelled bars side by side, with their values printed at their feet.
use vstd::prelude::*;

use crate::buffer::{background_cells, region_in, set_region_bg, string_cells, Buffer};
use crate::layout::Rect;
use crate::style::{default_style, Style};
use crate::symbols::bar::{nine_levels, NINE_LEVELS};
use crate::unicode::{display_width, width_of};
use crate::widgets::bars::{bars_cells, decimal, decimal_string, draw_bars, BarsLayout};
use crate::widgets::block::Block;
use crate::widgets::sparkline::lemma_scaled_to_top;

verus! {

/// The largest value of labelled data, `0` when there is none.
pub open spec fn data_max(s: Seq<(&str, u64)>) -> u64
    decreases s.len(),
{
    if s.len() == 0 {
        0
    } else {
        let m = data_max(s.drop_last());
        if s.last().1 > m { s.last().1 } else { m }
    }
}

/// Display multiple bars in a single widget.
pub struct BarChart<'a> {
    /// Block to wrap the widget in
    pub block: Option<Block<'a>>,
    /// The width of each bar
    pub bar_width: u16,
    /// The gap between each bar
    pub bar_gap: u16,
    /// Style of the values printed at the bottom of each bar
    pub value_style: Style,
    /// Style of the labels printed under each bar
    pub label_style: Style,
    /// Style for the widget
    pub style: Style,
    /// Slice of (label, value) pair to plot on the chart
    pub data: &'a [(&'a str, u64)],
    /// Value necessary for a bar to reach the maximum height (if no value is specified, the
    /// maximum value in the data is taken as reference)
    pub max: Option<u64>,
    /// Values to display on the bar (computed when the data is passed to the widget)
    pub values: Vec<String>,
}

impl<'a> Default for BarChart<'a> {
    fn default() -> (c: BarChart<'a>)
        ensures
            c.block.is_none(),
            c.max.is_none(),
            c.data@.len() == 0,
            c.values@.len() == 0,
            c.bar_width == 1,
            c.bar_gap == 1,
            c.value_style == default_style(),
            c.label_style == default_style(),
            c.style == default_style(),
    {
        BarChart {
            block: None,
            max: None,
            data: &[],
            values: Vec::new(),
            bar_width: 1,
            bar_gap: 1,
            value_style: Style::new(),
            label_style: Style::new(),
            style: Style::new(),
        }
    }
}

impl<'a> BarChart<'a> {
    /// Each value is written in decimal, to be printed at the foot of its bar.
    pub open spec fn wf(self) -> bool {
        &&& self.values@.len() == self.data@.len()
        &&& forall|i: int| 0 <= i < self.data@.len() ==> (#[trigger] self.values@[i])@ == decimal(self.data@[i].1 as nat)
    }

    /// Sets the data, and writes each value in decimal.
    pub fn data(self, data: &'a [(&'a str, u64)]) -> (c: BarChart<'a>)
        ensures
            c.wf(),
            c.data == data,
            c.block == self.block,
            c.max == self.max,
            c.bar_width == self.bar_width,
            c.bar_gap == self.bar_gap,
            c.value_style == self.value_style,
            c.label_style == self.label_style,
            c.style == self.style,
    {
        let mut c = self;
        c.data = data;
        let mut values: Vec<String> = Vec::with_capacity(data.len());
        for i in 0..data.len()
            invariant
                values@.len() == i,
                forall|j: int| 0 <= j < i ==> (#[trigger] values@[j])@ == decimal(data@[j].1 as nat),
        {
            values.push(decimal_string(data[i].1));
        }
        c.values = values;
        c
    }

    pub fn block(self, block: Block<'a>) -> (c: BarChart<'a>)
        ensures c == (BarChart { block: Some(block), ..self }),
    {
        let mut c = self;
        c.block = Some(block);
        c
    }

    pub fn max(self, max: u64) -> (c: BarChart<'a>)
        ensures c == (BarChart { max: Some(max), ..self }),
    {
        let mut c = self;
        c.max = Some(max);
        c
    }

    pub fn bar_width(self, width: u16) -> (c: BarChart<'a>)
        ensures c == (BarChart { bar_width: width, ..self }),
    {
        let mut c = self;
        c.bar_width = width;
        c
    }

    pub fn bar_gap(self, gap: u16) -> (c: BarChart<'a>)
        ensures c == (BarChart { bar_gap: gap, ..self }),
    {
        let mut c = self;
        c.bar_gap = gap;
        c
    }

    pub fn value_style(self, style: Style) -> (c: BarChart<'a>)
        ensures c == (BarChart { value_style: style, ..self }),
    {
        let mut c = self;
        c.value_style = style;
        c
    }

    pub fn label_style(self, style: Style) -> (c: BarChart<'a>)
        ensures c == (BarChart { label_style: style, ..self }),
    {
        let mut c = self;
        c.label_style = style;
        c
    }

    pub fn style(self, style: Style) -> (c: BarChart<'a>)
        ensures c == (BarChart { style, ..self }),
    {
        let mut c = self;
        c.style = style;
        c
    }

    /// The area the chart is drawn in: inside the block, if there is one.
    pub open spec fn chart_area(self, area: Rect) -> Rect {
        match self.block {
            Some(b) => b.spec_inner(area),
            None => area,
        }
    }

    /// The value that reaches the top: the one given, else the largest of the data.
    pub open spec fn top_value(self) -> u64 {
        match self.max {
            Some(v) => v,
            None => data_max(self.data@),
        }
    }

    /// How many bars are shown: as many as fit in the width, as far as the data goes.
    pub open spec fn shown(self, area: Rect) -> int {
        let fit = (self.chart_area(area).width as int) / ((self.bar_width + self.bar_gap) as int);
        if fit < self.data@.len() { fit as int } else { self.data@.len() as int }
    }

    /// The heights of the bars, in eighths of a cell.
    pub open spec fn levels(self, area: Rect) -> Seq<u64> {
        let h = self.chart_area(area).height as int;
        Seq::new(self.shown(area) as nat, |i: int| (self.data@[i].1 * h * 8 / (self.top_value() as int)) as u64)
    }

    /// The cells after the value and the label of the first `k` bars are printed over `cells`:
    /// a non-zero value on the row above the last, centred on its bar when narrower than it; the
    /// label on the last row, cut to the bar's width.
    pub open spec fn labels_cells(self, buf_area: Rect, cells: Seq<(Seq<char>, Style)>, chart: Rect, k: int) -> Seq<(Seq<char>, Style)>
        decreases k,
    {
        if k <= 0 {
            cells
        } else {
            let prev = self.labels_cells(buf_area, cells, chart, k - 1);
            let i = k - 1;
            let x0 = chart.x + i * ((self.bar_width + self.bar_gap) as int);
            let value_width = display_width(self.values@[i]@) as u16;
            let with_value = if self.data@[i].1 != 0 && value_width < self.bar_width {
                string_cells(
                    buf_area,
                    prev,
                    x0 + (self.bar_width - value_width) / 2,
                    chart.y + chart.height - 2,
                    self.values@[i]@,
                    usize::MAX as int,
                    self.value_style,
                )
            } else {
                prev
            };
            string_cells(buf_area, with_value, x0, chart.y + chart.height - 1, self.data@[i].0@, self.bar_width as int, self.label_style)
        }
    }

    /// Whether the chart can be drawn on `area`: the block's inner area computes, what is drawn
    /// lies in the buffer, the bars have a stride, the top value is not zero when a bar is shown,
    /// and no scaled value overflows.
    pub open spec fn drawable(self, buf: Buffer, area: Rect) -> bool {
        let c = self.chart_area(area);
        &&& self.wf()
        &&& self.block matches Some(b) ==> b.inner_computable(area)
        &&& (self.block is Some && area.width >= 2 && area.height >= 2) ==> region_in(buf, area)
        &&& c.height >= 2 ==> {
            &&& region_in(buf, c)
            &&& 0 < self.bar_width + self.bar_gap <= u16::MAX
            &&& self.shown(area) > 0 ==> self.top_value() > 0
            &&& forall|i: int| 0 <= i < self.shown(area) ==> #[trigger] self.data@[i].1 * c.height * 8 <= u64::MAX
        }
    }

    /// The cells after the chart is drawn on `area` over `cells`: the block, the background of
    /// the chart's style, the bars over all rows but the last, then the values and labels.
    pub open spec fn drawn_cells(self, buf_area: Rect, cells: Seq<(Seq<char>, Style)>, area: Rect) -> Seq<(Seq<char>, Style)> {
        let c = self.chart_area(area);
        let c0 = match self.block {
            Some(b) => b.drawn_cells(buf_area, cells, area),
            None => cells,
        };
        if c.height < 2 {
            c0
        } else {
            let c1 = background_cells(buf_area, c0, c, self.style.bg);
            let layout = BarsLayout {
                left: c.x,
                top: c.y,
                rows: (c.height - 1) as u16,
                width: self.bar_width,
                stride: (self.bar_width + self.bar_gap) as u16,
            };
            let c2 = bars_cells(buf_area, c1, layout, self.levels(area), nine_levels(), self.style, false);
            self.labels_cells(buf_area, c2, c, self.shown(area))
        }
    }

    pub fn draw(&self, area: Rect, buf: &mut Buffer)
        requires
            old(buf).wf(),
            self.drawable(*old(buf), area),
        ensures
            final(buf).wf(),
            final(buf).area == old(buf).area,
            final(buf).cells() == self.drawn_cells(old(buf).area, old(buf).cells(), area),
    {
        let chart_area = match &self.block {
            Some(b) => {
                b.draw(area, buf);
                b.inner(area)
            },
            None => area,
        };
        if chart_area.height < 2 {
            return;
        }
        set_region_bg(buf, chart_area, self.style.bg);
        let max = match self.max {
            Some(v) => v,
            None => {
                let mut m: u64 = 0;
                for i in 0..self.data.len()
                    invariant
                        m == data_max(self.data@.take(i as int)),
                {
                    assert(self.data@.take(i + 1).drop_last() =~= self.data@.take(i as int));
                    if self.data[i].1 > m {
                        m = self.data[i].1;
                    }
                }
                assert(self.data@.take(self.data@.len() as int) =~= self.data@);
                m
            },
        };
        let stride = self.bar_width + self.bar_gap;
        let fit = (chart_area.width / stride) as usize;
        let max_index = if fit < self.data.len() { fit } else { self.data.len() };
        let h = chart_area.height as u64;
        let mut levels: Vec<u64> = Vec::new();
        for i in 0..max_index
            invariant
                max_index == self.shown(area),
                max == self.top_value(),
                h == self.chart_area(area).height,
                h >= 2,
                max_index <= self.data@.len(),
                max_index > 0 ==> max > 0,
                forall|j: int| 0 <= j < max_index ==> #[trigger] self.data@[j].1 * h * 8 <= u64::MAX,
                levels@ =~= self.levels(area).take(i as int),
        {
            assert(self.data@[i as int].1 * h * 8 <= u64::MAX);
            levels.push(self.data[i].1 * h * 8 / max);
        }
        let layout = BarsLayout {
            left: chart_area.x,
            top: chart_area.y,
            rows: chart_area.height - 1,
            width: self.bar_width,
            stride,
        };
        let set = NINE_LEVELS();
        proof {
            assert(levels@ =~= self.levels(area));
            let n = levels@.len() as int;
            let w = chart_area.width as int;
            let st = stride as int;
            assert(n * st <= w) by (nonlinear_arith)
                requires n <= w / st, st > 0, w >= 0;
        }
        draw_bars(buf, &layout, &levels, &set, self.style, false);

        let ghost bars_drawn = buf.cells();
        let bottom = chart_area.y + chart_area.height;
        for i in 0..max_index
            invariant
                buf.wf(),
                buf.area == old(buf).area,
                self.wf(),
                max_index == self.shown(area),
                max_index <= self.data@.len(),
                chart_area == self.chart_area(area),
                chart_area.height >= 2,
                region_in(*buf, chart_area),
                stride == self.bar_width + self.bar_gap,
                stride > 0,
                bottom == chart_area.y + chart_area.height,
                max_index * stride <= chart_area.width,
                buf.cells() == self.labels_cells(buf.area, bars_drawn, chart_area, i as int),
        {
            proof {
                let st = stride as int;
                assert(i * st + st <= max_index * st) by (nonlinear_arith)
                    requires i < max_index, st > 0;
            }
            let x0 = chart_area.x + (i as u16) * stride;
            let (label, value) = self.data[i];
            if value != 0 {
                let value_width = width_of(self.values[i].as_str()) as u16;
                if value_width < self.bar_width {
                    buf.set_string(x0 + (self.bar_width - value_width) / 2, bottom - 2, self.values[i].as_str(), self.value_style);
                }
            }
            buf.set_stringn(x0, bottom - 1, label, self.bar_width as usize, self.label_style);
        }
    }
}

/// Every value of `s` is at most `data_max(s)`, and a non-empty `s` holds it.
pub proof fn lemma_data_max(s: Seq<(&str, u64)>)
    ensures
        forall|j: int| 0 <= j < s.len() ==> s[j].1 <= data_max(s),
        s.len() > 0 ==> exists|j: int| 0 <= j < s.len() && s[j].1 == data_max(s),
    decreases s.len(),
{
    if s.len() > 0 {
        let t = s.drop_last();
        lemma_data_max(t);
        assert forall|j: int| 0 <= j < s.len() implies s[j].1 <= data_max(s) by {
            if j < s.len() - 1 {
                assert(s[j] == t[j]);
            }
        }
        if s.last().1 <= data_max(t) && t.len() > 0 {
            let j = choose|j: int| 0 <= j < t.len() && t[j].1 == data_max(t);
            assert(s[j] == t[j]);
        } else {
            assert(s[s.len() - 1] == s.last());
        }
    }
}

impl<'a> BarChart<'a> {
    /// With no maximum given, the bars are scaled to the largest value of the data: no bar is
    /// higher than the chart, a bar of the largest value reaches its top exactly, and a larger
    /// value never gets a lower bar.
    pub proof fn lemma_largest_value_fills(self, area: Rect)
        requires
            self.max is None,
            self.bar_width + self.bar_gap > 0,
            exists|j: int| 0 <= j < self.data@.len() && self.data@[j].1 > 0,
        ensures
            ({
                let full = self.chart_area(area).height * 8;
                let lv = self.levels(area);
                &&& forall|i: int| 0 <= i < lv.len() ==> lv[i] <= full
                &&& forall|i: int| 0 <= i < lv.len() && (forall|j: int| 0 <= j < self.data@.len() ==> self.data@[j].1 <= self.data@[i].1)
                    ==> lv[i] == full
                &&& forall|i: int, k: int| 0 <= i < lv.len() && 0 <= k < lv.len() && self.data@[i].1 <= self.data@[k].1
                    ==> lv[i] <= lv[k]
            }),
    {
        let d = self.data@;
        let h = self.chart_area(area).height as int;
        let m = self.top_value() as int;
        lemma_data_max(d);
        assert(0 <= self.shown(area) <= d.len()) by {
            vstd::arithmetic::div_mod::lemma_div_pos_is_pos(self.chart_area(area).width as int, (self.bar_width + self.bar_gap) as int);
        }
        let j0 = choose|j: int| 0 <= j < d.len() && d[j].1 > 0;
        assert(d[j0].1 <= data_max(d));
        assert(m > 0);
        let lv = self.levels(area);
        assert forall|i: int| 0 <= i < lv.len() implies lv[i] <= h * 8 by {
            lemma_scaled_to_top(d[i].1 as int, h * 8, m);
            assert(d[i].1 * h * 8 == (d[i].1 as int) * (h * 8)) by (nonlinear_arith);
        }
        assert forall|i: int| 0 <= i < lv.len() && (forall|j: int| 0 <= j < d.len() ==> d[j].1 <= d[i].1) implies lv[i] == h * 8 by {
            let jm = choose|j: int| 0 <= j < d.len() && d[j].1 == data_max(d);
            assert(d[jm].1 <= d[i].1);
            lemma_scaled_to_top(d[i].1 as int, h * 8, m);
            assert(d[i].1 * h * 8 == (d[i].1 as int) * (h * 8)) by (nonlinear_arith);
        }
        assert forall|i: int, k: int| 0 <= i < lv.len() && 0 <= k < lv.len() && d[i].1 <= d[k].1 implies lv[i] <= lv[k] by {
            assert(d[i].1 * h * 8 <= d[k].1 * h * 8) by (nonlinear_arith)
                requires d[i].1 <= d[k].1, h >= 0;
            vstd::arithmetic::div_mod::lemma_div_is_ordered(d[i].1 * h * 8, d[k].1 * h * 8, m);
            lemma_scaled_to_top(d[i].1 as int, h * 8, m);
            lemma_scaled_to_top(d[k].1 as int, h * 8, m);
            assert(d[i].1 * h * 8 == (d[i].1 as int) * (h * 8)) by (nonlinear_arith);
            assert(d[k].1 * h * 8 == (d[k].1 as int) * (h * 8)) by (nonlinear_arith);
        }
    }
}

} // verus!
