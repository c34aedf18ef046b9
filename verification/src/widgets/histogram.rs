//! A histogram: values counted into buckets of equal size, each bucket drawn as a bar.
use vstd::prelude::*;

use crate::buffer::{region_in, restyled_cells, string_cells, Buffer, Restyle};
use crate::layout::Rect;
use crate::style::{default_style, Style};
use crate::symbols::bar::{nine_levels, BarSet, NINE_LEVELS};
use crate::unicode::{display_width, width_of};
use crate::widgets::bars::{bars_cells, decimal, decimal_string, draw_bars, BarsLayout};
use crate::widgets::block::Block;
use crate::widgets::sparkline::{seq_max, slice_max};

verus! {

/// The smallest value of `s`, `u64::MAX` when it is empty.
pub open spec fn seq_min(s: Seq<u64>) -> u64
    decreases s.len(),
{
    if s.len() == 0 {
        u64::MAX
    } else {
        let m = seq_min(s.drop_last());
        if s.last() < m { s.last() } else { m }
    }
}

/// The size of each of `n` buckets that together cover the values from the smallest to the
/// largest of `data`: the range divided by `n`, rounded up.
pub open spec fn bucket_size(data: Seq<u64>, n: int) -> int {
    let range = seq_max(data) + 1 - seq_min(data);
    (range + n - 1) / n
}

/// Whether `x` falls in bucket `b` of buckets `size` wide from 0 on.
pub open spec fn in_bucket(x: int, size: int, b: int) -> bool {
    b * size <= x < (b + 1) * size
}

/// How many values `x` of `s` fall in bucket `b`, that is `b * size <= x < (b + 1) * size`.
pub open spec fn bucket_count(s: Seq<u64>, size: int, b: int) -> nat
    decreases s.len(),
{
    if s.len() == 0 {
        0
    } else {
        bucket_count(s.drop_last(), size, b) + if in_bucket(s.last() as int, size, b) { 1nat } else { 0nat }
    }
}

proof fn lemma_min_max_bounds(s: Seq<u64>, i: int)
    requires
        0 <= i < s.len(),
    ensures
        seq_min(s) <= s[i] <= seq_max(s),
    decreases s.len(),
{
    if i < s.len() - 1 {
        lemma_min_max_bounds(s.drop_last(), i);
    }
}

proof fn lemma_bucket_count_bound(s: Seq<u64>, size: int, b: int)
    ensures
        bucket_count(s, size, b) <= s.len(),
    decreases s.len(),
{
    if s.len() > 0 {
        lemma_bucket_count_bound(s.drop_last(), size, b);
    }
}

/// A bar chart specialized for showing histograms.
pub struct Histogram<'a> {
    /// Block to wrap the widget in
    pub block: Option<Block<'a>>,
    /// The gap between each bar
    pub bar_gap: u16,
    /// Set of symbols used to display the data
    pub bar_set: BarSet,
    /// Style of the bars
    pub bar_style: Style,
    /// Style of the values printed at the bottom of each bar
    pub value_style: Style,
    /// Style of the labels printed under each bar
    pub label_style: Style,
    /// Style for the widget
    pub style: Style,
    /// Slice of values to plot on the chart
    pub data: &'a [u64],
    /// Each bucket keeps a count of the data points that fall into it:
    /// buckets[0] counts items where 0 <= x < bucket_size,
    /// buckets[1] counts items where bucket_size <= x < 2*bucket_size, etc.
    pub buckets: Vec<u64>,
    /// Value necessary for a bar to reach the maximum height
    pub max: Option<u64>,
    /// The label of each bucket: the value where it starts
    pub values: Vec<String>,
}

impl<'a> Default for Histogram<'a> {
    fn default() -> (h: Histogram<'a>)
        ensures
            h.block.is_none(),
            h.max.is_none(),
            h.data@.len() == 0,
            h.values@.len() == 0,
            h.buckets@.len() == 0,
            h.bar_style == default_style(),
            h.bar_gap == 1,
            h.bar_set.0@ == nine_levels(),
            h.value_style == default_style(),
            h.label_style == default_style(),
            h.style == default_style(),
    {
        Histogram {
            block: None,
            max: None,
            data: &[],
            values: Vec::new(),
            bar_style: Style::new(),
            bar_gap: 1,
            bar_set: NINE_LEVELS(),
            buckets: Vec::new(),
            value_style: Style::new(),
            label_style: Style::new(),
            style: Style::new(),
        }
    }
}

impl<'a> Histogram<'a> {
    /// Counts `data` into `n_buckets` buckets of equal size: the range from the smallest value
    /// to the largest divided by `n_buckets`, rounded up. Bucket `k` counts the values `x` with
    /// `k * size <= x < (k + 1) * size`, and is labelled by `k * size`; values beyond the last
    /// bucket are counted in none. The fullest bucket reaches the top.
    pub fn data(self, data: &'a [u64], n_buckets: u64) -> (h: Histogram<'a>)
        requires
            data@.len() > 0,
            n_buckets > 0,
            n_buckets <= usize::MAX,
            seq_max(data@) < u64::MAX,
            (n_buckets - 1) * bucket_size(data@, n_buckets as int) <= u64::MAX,
        ensures
            h.data == data,
            h.buckets@.len() == n_buckets,
            forall|b: int| 0 <= b < n_buckets ==> #[trigger] h.buckets@[b] == bucket_count(
                data@,
                bucket_size(data@, n_buckets as int),
                b,
            ),
            h.values@.len() == n_buckets,
            forall|b: int| 0 <= b < n_buckets ==> (#[trigger] h.values@[b])@ == decimal((b * bucket_size(data@, n_buckets as int)) as nat),
            h.max == Some(seq_max(h.buckets@)),
            h.block == self.block,
            h.bar_gap == self.bar_gap,
            h.bar_set == self.bar_set,
            h.bar_style == self.bar_style,
            h.value_style == self.value_style,
            h.label_style == self.label_style,
            h.style == self.style,
    {
        let mut h = self;
        h.data = data;
        let mut lo: u64 = u64::MAX;
        for i in 0..data.len()
            invariant
                lo == seq_min(data@.take(i as int)),
        {
            assert(data@.take(i + 1).drop_last() =~= data@.take(i as int));
            if data[i] < lo {
                lo = data[i];
            }
        }
        assert(data@.take(data@.len() as int) =~= data@);
        let hi = slice_max(data) + 1;
        proof {
            lemma_min_max_bounds(data@, 0);
        }
        let range = hi - lo;
        let wide: u128 = (range as u128 + n_buckets as u128 - 1) / (n_buckets as u128);
        proof {
            let (r, n) = (range as int, n_buckets as int);
            assert(r + n - 1 <= r * n) by (nonlinear_arith)
                requires r >= 1, n >= 1;
            assert((r + n - 1) / n <= r) by (nonlinear_arith)
                requires r + n - 1 <= r * n, n >= 1, r >= 1;
            assert((r + n - 1) / n >= 1) by (nonlinear_arith)
                requires r >= 1, n >= 1;
            let q = (r + n - 1) / n;
            vstd::arithmetic::div_mod::lemma_fundamental_div_mod(r + n - 1, n);
            assert(q * n >= r) by (nonlinear_arith)
                requires r + n - 1 == n * q + (r + n - 1) % n, (r + n - 1) % n < n, n >= 1;
        }
        let size = wide as u64;
        assert(size == bucket_size(data@, n_buckets as int));
        let n = n_buckets as usize;
        let mut values: Vec<String> = Vec::new();
        let mut v: u64 = 0;
        while v < n_buckets
            invariant
                v <= n_buckets,
                values@.len() == v,
                size == bucket_size(data@, n_buckets as int),
                (n_buckets - 1) * size <= u64::MAX,
                forall|b: int| 0 <= b < v ==> (#[trigger] values@[b])@ == decimal((b * size) as nat),
            decreases n_buckets - v,
        {
            assert(v * size <= (n_buckets - 1) * size) by (nonlinear_arith)
                requires v <= n_buckets - 1, size >= 0;
            values.push(decimal_string(v * size));
            v = v + 1;
        }
        let mut buckets: Vec<u64> = Vec::new();
        let mut b: usize = 0;
        while b < n
            invariant
                b <= n,
                n == n_buckets,
                buckets@.len() == b,
                forall|j: int| 0 <= j < b ==> #[trigger] buckets@[j] == 0,
            decreases n - b,
        {
            buckets.push(0);
            b = b + 1;
        }
        for i in 0..data.len()
            invariant
                n == n_buckets,
                buckets@.len() == n,
                size == bucket_size(data@, n_buckets as int),
                size >= 1,
                lo == seq_min(data@),
                hi == seq_max(data@) + 1,
                range == hi - lo,
                size * n_buckets >= range,
                forall|j: int| 0 <= j < n ==> #[trigger] buckets@[j] == bucket_count(data@.take(i as int), size as int, j),
        {
            proof {
                assert(data@.take(i + 1).drop_last() =~= data@.take(i as int));
            }
            let x = data[i];
            let idx = x / size;
            proof {
                let (xx, ss, k) = (x as int, size as int, idx as int);
                vstd::arithmetic::div_mod::lemma_fundamental_div_mod(xx, ss);
                assert(k * ss <= xx < (k + 1) * ss) by (nonlinear_arith)
                    requires xx == ss * k + xx % ss, 0 <= xx % ss < ss, ss >= 1;
                assert(in_bucket(xx, ss, k));
                assert forall|j: int| j != k implies !#[trigger] in_bucket(xx, ss, j) by {
                    if j < k {
                        assert((j + 1) * ss <= k * ss) by (nonlinear_arith)
                            requires j + 1 <= k, ss >= 1;
                    } else {
                        assert((k + 1) * ss <= j * ss) by (nonlinear_arith)
                            requires k + 1 <= j, ss >= 1;
                    }
                }
            }
            if idx < n_buckets {
                let k = idx as usize;
                proof {
                    lemma_bucket_count_bound(data@.take(i as int), size as int, k as int);
                }
                let count = buckets[k] + 1;
                buckets.set(k, count);
            }
        }
        assert(data@.take(data@.len() as int) =~= data@);
        h.max = Some(slice_max(buckets.as_slice()));
        h.buckets = buckets;
        h.values = values;
        h
    }

    pub fn block(self, block: Block<'a>) -> (h: Histogram<'a>)
        ensures h == (Histogram { block: Some(block), ..self }),
    {
        let mut h = self;
        h.block = Some(block);
        h
    }

    pub fn max(self, max: u64) -> (h: Histogram<'a>)
        ensures h == (Histogram { max: Some(max), ..self }),
    {
        let mut h = self;
        h.max = Some(max);
        h
    }

    pub fn bar_style(self, style: Style) -> (h: Histogram<'a>)
        ensures h == (Histogram { bar_style: style, ..self }),
    {
        let mut h = self;
        h.bar_style = style;
        h
    }

    pub fn bar_gap(self, gap: u16) -> (h: Histogram<'a>)
        ensures h == (Histogram { bar_gap: gap, ..self }),
    {
        let mut h = self;
        h.bar_gap = gap;
        h
    }

    pub fn bar_set(self, bar_set: BarSet) -> (h: Histogram<'a>)
        ensures h == (Histogram { bar_set, ..self }),
    {
        let mut h = self;
        h.bar_set = bar_set;
        h
    }

    pub fn value_style(self, style: Style) -> (h: Histogram<'a>)
        ensures h == (Histogram { value_style: style, ..self }),
    {
        let mut h = self;
        h.value_style = style;
        h
    }

    pub fn label_style(self, style: Style) -> (h: Histogram<'a>)
        ensures h == (Histogram { label_style: style, ..self }),
    {
        let mut h = self;
        h.label_style = style;
        h
    }

    pub fn style(self, style: Style) -> (h: Histogram<'a>)
        ensures h == (Histogram { style, ..self }),
    {
        let mut h = self;
        h.style = style;
        h
    }
    /// The area the chart is drawn in: inside the block, if there is one.
    pub open spec fn chart_area(self, area: Rect) -> Rect {
        match self.block {
            Some(b) => b.spec_inner(area),
            None => area,
        }
    }

    /// The width of the bars, which share the chart's width with a gap before, between and after
    /// them.
    pub open spec fn bar_width_in(self, chart: Rect) -> int {
        let n = self.buckets@.len() as int;
        (chart.width - (n + 1) * self.bar_gap) / n
    }

    /// The value that reaches the top: the one given, else the fullest bucket.
    pub open spec fn top_value(self) -> u64 {
        match self.max {
            Some(v) => v,
            None => seq_max(self.buckets@),
        }
    }

    /// The heights of the bars, in eighths of a cell, over all rows of the chart but the last.
    pub open spec fn levels(self, chart: Rect) -> Seq<u64> {
        let h = chart.height - 1;
        let top = if self.top_value() > 1 { self.top_value() as int } else { 1 };
        Seq::new(self.buckets@.len(), |i: int| (self.buckets@[i] * h * 8 / top) as u64)
    }

    /// The cells after the count and the label of the first `k` buckets are printed over
    /// `cells`: a non-zero count on the row above the last, centred on its bar when narrower than
    /// it; the label on the last row, cut to the bar's width.
    pub open spec fn labels_cells(self, buf_area: Rect, cells: Seq<(Seq<char>, Style)>, chart: Rect, k: int) -> Seq<(Seq<char>, Style)>
        decreases k,
    {
        if k <= 0 {
            cells
        } else {
            let prev = self.labels_cells(buf_area, cells, chart, k - 1);
            let i = k - 1;
            let bw = self.bar_width_in(chart);
            let x0 = chart.x + i * (bw + self.bar_gap);
            let count = decimal(self.buckets@[i] as nat);
            let count_width = display_width(count) as u16;
            let with_count = if self.buckets@[i] != 0 && count_width < bw {
                string_cells(buf_area, prev, x0 + (bw - count_width) / 2, chart.y + chart.height - 2, count, usize::MAX as int, self.value_style)
            } else {
                prev
            };
            if bw > 0 {
                string_cells(buf_area, with_count, x0, chart.y + chart.height - 1, self.values@[i]@, bw, self.label_style)
            } else {
                with_count
            }
        }
    }

    /// Whether the histogram can be drawn on `area`: it lies in the buffer, the block's inner
    /// area computes, there are at most `u16::MAX` buckets and a label for each, and, when there
    /// is room for the bars, there is a bucket, the gaps fit in the width and no scaled count
    /// overflows.
    pub open spec fn drawable(self, buf: Buffer, area: Rect) -> bool {
        let c = self.chart_area(area);
        let n = self.buckets@.len() as int;
        &&& region_in(buf, area)
        &&& self.block matches Some(b) ==> b.inner_computable(area)
        &&& self.values@.len() == n
        &&& n <= u16::MAX
        &&& c.height >= 2 ==> {
            &&& n < u16::MAX
            &&& region_in(buf, c)
            &&& n > 0
            &&& (n + 1) * self.bar_gap <= c.width
            &&& forall|i: int| 0 <= i < n ==> #[trigger] self.buckets@[i] * (c.height - 1) * 8 <= u64::MAX
        }
    }

    /// The cells after the histogram is drawn on `area` over `cells`: the widget's style over the
    /// area, the block, the bars, then the counts and labels.
    pub open spec fn drawn_cells(self, buf_area: Rect, cells: Seq<(Seq<char>, Style)>, area: Rect) -> Seq<(Seq<char>, Style)> {
        let c = self.chart_area(area);
        let c0 = restyled_cells(buf_area, cells, area, Restyle::Whole(self.style));
        let c1 = match self.block {
            Some(b) => b.drawn_cells(buf_area, c0, area),
            None => c0,
        };
        if c.height < 2 {
            c1
        } else {
            let bw = self.bar_width_in(c);
            let layout = BarsLayout {
                left: c.x,
                top: c.y,
                rows: (c.height - 1) as u16,
                width: bw as u16,
                stride: (bw + self.bar_gap) as u16,
            };
            let c2 = bars_cells(buf_area, c1, layout, self.levels(c), self.bar_set.0@, self.bar_style, false);
            self.labels_cells(buf_area, c2, c, self.buckets@.len() as int)
        }
    }

    pub fn render(&self, area: Rect, buf: &mut Buffer)
        requires
            old(buf).wf(),
            self.drawable(*old(buf), area),
        ensures
            final(buf).wf(),
            final(buf).area == old(buf).area,
            final(buf).cells() == self.drawn_cells(old(buf).area, old(buf).cells(), area),
    {
        buf.set_style(area, self.style);
        let chart_area = match &self.block {
            Some(b) => {
                b.draw(area, buf);
                b.inner(area)
            },
            None => area,
        };
        if chart_area.height < 2 {
            return;
        }
        let n_bars = self.buckets.len() as u16;
        proof {
            let (n, g) = (n_bars as int, self.bar_gap as int);
            assert((n + 1) * g == n * g + g) by (nonlinear_arith);
        }
        let bar_width: u16 = (chart_area.width - (n_bars + 1) * self.bar_gap) / n_bars;
        let stride = bar_width + self.bar_gap;
        proof {
            let (n, g, w, bw) = (n_bars as int, self.bar_gap as int, chart_area.width as int, bar_width as int);
            assert(bw * n <= w - (n + 1) * g) by (nonlinear_arith)
                requires bw == (w - (n + 1) * g) / n, n >= 1, w - (n + 1) * g >= 0;
            assert(n * (bw + g) <= w) by (nonlinear_arith)
                requires bw * n <= w - (n + 1) * g, n >= 1, g >= 0;
        }
        let max = match self.max {
            Some(v) => v,
            None => slice_max(self.buckets.as_slice()),
        };
        let top = if max > 1 { max } else { 1 };
        let h = (chart_area.height - 1) as u64;
        let mut levels: Vec<u64> = Vec::new();
        for i in 0..self.buckets.len()
            invariant
                top == (if self.top_value() > 1 { self.top_value() } else { 1 }),
                h == chart_area.height - 1,
                chart_area == self.chart_area(area),
                forall|j: int| 0 <= j < self.buckets@.len() ==> #[trigger] self.buckets@[j] * (chart_area.height - 1) * 8 <= u64::MAX,
                levels@ =~= self.levels(chart_area).take(i as int),
        {
            assert(self.buckets@[i as int] * (chart_area.height - 1) * 8 <= u64::MAX);
            levels.push(self.buckets[i] * h * 8 / top);
        }
        let layout = BarsLayout {
            left: chart_area.x,
            top: chart_area.y,
            rows: chart_area.height - 1,
            width: bar_width,
            stride,
        };
        proof {
            assert(levels@ =~= self.levels(chart_area));
        }
        if stride > 0 {
            draw_bars(buf, &layout, &levels, &self.bar_set, self.bar_style, false);
        } else {
            proof {
                assert(buf.cells() =~= bars_cells(buf.area, buf.cells(), layout, levels@, self.bar_set.0@, self.bar_style, false));
            }
        }

        let ghost bars_drawn = buf.cells();
        let bottom = chart_area.y + chart_area.height;
        for i in 0..self.buckets.len()
            invariant
                buf.wf(),
                buf.area == old(buf).area,
                self.values@.len() == self.buckets@.len(),
                self.buckets@.len() == n_bars,
                chart_area == self.chart_area(area),
                chart_area.height >= 2,
                region_in(*buf, chart_area),
                bar_width == self.bar_width_in(chart_area),
                stride == bar_width + self.bar_gap,
                bottom == chart_area.y + chart_area.height,
                n_bars * stride <= chart_area.width,
                buf.cells() == self.labels_cells(buf.area, bars_drawn, chart_area, i as int),
        {
            proof {
                let st = stride as int;
                assert(i * st + st <= n_bars * st) by (nonlinear_arith)
                    requires i < n_bars, st >= 0;
            }
            let x0 = chart_area.x + (i as u16) * stride;
            let value = self.buckets[i];
            if value != 0 {
                let count = decimal_string(value);
                let count_width = width_of(count.as_str()) as u16;
                if count_width < bar_width {
                    buf.set_string(x0 + (bar_width - count_width) / 2, bottom - 2, count.as_str(), self.value_style);
                }
            }
            if bar_width > 0 {
                buf.set_stringn(x0, bottom - 1, self.values[i].as_str(), bar_width as usize, self.label_style);
            }
        }
    }
}


} // verus!
