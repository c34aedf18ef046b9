//! A sparkline: one bar per value, in eighths of a cell, over one or more rows.
use vstd::prelude::*;

use crate::buffer::{region_in, Buffer};
use crate::layout::Rect;
use crate::style::{default_style, Style};
use crate::symbols::bar::{nine_levels, NINE_LEVELS};
use crate::widgets::bars::{bars_cells, draw_bars, BarsLayout};
use crate::widgets::block::Block;

verus! {

/// The largest value of `s`, `0` when it is empty.
pub open spec fn seq_max(s: Seq<u64>) -> u64
    decreases s.len(),
{
    if s.len() == 0 {
        0
    } else {
        let m = seq_max(s.drop_last());
        if s.last() > m { s.last() } else { m }
    }
}

/// The largest value of a slice, `0` when it is empty.
pub(crate) fn slice_max(s: &[u64]) -> (m: u64)
    ensures m == seq_max(s@),
{
    let mut m: u64 = 0;
    for i in 0..s.len()
        invariant
            m == seq_max(s@.take(i as int)),
    {
        assert(s@.take(i + 1).drop_last() =~= s@.take(i as int));
        if s[i] > m {
            m = s[i];
        }
    }
    assert(s@.take(s@.len() as int) =~= s@);
    m
}

/// Widget to render a sparkline over one or more lines.
pub struct Sparkline<'a> {
    /// A block to wrap the widget in
    pub block: Option<Block<'a>>,
    /// Widget style
    pub style: Style,
    /// A slice of the data to display
    pub data: &'a [u64],
    /// The value that reaches the top of the area; by default the largest value of the data
    pub max: Option<u64>,
}

impl<'a> Default for Sparkline<'a> {
    fn default() -> (s: Sparkline<'a>)
        ensures
            s.block.is_none(),
            s.style == default_style(),
            s.data@.len() == 0,
            s.max.is_none(),
    {
        Sparkline { block: None, style: Style::new(), data: &[], max: None }
    }
}

impl<'a> Sparkline<'a> {
    pub fn block(self, block: Block<'a>) -> (s: Sparkline<'a>)
        ensures s == (Sparkline { block: Some(block), ..self }),
    {
        let mut s = self;
        s.block = Some(block);
        s
    }

    pub fn style(self, style: Style) -> (s: Sparkline<'a>)
        ensures s == (Sparkline { style, ..self }),
    {
        let mut s = self;
        s.style = style;
        s
    }

    pub fn data(self, data: &'a [u64]) -> (s: Sparkline<'a>)
        ensures s == (Sparkline { data, ..self }),
    {
        let mut s = self;
        s.data = data;
        s
    }

    pub fn max(self, max: u64) -> (s: Sparkline<'a>)
        ensures s == (Sparkline { max: Some(max), ..self }),
    {
        let mut s = self;
        s.max = Some(max);
        s
    }

    /// The area the bars are drawn in: inside the block, if there is one.
    pub open spec fn spark_area(self, area: Rect) -> Rect {
        match self.block {
            Some(b) => b.spec_inner(area),
            None => area,
        }
    }

    /// The value that reaches the top: the one given, else the largest of the data, else `1`.
    pub open spec fn top_value(self) -> u64 {
        match self.max {
            Some(v) => v,
            None => if self.data@.len() == 0 { 1 } else { seq_max(self.data@) },
        }
    }

    /// How many values are shown: one per column, as far as the data goes.
    pub open spec fn shown(self, area: Rect) -> int {
        let w = self.spark_area(area).width as int;
        if w < self.data@.len() { w } else { self.data@.len() as int }
    }

    /// The heights of the bars, in eighths of a cell: each value scaled so that the top value
    /// fills the area.
    pub open spec fn levels(self, area: Rect) -> Seq<u64> {
        let h = self.spark_area(area).height as int;
        Seq::new(self.shown(area) as nat, |i: int| (self.data@[i] * h * 8 / (self.top_value() as int)) as u64)
    }

    /// Whether the sparkline can be drawn on `area`: the block's inner area computes, what is
    /// drawn lies in the buffer, the top value is not zero and no scaled value overflows.
    pub open spec fn drawable(self, buf: Buffer, area: Rect) -> bool {
        let s = self.spark_area(area);
        &&& self.block matches Some(b) ==> b.inner_computable(area)
        &&& (self.block is Some && area.width >= 2 && area.height >= 2) ==> region_in(buf, area)
        &&& (s.height >= 1 && self.shown(area) > 0) ==> {
            &&& region_in(buf, s)
            &&& self.top_value() > 0
            &&& forall|i: int| 0 <= i < self.shown(area) ==> #[trigger] self.data@[i] * s.height * 8 <= u64::MAX
        }
    }

    /// The cells after the sparkline is drawn on `area` over `cells`: the block, then the bars,
    /// which set the symbol and the colors of their cells.
    pub open spec fn drawn_cells(self, buf_area: Rect, cells: Seq<(Seq<char>, Style)>, area: Rect) -> Seq<(Seq<char>, Style)> {
        let s = self.spark_area(area);
        let c0 = match self.block {
            Some(b) => b.drawn_cells(buf_area, cells, area),
            None => cells,
        };
        if s.height < 1 {
            c0
        } else {
            let layout = BarsLayout { left: s.x, top: s.y, rows: s.height, width: 1, stride: 1 };
            bars_cells(buf_area, c0, layout, self.levels(area), nine_levels(), self.style, true)
        }
    }

    pub fn draw(&self, area: Rect, buf: &mut Buffer)
        requires
            old(buf).wf(),
            self.drawable(*old(buf), area),
        ensures
            final(buf).wf(),
            final(buf).area == old(buf).area,
            final(buf).cells() == self.drawn_cells(old(buf).area, old(buf).cells(), area),
    {
        let spark_area = match &self.block {
            Some(b) => {
                b.draw(area, buf);
                b.inner(area)
            },
            None => area,
        };
        if spark_area.height < 1 {
            return;
        }
        let max = match self.max {
            Some(v) => v,
            None => if self.data.len() == 0 { 1 } else { slice_max(self.data) },
        };
        let max_index = if (spark_area.width as usize) < self.data.len() { spark_area.width as usize } else { self.data.len() };
        let h = spark_area.height as u64;
        let mut levels: Vec<u64> = Vec::new();
        for i in 0..max_index
            invariant
                max_index == self.shown(area),
                max == self.top_value(),
                h == self.spark_area(area).height,
                h >= 1,
                max_index <= self.data@.len(),
                max_index > 0 ==> max > 0,
                forall|j: int| 0 <= j < max_index ==> #[trigger] self.data@[j] * h * 8 <= u64::MAX,
                levels@ =~= self.levels(area).take(i as int),
        {
            assert(self.data@[i as int] * h * 8 <= u64::MAX);
            levels.push(self.data[i] * h * 8 / max);
        }
        let layout = BarsLayout { left: spark_area.x, top: spark_area.y, rows: spark_area.height, width: 1, stride: 1 };
        let set = NINE_LEVELS();
        proof {
            assert(levels@ =~= self.levels(area));
            let n = levels@.len() as int;
            assert(n * layout.stride == n) by (nonlinear_arith)
                requires layout.stride == 1;
            assert(max_index <= spark_area.width);
            if levels@.len() > 0 {
                assert(layout.bounds(levels@.len() as int) == Rect { x: spark_area.x, y: spark_area.y, width: max_index as u16, height: spark_area.height });
            }
        }
        draw_bars(buf, &layout, &levels, &set, self.style, true);
    }
}

/// Every value of `s` is at most `seq_max(s)`, and a non-empty `s` holds it.
pub proof fn lemma_seq_max(s: Seq<u64>)
    ensures
        forall|j: int| 0 <= j < s.len() ==> s[j] <= seq_max(s),
        s.len() > 0 ==> exists|j: int| 0 <= j < s.len() && s[j] == seq_max(s),
    decreases s.len(),
{
    if s.len() > 0 {
        let t = s.drop_last();
        lemma_seq_max(t);
        assert forall|j: int| 0 <= j < s.len() implies s[j] <= seq_max(s) by {
            if j < s.len() - 1 {
                assert(s[j] == t[j]);
            }
        }
        if s.last() <= seq_max(t) && t.len() > 0 {
            let j = choose|j: int| 0 <= j < t.len() && t[j] == seq_max(t);
            assert(s[j] == t[j]);
        } else {
            assert(s[s.len() - 1] == s.last());
        }
    }
}

/// `a * c / m` is at most `c` for `a <= m`, and `c` for `a == m`.
pub proof fn lemma_scaled_to_top(a: int, c: int, m: int)
    requires
        0 <= a <= m,
        m > 0,
        c >= 0,
    ensures
        a * c / m <= c,
        a == m ==> a * c / m == c,
{
    assert(a * c <= m * c) by (nonlinear_arith)
        requires 0 <= a <= m, c >= 0;
    vstd::arithmetic::div_mod::lemma_div_is_ordered(a * c, m * c, m);
    vstd::arithmetic::div_mod::lemma_div_multiples_vanish(c, m);
    assert(m * c == c * m) by (nonlinear_arith);
}

impl<'a> Sparkline<'a> {
    /// With no maximum given, the bars are scaled to the largest value of the data: no bar is
    /// higher than the area, a bar of the largest value fills it exactly, and a larger value
    /// never gets a lower bar.
    pub proof fn lemma_largest_value_fills(self, area: Rect)
        requires
            self.max is None,
            exists|j: int| 0 <= j < self.data@.len() && self.data@[j] > 0,
        ensures
            ({
                let full = self.spark_area(area).height * 8;
                let lv = self.levels(area);
                &&& forall|i: int| 0 <= i < lv.len() ==> lv[i] <= full
                &&& forall|i: int| 0 <= i < lv.len() && (forall|j: int| 0 <= j < self.data@.len() ==> self.data@[j] <= self.data@[i])
                    ==> lv[i] == full
                &&& forall|i: int, k: int| 0 <= i < lv.len() && 0 <= k < lv.len() && self.data@[i] <= self.data@[k]
                    ==> lv[i] <= lv[k]
            }),
    {
        let d = self.data@;
        let h = self.spark_area(area).height as int;
        let m = self.top_value() as int;
        lemma_seq_max(d);
        let j0 = choose|j: int| 0 <= j < d.len() && d[j] > 0;
        assert(d[j0] <= seq_max(d));
        assert(m > 0);
        let lv = self.levels(area);
        assert forall|i: int| 0 <= i < lv.len() implies lv[i] <= h * 8 by {
            lemma_scaled_to_top(d[i] as int, h * 8, m);
            assert(d[i] * h * 8 == (d[i] as int) * (h * 8)) by (nonlinear_arith);
        }
        assert forall|i: int| 0 <= i < lv.len() && (forall|j: int| 0 <= j < d.len() ==> d[j] <= d[i]) implies lv[i] == h * 8 by {
            let jm = choose|j: int| 0 <= j < d.len() && d[j] == seq_max(d);
            assert(d[jm] <= d[i]);
            lemma_scaled_to_top(d[i] as int, h * 8, m);
            assert(d[i] * h * 8 == (d[i] as int) * (h * 8)) by (nonlinear_arith);
        }
        assert forall|i: int, k: int| 0 <= i < lv.len() && 0 <= k < lv.len() && d[i] <= d[k] implies lv[i] <= lv[k] by {
            assert(d[i] * h * 8 <= d[k] * h * 8) by (nonlinear_arith)
                requires d[i] <= d[k], h >= 0;
            vstd::arithmetic::div_mod::lemma_div_is_ordered(d[i] * h * 8, d[k] * h * 8, m);
            lemma_scaled_to_top(d[i] as int, h * 8, m);
            lemma_scaled_to_top(d[k] as int, h * 8, m);
            assert(d[i] * h * 8 == (d[i] as int) * (h * 8)) by (nonlinear_arith);
            assert(d[k] * h * 8 == (d[k] as int) * (h * 8)) by (nonlinear_arith);
        }
    }
}

} // verus!
