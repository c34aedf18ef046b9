//! A chart's frame: where its axes, their labels and titles, its legend and its graph go in its
//! area, and the drawing of all but the data points. The data points are floating-point values
//! and are plotted into the graph area outside the library, between the frame and the legend.
use vstd::prelude::*;

use crate::buffer::{region_in, restyled_cells, spans_run, string_cells, Buffer, Restyle};
use crate::layout::{max_u16, Constraint, Rect};
use crate::style::Style;
use crate::symbols::line;
use crate::text::{lemma_spans_width_prefix, spans_width, Span, Spans};
use crate::unicode::{display_width, width_of};
use crate::widgets::block::{BorderType, Block};
use crate::widgets::Borders;

verus! {

/// Used to determine which style of graphing to use
#[derive(Debug, Clone, Copy, PartialEq, Eq, Structural)]
pub enum GraphType {
    /// Draw each point
    Scatter,
    /// Draw each point and lines between each point using the same marker
    Line,
}

impl Default for GraphType {
    fn default() -> (g: GraphType)
        ensures g == GraphType::Scatter,
    {
        GraphType::Scatter
    }
}

/// Where each element of a chart goes: the axes' titles, the first labels of the axes, the axes
/// themselves, the legend and the graph.
#[derive(Debug, Clone, Copy, PartialEq, Eq)]
pub struct ChartLayout {
    /// Location of the title of the x axis
    pub title_x: Option<(u16, u16)>,
    /// Location of the title of the y axis
    pub title_y: Option<(u16, u16)>,
    /// Location of the first label of the x axis
    pub label_x: Option<u16>,
    /// Location of the first label of the y axis
    pub label_y: Option<u16>,
    /// Y coordinate of the horizontal axis
    pub axis_x: Option<u16>,
    /// X coordinate of the vertical axis
    pub axis_y: Option<u16>,
    /// Area of the legend
    pub legend_area: Option<Rect>,
    /// Area of the graph
    pub graph_area: Rect,
}

/// The layout with nothing placed and an empty graph.
pub open spec fn empty_layout() -> ChartLayout {
    ChartLayout {
        title_x: None,
        title_y: None,
        label_x: None,
        label_y: None,
        axis_x: None,
        axis_y: None,
        legend_area: None,
        graph_area: Rect { x: 0, y: 0, width: 0, height: 0 },
    }
}

impl Default for ChartLayout {
    fn default() -> (l: ChartLayout)
        ensures l == empty_layout(),
    {
        ChartLayout {
            title_x: None,
            title_y: None,
            label_x: None,
            label_y: None,
            axis_x: None,
            axis_y: None,
            legend_area: None,
            graph_area: Rect { x: 0, y: 0, width: 0, height: 0 },
        }
    }
}

/// A chart without its data points: the block around it, its style, the labels, titles and
/// styles of its axes, the names and styles of its datasets for the legend, and the constraints
/// beyond which the legend is hidden.
pub struct ChartOutline<'a> {
    pub block: Option<Block<'a>>,
    pub style: Style,
    pub x_axis_style: Style,
    pub y_axis_style: Style,
    pub dataset_styles: Vec<Style>,
    pub x_labels: Option<Vec<Span>>,
    pub y_labels: Option<Vec<Span>>,
    pub x_title: Option<Spans>,
    pub y_title: Option<Spans>,
    pub dataset_names: Vec<String>,
    pub hidden_legend_constraints: (Constraint, Constraint),
}

/// The width of the widest span, 0 when there is none.
pub open spec fn widest_span(spans: Seq<Span>) -> int
    decreases spans.len(),
{
    if spans.len() == 0 {
        0
    } else {
        let m = widest_span(spans.drop_last());
        let w = display_width(spans.last().content@) as int;
        if w > m { w } else { m }
    }
}

/// The width of the widest name, each width cut to its low 16 bits; none without names.
pub open spec fn widest_name(names: Seq<String>) -> Option<u16>
    decreases names.len(),
{
    if names.len() == 0 {
        None
    } else {
        let w = display_width(names.last()@) as u16;
        match widest_name(names.drop_last()) {
            None => Some(w),
            Some(m) => Some(if w > m { w } else { m }),
        }
    }
}

/// The legend of `names`, placed in the top right corner of the graph: two cells wider than the
/// widest name and two rows higher than there are names. It is shown only where some name has a
/// width, and where it is narrower and lower than the hidden-legend constraints give out of the
/// graph's width and height; a constraint that cannot apply to them (an overflowing percentage or
/// ratio, a ratio over zero) hides it, as does a legend wider than the graph's right edge.
pub open spec fn legend_of(names: Seq<String>, constraints: (Constraint, Constraint), graph: Rect) -> Option<Rect> {
    match widest_name(names) {
        Some(iw) => {
            let lw = iw + 2;
            let lh = (names.len() as u16) + 2;
            if iw > 0 && constraints.0.applicable(graph.width) && constraints.1.applicable(graph.height)
                && lw < constraints.0.spec_apply(graph.width) && lh < constraints.1.spec_apply(graph.height)
                && lw <= graph.spec_right() {
                Some(Rect::spec_new((graph.spec_right() - lw) as u16, graph.y, lw as u16, lh as u16))
            } else {
                None
            }
        },
        None => None,
    }
}

impl<'a> ChartOutline<'a> {
    /// The width of the column of the y axis' labels: the widest of them, cut to 16 bits, or the
    /// first label of the x axis where that is wider.
    pub open spec fn label_column_width(self) -> int {
        match self.y_labels {
            Some(yl) => {
                let m = widest_span(yl@) as u16;
                match self.x_labels {
                    Some(xl) => if xl@.len() > 0 {
                        max_u16(m, display_width(xl@[0].content@) as u16) as int
                    } else {
                        m as int
                    },
                    None => m as int,
                }
            },
            None => 0,
        }
    }

    /// Where everything goes in `area`. The bottom row takes the x axis' labels and the row
    /// above it the x axis, where the area has rows to spare above them; the left columns take
    /// the y axis' labels and the column after them the y axis, where the area has columns to
    /// spare after them. The graph takes the rest, up to the top of the area, where it has a
    /// column, reaches below the second row and does not end above the area's top. The x axis' title goes at the right end of the
    /// graph's last row and the y axis' title at the top left of the graph, where the graph is
    /// wider than the title and more than two rows high; the legend goes in the top right corner
    /// of the graph.
    pub open spec fn spec_layout(self, area: Rect) -> ChartLayout {
        if area.height == 0 || area.width == 0 {
            empty_layout()
        } else {
            let right = area.spec_right() as int;
            let top = area.y as int;
            let y0 = area.spec_bottom() - 1;
            let lx = self.x_labels is Some && y0 > top;
            let y1 = if lx { y0 - 1 } else { y0 };
            let mw = self.label_column_width();
            let ly = self.y_labels is Some && area.x + mw < right;
            let x1 = if ly { area.x + mw } else { area.x as int };
            let ax = self.x_labels is Some && y1 > top;
            let y2 = if ax { y1 - 1 } else { y1 };
            let ay = self.y_labels is Some && x1 + 1 < right;
            let x2 = if ay { x1 + 1 } else { x1 };
            let graph = if x2 < right && y2 > 1 && y2 >= top {
                Rect::spec_new(x2 as u16, area.y, (right - x2) as u16, (y2 - top + 1) as u16)
            } else {
                Rect { x: 0, y: 0, width: 0, height: 0 }
            };
            let title_x = match self.x_title {
                Some(t) => {
                    let w = (spans_width(t.0@) as usize) as u16;
                    if w < graph.width && graph.height > 2 {
                        Some(((x2 + graph.width - w) as u16, y2 as u16))
                    } else {
                        None
                    }
                },
                None => None,
            };
            let title_y = match self.y_title {
                Some(t) => {
                    let w = (spans_width(t.0@) as usize) as u16;
                    if w + 1 < graph.width && graph.height > 2 {
                        Some((x2 as u16, area.y))
                    } else {
                        None
                    }
                },
                None => None,
            };
            ChartLayout {
                title_x,
                title_y,
                label_x: if lx { Some(y0 as u16) } else { None },
                label_y: if ly { Some(area.x) } else { None },
                axis_x: if ax { Some(y1 as u16) } else { None },
                axis_y: if ay { Some(x1 as u16) } else { None },
                legend_area: legend_of(self.dataset_names@, self.hidden_legend_constraints, graph),
                graph_area: graph,
            }
        }
    }
}

/// The width of the widest span.
fn widest_label(spans: &Vec<Span>) -> (m: usize)
    ensures
        m == widest_span(spans@),
{
    let mut m: usize = 0;
    for k in 0..spans.len()
        invariant
            m == widest_span(spans@.take(k as int)),
    {
        assert(spans@.take(k + 1).drop_last() =~= spans@.take(k as int));
        let w = spans[k].width();
        if w > m {
            m = w;
        }
    }
    assert(spans@.take(spans@.len() as int) =~= spans@);
    m
}

/// The width of the widest name, each cut to 16 bits.
fn widest_name_of(names: &Vec<String>) -> (m: Option<u16>)
    ensures
        m == widest_name(names@),
{
    let mut m: Option<u16> = None;
    for k in 0..names.len()
        invariant
            m == widest_name(names@.take(k as int)),
    {
        assert(names@.take(k + 1).drop_last() =~= names@.take(k as int));
        let w = #[verifier::truncate] (width_of(names[k].as_str()) as u16);
        m = match m {
            None => Some(w),
            Some(prev) => Some(if w > prev { w } else { prev }),
        };
    }
    assert(names@.take(names@.len() as int) =~= names@);
    m
}

/// Whether the constraint applies to `length` without overflow or a division by zero.
fn can_apply(c: &Constraint, length: u16) -> (b: bool)
    ensures
        b == c.applicable(length),
{
    match *c {
        Constraint::Percentage(p) => {
            assert((length as u32) * (p as u32) <= 0xffff * 0xffff) by (nonlinear_arith)
                requires length <= 0xffff, p <= 0xffff;
            (length as u32) * (p as u32) <= 0xffff
        },
        Constraint::Ratio(num, den) => {
            assert((num as u64) * (length as u64) <= 0xffff_ffff * 0xffff) by (nonlinear_arith)
                requires num <= 0xffff_ffff, length <= 0xffff;
            (num as u64) * (length as u64) <= 0xffff_ffff && den != 0
        },
        _ => true,
    }
}

/// The legend of the names in the top right corner of the graph, where it fits.
fn legend_area(names: &Vec<String>, constraints: (Constraint, Constraint), graph: Rect) -> (r: Option<Rect>)
    ensures
        r == legend_of(names@, constraints, graph),
{
    match widest_name_of(names) {
        Some(iw) => {
            let lw: u32 = iw as u32 + 2;
            let lh: u32 = (#[verifier::truncate] (names.len() as u16)) as u32 + 2;
            if iw > 0 && can_apply(&constraints.0, graph.width) && can_apply(&constraints.1, graph.height) {
                let max_width = constraints.0.apply(graph.width) as u32;
                let max_height = constraints.1.apply(graph.height) as u32;
                let right = graph.right() as u32;
                if lw < max_width && lh < max_height && lw <= right {
                    Some(Rect::new((right - lw) as u16, graph.top(), lw as u16, lh as u16))
                } else {
                    None
                }
            } else {
                None
            }
        },
        None => None,
    }
}

impl<'a> ChartOutline<'a> {
    /// Compute the internal layout of the chart given the area. If the area is too small some
    /// elements may be automatically hidden.
    pub fn layout(&self, area: Rect) -> (l: ChartLayout)
        requires
            self.x_title matches Some(t) ==> spans_width(t.0@) <= usize::MAX,
            self.y_title matches Some(t) ==> spans_width(t.0@) <= usize::MAX,
        ensures
            l == self.spec_layout(area),
    {
        if area.height == 0 || area.width == 0 {
            return ChartLayout::default();
        }
        let right = area.right();
        let top = area.top();
        let mut x: u16 = area.left();
        let mut y: u16 = area.bottom() - 1;
        let mut label_x: Option<u16> = None;
        let mut label_y: Option<u16> = None;
        let mut axis_x: Option<u16> = None;
        let mut axis_y: Option<u16> = None;

        if self.x_labels.is_some() && y > top {
            label_x = Some(y);
            y = y - 1;
        }
        let max_width: u16 = match &self.y_labels {
            Some(yl) => {
                let m = #[verifier::truncate] (widest_label(yl) as u16);
                match &self.x_labels {
                    Some(xl) => if xl.len() > 0 {
                        let w = #[verifier::truncate] (xl[0].width() as u16);
                        if m >= w { m } else { w }
                    } else {
                        m
                    },
                    None => m,
                }
            },
            None => 0,
        };
        if self.y_labels.is_some() && (x as u32) + (max_width as u32) < right as u32 {
            label_y = Some(x);
            x = x + max_width;
        }
        if self.x_labels.is_some() && y > top {
            axis_x = Some(y);
            y = y - 1;
        }
        if self.y_labels.is_some() && (x as u32) + 1 < right as u32 {
            axis_y = Some(x);
            x = x + 1;
        }
        let graph = if x < right && y > 1 && y >= top {
            Rect::new(x, top, right - x, y - top + 1)
        } else {
            Rect { x: 0, y: 0, width: 0, height: 0 }
        };
        let title_x = match &self.x_title {
            Some(t) => {
                let w = #[verifier::truncate] (t.width() as u16);
                if w < graph.width && graph.height > 2 {
                    Some((x + graph.width - w, y))
                } else {
                    None
                }
            },
            None => None,
        };
        let title_y = match &self.y_title {
            Some(t) => {
                let w = #[verifier::truncate] (t.width() as u16);
                if (w as u32) + 1 < graph.width as u32 && graph.height > 2 {
                    Some((x, top))
                } else {
                    None
                }
            },
            None => None,
        };
        let legend = legend_area(&self.dataset_names, self.hidden_legend_constraints, graph);
        ChartLayout { title_x, title_y, label_x, label_y, axis_x, axis_y, legend_area: legend, graph_area: graph }
    }
}

/// Whether `region` lies in the buffer's area, with its edges below `u16::MAX`.
pub open spec fn region_fits(buf_area: Rect, region: Rect) -> bool {
    buf_area.contains_rect(region) && region.edges_fit()
}

/// `cells` with `region` restyled to `style` where it lies in the buffer.
pub open spec fn restyle_if_fits(buf_area: Rect, cells: Seq<(Seq<char>, Style)>, region: Rect, style: Style) -> Seq<(Seq<char>, Style)> {
    if region_fits(buf_area, region) { restyled_cells(buf_area, cells, region, Restyle::Whole(style)) } else { cells }
}

/// `cells` with `region` filled with `symbol` in `style` where it lies in the buffer.
pub open spec fn fill_if_fits(buf_area: Rect, cells: Seq<(Seq<char>, Style)>, region: Rect, symbol: &str, style: Style) -> Seq<(Seq<char>, Style)> {
    if region_fits(buf_area, region) { crate::buffer::filled_cells(buf_area, cells, region, symbol@, style) } else { cells }
}

/// `cells` with `s` printed from `(x, y)` on within `limit` cells, where that cell is in the
/// buffer.
pub open spec fn print_if_inside(buf_area: Rect, cells: Seq<(Seq<char>, Style)>, x: int, y: int, s: Seq<char>, limit: int, style: Style) -> Seq<(Seq<char>, Style)> {
    if 0 <= x <= u16::MAX && 0 <= y <= u16::MAX && buf_area.contains_point(x, y) {
        string_cells(buf_area, cells, x, y, s, limit, style)
    } else {
        cells
    }
}

/// The column where the label `i` of the x axis ends: the labels spread evenly over the width of
/// the graph, each ending where its share starts.
pub open spec fn x_label_x(g: Rect, n: int, i: int, w: int) -> int {
    g.x + (i * (g.width - 1)) / (n - 1) - w
}

/// The cells after the first `k` labels of the x axis are printed on row `y`.
pub open spec fn x_labels_run(buf_area: Rect, cells: Seq<(Seq<char>, Style)>, g: Rect, y: int, labels: Seq<Span>, n: int, k: int) -> Seq<(Seq<char>, Style)>
    decreases k,
{
    if k <= 0 {
        cells
    } else {
        let c = x_labels_run(buf_area, cells, g, y, labels, n, k - 1);
        let l = labels[k - 1];
        let w = display_width(l.content@) as u16;
        print_if_inside(buf_area, c, x_label_x(g, n, k - 1, w as int), y, l.content@, w as int, l.style)
    }
}

/// The cells after the first `k` labels of the y axis are printed in column `x`, from the
/// bottom of the graph up, spread evenly over its height.
pub open spec fn y_labels_run(buf_area: Rect, cells: Seq<(Seq<char>, Style)>, g: Rect, x: int, labels: Seq<Span>, n: int, k: int) -> Seq<(Seq<char>, Style)>
    decreases k,
{
    if k <= 0 {
        cells
    } else {
        let c = y_labels_run(buf_area, cells, g, x, labels, n, k - 1);
        let l = labels[k - 1];
        let w = display_width(l.content@) as u16;
        let dy = ((k - 1) * (g.height - 1)) / (n - 1);
        if dy < g.spec_bottom() {
            print_if_inside(buf_area, c, x, g.spec_bottom() - 1 - dy, l.content@, w as int, l.style)
        } else {
            c
        }
    }
}

/// The cells after the first `k` dataset names are printed in the legend, one a row inside its
/// border, each in its dataset's style.
pub open spec fn names_run(buf_area: Rect, cells: Seq<(Seq<char>, Style)>, l: Rect, names: Seq<String>, styles: Seq<Style>, k: int) -> Seq<(Seq<char>, Style)>
    decreases k,
{
    if k <= 0 {
        cells
    } else {
        let c = names_run(buf_area, cells, l, names, styles, k - 1);
        print_if_inside(buf_area, c, l.x + 1, l.y + 1 + (k - 1), names[k - 1]@, usize::MAX as int, styles[k - 1])
    }
}

/// The block around the legend: all borders, plain, default styles, no title.
pub open spec fn legend_block() -> Block<'static> {
    Block {
        title: None,
        title_style: crate::style::default_style(),
        borders: Borders { bits: 30 },
        border_style: crate::style::default_style(),
        border_type: BorderType::Plain,
        style: crate::style::default_style(),
    }
}

/// Whether `region` lies in the buffer's area, with its edges below `u16::MAX`.
fn fits(buf: &Buffer, region: Rect) -> (b: bool)
    ensures
        b == region_fits(buf.area, region),
{
    let a = buf.area;
    a.x <= region.x && a.y <= region.y && (region.x as u32) + (region.width as u32) <= (a.x as u32) + (a.width as u32)
        && (region.y as u32) + (region.height as u32) <= (a.y as u32) + (a.height as u32)
        && (region.x as u32) + (region.width as u32) <= 0xffff && (region.y as u32) + (region.height as u32) <= 0xffff
}

/// Whether the cell at `(x, y)` lies in the buffer; the coordinates may be beyond 16 bits.
fn inside(buf: &Buffer, x: i64, y: i64) -> (b: bool)
    ensures
        b == (0 <= x <= u16::MAX && 0 <= y <= u16::MAX && buf.area.contains_point(x as int, y as int)),
{
    let a = buf.area;
    0 <= x && x <= 0xffff && 0 <= y && y <= 0xffff && a.x as i64 <= x && x < a.x as i64 + a.width as i64
        && a.y as i64 <= y && y < a.y as i64 + a.height as i64
}

/// Restyles `region` where it lies in the buffer.
fn restyle_checked(buf: &mut Buffer, region: Rect, style: Style)
    requires
        old(buf).wf(),
    ensures
        final(buf).wf(),
        final(buf).area == old(buf).area,
        final(buf).cells() == restyle_if_fits(old(buf).area, old(buf).cells(), region, style),
{
    if fits(buf, region) {
        buf.set_style(region, style);
    }
}

/// Fills `region` with `symbol` in `style` where it lies in the buffer.
fn fill_checked(buf: &mut Buffer, region: Rect, symbol: &str, style: Style)
    requires
        old(buf).wf(),
    ensures
        final(buf).wf(),
        final(buf).area == old(buf).area,
        final(buf).cells() == fill_if_fits(old(buf).area, old(buf).cells(), region, symbol, style),
{
    if fits(buf, region) {
        crate::buffer::fill_region(buf, region, symbol, style);
    }
}

/// Prints `s` from `(x, y)` on within `limit` cells where that cell lies in the buffer.
fn print_checked(buf: &mut Buffer, x: i64, y: i64, s: &str, limit: usize, style: Style)
    requires
        old(buf).wf(),
    ensures
        final(buf).wf(),
        final(buf).area == old(buf).area,
        final(buf).cells() == print_if_inside(old(buf).area, old(buf).cells(), x as int, y as int, s@, limit as int, style),
{
    if inside(buf, x, y) {
        buf.set_stringn(x as u16, y as u16, s, limit, style);
    }
}

/// The summed widths of the labels.
fn labels_width(labels: &Vec<Span>) -> (w: usize)
    requires
        spans_width(labels@) <= usize::MAX,
    ensures
        w == spans_width(labels@),
{
    let mut acc: usize = 0;
    for k in 0..labels.len()
        invariant
            spans_width(labels@) <= usize::MAX,
            acc == spans_width(labels@.take(k as int)),
    {
        assert(labels@.take(k + 1).drop_last() =~= labels@.take(k as int));
        proof {
            lemma_spans_width_prefix(labels@, k + 1);
        }
        acc = acc + labels[k].width();
    }
    assert(labels@.take(labels@.len() as int) =~= labels@);
    acc
}

impl<'a> ChartOutline<'a> {
    /// The area inside the block, if there is one.
    pub open spec fn chart_area(self, area: Rect) -> Rect {
        match self.block {
            Some(b) => b.spec_inner(area),
            None => area,
        }
    }

    /// Whether the chart draws anything past its block: the area and the graph are not empty.
    pub open spec fn has_graph(self, area: Rect) -> bool {
        let g = self.spec_layout(self.chart_area(area)).graph_area;
        area.width > 0 && area.height > 0 && g.width >= 1 && g.height >= 1
    }

    /// The cells after the frame is drawn on `area` over `cells`, before the data points: the
    /// chart's style over the area and the block; then, where the graph is not empty, the x
    /// axis' labels spread over the label row when they are more than one and narrower
    /// together than the graph, the y axis' labels from the bottom up, the two axes in their
    /// styles and the corner where they meet.
    pub open spec fn frame_cells(self, buf_area: Rect, cells: Seq<(Seq<char>, Style)>, area: Rect) -> Seq<(Seq<char>, Style)> {
        if area.width == 0 || area.height == 0 {
            cells
        } else {
            let c0 = restyled_cells(buf_area, cells, area, Restyle::Whole(self.style));
            let c1 = match self.block {
                Some(b) => b.drawn_cells(buf_area, c0, area),
                None => c0,
            };
            let lay = self.spec_layout(self.chart_area(area));
            let g = lay.graph_area;
            if g.width < 1 || g.height < 1 {
                c1
            } else {
                let c2 = match (lay.label_x, self.x_labels) {
                    (Some(y), Some(ls)) => {
                        let n = (ls@.len() as u16) as int;
                        let tw = (spans_width(ls@) as usize) as u16;
                        if tw < g.width && n > 1 { x_labels_run(buf_area, c1, g, y as int, ls@, n, ls@.len() as int) } else { c1 }
                    },
                    _ => c1,
                };
                let c3 = match (lay.label_y, self.y_labels) {
                    (Some(x), Some(ls)) => y_labels_run(buf_area, c2, g, x as int, ls@, (ls@.len() as u16) as int, ls@.len() as int),
                    _ => c2,
                };
                let c4 = match lay.axis_x {
                    Some(y) => fill_if_fits(buf_area, c3, Rect { x: g.x, y, width: g.width, height: 1 }, line::HORIZONTAL, self.x_axis_style),
                    None => c3,
                };
                let c5 = match lay.axis_y {
                    Some(x) => fill_if_fits(buf_area, c4, Rect { x, y: g.y, width: 1, height: g.height }, line::VERTICAL, self.y_axis_style),
                    None => c4,
                };
                match (lay.axis_x, lay.axis_y) {
                    (Some(y), Some(x)) => fill_if_fits(buf_area, c5, Rect { x, y, width: 1, height: 1 }, line::BOTTOM_LEFT, self.x_axis_style),
                    _ => c5,
                }
            }
        }
    }

    /// What the frame needs to be drawn: what `layout` needs, the area in the buffer, the block's
    /// inner area computable, the x axis' labels' widths summing within a `usize`, and, where the
    /// y axis' labels are drawn, not exactly one of them (their spacing divides by one less).
    pub open spec fn frame_drawable(self, buf: Buffer, area: Rect) -> bool {
        &&& self.x_title matches Some(t) ==> spans_width(t.0@) <= usize::MAX
        &&& self.y_title matches Some(t) ==> spans_width(t.0@) <= usize::MAX
        &&& region_in(buf, area)
        &&& self.block matches Some(b) ==> b.inner_computable(area)
        &&& self.x_labels matches Some(ls) ==> spans_width(ls@) <= usize::MAX
        &&& (self.has_graph(area) && self.spec_layout(self.chart_area(area)).label_y is Some && self.y_labels is Some)
            ==> (self.y_labels->0@.len() as u16) != 1 && ((self.y_labels->0@.len() as u16) != 0 || self.y_labels->0@.len() == 0)
    }

    /// Draws the chart's frame on `area`, and gives the graph area where the data points go,
    /// or none where there is nothing to plot.
    pub fn draw_frame(&self, area: Rect, buf: &mut Buffer) -> (g: Option<Rect>)
        requires
            old(buf).wf(),
            self.frame_drawable(*old(buf), area),
        ensures
            final(buf).wf(),
            final(buf).area == old(buf).area,
            final(buf).cells() == self.frame_cells(old(buf).area, old(buf).cells(), area),
            g == if self.has_graph(area) { Some(self.spec_layout(self.chart_area(area)).graph_area) } else { None },
    {
        if area.width == 0 || area.height == 0 {
            return None;
        }
        buf.set_style(area, self.style);
        let chart_area = match &self.block {
            Some(b) => {
                b.draw(area, buf);
                b.inner(area)
            },
            None => area,
        };
        let lay = self.layout(chart_area);
        let g = lay.graph_area;
        if g.width < 1 || g.height < 1 {
            return None;
        }
        if let Some(y) = lay.label_x {
            if let Some(labels) = &self.x_labels {
                let total = #[verifier::truncate] (labels_width(labels) as u16);
                let n = #[verifier::truncate] (labels.len() as u16);
                if total < g.width && n > 1 {
                    let ghost c = buf.cells();
                    for i in 0..labels.len()
                        invariant
                            buf.wf(),
                            buf.area == old(buf).area,
                            n > 1,
                            n == #[verifier::truncate] (labels@.len() as u16),
                            g.width >= 1,
                            buf.cells() == x_labels_run(buf.area, c, g, y as int, labels@, n as int, i as int),
                    {
                        let label = &labels[i];
                        let w = #[verifier::truncate] (label.width() as u16);
                        let ghost before = buf.cells();
                        assert((i as int) * (g.width - 1) <= (labels@.len() as int) * 0xffff) by (nonlinear_arith)
                            requires i < labels@.len(), g.width <= 0xffff, g.width >= 1;
                        assert((labels@.len() as int) * 0xffff <= 0xffff_ffff_ffff_ffff * 0xffff) by (nonlinear_arith)
                            requires labels@.len() <= usize::MAX, usize::MAX <= 0xffff_ffff_ffff_ffff;
                        let step: i128 = (i as i128) * (g.width as i128 - 1) / (n as i128 - 1);
                        let x = g.x as i128 + step - w as i128;
                        let xs: i64 = if x > 0x1_0000 { 0x1_0000 } else if x < -1 { -1 } else { x as i64 };
                        assert(x == x_label_x(g, n as int, i as int, w as int));
                        print_checked(buf, xs, y as i64, label.content.as_str(), w as usize, label.style);
                        assert(buf.cells() == print_if_inside(buf.area, before, x_label_x(g, n as int, i as int, w as int), y as int, labels@[i as int].content@, w as int, labels@[i as int].style));
                    }
                }
            }
        }
        if let Some(x) = lay.label_y {
            if let Some(labels) = &self.y_labels {
                let n = #[verifier::truncate] (labels.len() as u16);
                let ghost c = buf.cells();
                let bottom = g.bottom();
                for i in 0..labels.len()
                    invariant
                        buf.wf(),
                        buf.area == old(buf).area,
                        n == #[verifier::truncate] (labels@.len() as u16),
                        labels@.len() > 0 ==> n >= 2,
                        bottom == g.spec_bottom(),
                        g.height >= 1,
                        buf.cells() == y_labels_run(buf.area, c, g, x as int, labels@, n as int, i as int),
                {
                    let label = &labels[i];
                    let w = #[verifier::truncate] (label.width() as u16);
                    assert((i as int) * (g.height - 1) <= 0xffff_ffff_ffff_ffff * 0xffff) by (nonlinear_arith)
                        requires i <= 0xffff_ffff_ffff_ffff, g.height <= 0xffff, g.height >= 1;
                    let dy: u128 = (i as u128) * (g.height as u128 - 1) / (n as u128 - 1);
                    if dy < bottom as u128 {
                        let yy = bottom as i64 - 1 - dy as i64;
                        print_checked(buf, x as i64, yy, label.content.as_str(), w as usize, label.style);
                    }
                }
            }
        }
        if let Some(y) = lay.axis_x {
            fill_checked(buf, Rect { x: g.x, y, width: g.width, height: 1 }, line::HORIZONTAL, self.x_axis_style);
        }
        if let Some(x) = lay.axis_y {
            fill_checked(buf, Rect { x, y: g.y, width: 1, height: g.height }, line::VERTICAL, self.y_axis_style);
        }
        if let (Some(y), Some(x)) = (lay.axis_x, lay.axis_y) {
            fill_checked(buf, Rect { x, y, width: 1, height: 1 }, line::BOTTOM_LEFT, self.x_axis_style);
        }
        Some(g)
    }


    /// The cells after the parts drawn over the data points: where the graph is not empty, the
    /// legend, reset to the chart's style, in a plain bordered block with each dataset's name on
    /// a row of its own in that dataset's style; then each axis' title, on the chart's style,
    /// from its place to the right end of the graph.
    pub open spec fn overlay_cells(self, buf_area: Rect, cells: Seq<(Seq<char>, Style)>, area: Rect) -> Seq<(Seq<char>, Style)> {
        if !self.has_graph(area) {
            cells
        } else {
            let lay = self.spec_layout(self.chart_area(area));
            let g = lay.graph_area;
            let c1 = match lay.legend_area {
                Some(l) => {
                    let a = restyle_if_fits(buf_area, cells, l, self.style);
                    let b = if region_fits(buf_area, l) { legend_block().drawn_cells(buf_area, a, l) } else { a };
                    names_run(buf_area, b, l, self.dataset_names@, self.dataset_styles@, self.dataset_names@.len() as int)
                },
                None => cells,
            };
            let c2 = match (lay.title_x, self.x_title) {
                (Some((x, y)), Some(t)) => title_cells(buf_area, c1, g, x, y, t, self.style),
                _ => c1,
            };
            match (lay.title_y, self.y_title) {
                (Some((x, y)), Some(t)) => title_cells(buf_area, c2, g, x, y, t, self.style),
                _ => c2,
            }
        }
    }

    /// Draws what goes over the data points: the legend and the axes' titles.
    pub fn draw_overlay(&self, area: Rect, buf: &mut Buffer)
        requires
            old(buf).wf(),
            self.frame_drawable(*old(buf), area),
            self.dataset_styles@.len() == self.dataset_names@.len(),
        ensures
            final(buf).wf(),
            final(buf).area == old(buf).area,
            final(buf).cells() == self.overlay_cells(old(buf).area, old(buf).cells(), area),
    {
        if area.width == 0 || area.height == 0 {
            return;
        }
        let chart_area = match &self.block {
            Some(b) => b.inner(area),
            None => area,
        };
        let lay = self.layout(chart_area);
        let g = lay.graph_area;
        if g.width < 1 || g.height < 1 {
            return;
        }
        if let Some(l) = lay.legend_area {
            restyle_checked(buf, l, self.style);
            if fits(buf, l) {
                let lb = Block {
                    title: None,
                    title_style: Style::new(),
                    borders: Borders::ALL(),
                    border_style: Style::new(),
                    border_type: BorderType::Plain,
                    style: Style::new(),
                };
                assert(lb == legend_block());
                lb.draw(l, buf);
            }
            let ghost c = buf.cells();
            let names = &self.dataset_names;
            let styles = &self.dataset_styles;
            for i in 0..names.len()
                invariant
                    buf.wf(),
                    buf.area == old(buf).area,
                    styles@.len() == names@.len(),
                    buf.cells() == names_run(buf.area, c, l, names@, styles@, i as int),
            {
                let yy: i128 = l.y as i128 + 1 + i as i128;
                let ys: i64 = if yy > 0x1_0000 { 0x1_0000 } else { yy as i64 };
                print_checked(buf, l.x as i64 + 1, ys, names[i].as_str(), usize::MAX, styles[i]);
            }
        }
        if let Some((x, y)) = lay.title_x {
            if let Some(t) = &self.x_title {
                draw_title(buf, g, x, y, t, self.style);
            }
        }
        if let Some((x, y)) = lay.title_y {
            if let Some(t) = &self.y_title {
                draw_title(buf, g, x, y, t, self.style);
            }
        }
    }
}

/// `cells` with a title put at `(x, y)`: the row from there to the right end of the graph reset
/// to `style`, then the title's spans written within that width.
pub open spec fn title_cells(buf_area: Rect, cells: Seq<(Seq<char>, Style)>, g: Rect, x: u16, y: u16, t: Spans, style: Style) -> Seq<(Seq<char>, Style)> {
    let w = if g.spec_right() >= x { (g.spec_right() - x) as u16 } else { 0u16 };
    let a = restyle_if_fits(buf_area, cells, Rect { x, y, width: w, height: 1 }, style);
    spans_run(buf_area, a, x as int, y as int, t.0@, w as int, t.0@.len() as int).0
}

/// Puts a title at `(x, y)`, as `title_cells` says.
fn draw_title(buf: &mut Buffer, g: Rect, x: u16, y: u16, t: &Spans, style: Style)
    requires
        old(buf).wf(),
    ensures
        final(buf).wf(),
        final(buf).area == old(buf).area,
        final(buf).cells() == title_cells(old(buf).area, old(buf).cells(), g, x, y, *t, style),
{
    let w = g.right().saturating_sub(x);
    restyle_checked(buf, Rect { x, y, width: w, height: 1 }, style);
    buf.set_spans(x, y, t, w);
}

} // verus!
