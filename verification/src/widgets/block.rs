//! The block: the box, with borders and a title, that other widgets are drawn in.
use vstd::prelude::*;

use crate::buffer::{
    area_fits, background_cells, fill_region, filled_cells, index_in, lemma_index_bound, lemma_index_pos_roundtrip, pos_in,
    region_in,
    set_region_bg, string_cells, written_count, Buffer,
};
use crate::unicode::grapheme_clusters;
use crate::layout::Rect;
use crate::style::{default_style, Style};
use crate::symbols::line;
use crate::widgets::Borders;

verus! {

/// How the borders of a block are drawn.
#[derive(Debug, Copy, Clone, PartialEq, Eq, Structural)]
pub enum BorderType {
    Plain,
    Rounded,
    Double,
}

/// Base widget to be used with all upper level ones. It may be used to display a box border
/// around the widget and/or add a title.
#[derive(Debug, Clone, Copy)]
pub struct Block<'a> {
    /// Optional title place on the upper left of the block
    pub title: Option<&'a str>,
    /// Title style
    pub title_style: Style,
    /// Visible borders
    pub borders: Borders,
    /// Border style
    pub border_style: Style,
    /// Type of the border.
    pub border_type: BorderType,
    /// Widget style
    pub style: Style,
}

impl<'a> Default for Block<'a> {
    fn default() -> (b: Block<'a>)
        ensures
            b.title.is_none(),
            b.title_style == default_style(),
            b.borders.bits == 1,
            b.border_style == default_style(),
            b.border_type == BorderType::Plain,
            b.style == default_style(),
    {
        Block {
            title: None,
            title_style: Style::new(),
            borders: Borders::NONE(),
            border_style: Style::new(),
            border_type: BorderType::Plain,
            style: Style::new(),
        }
    }
}

impl<'a> Block<'a> {
    pub fn title(self, title: &'a str) -> (b: Block<'a>)
        ensures b == (Block { title: Some(title), ..self }),
    {
        let mut b = self;
        b.title = Some(title);
        b
    }

    pub fn title_style(self, style: Style) -> (b: Block<'a>)
        ensures b == (Block { title_style: style, ..self }),
    {
        let mut b = self;
        b.title_style = style;
        b
    }

    pub fn border_style(self, style: Style) -> (b: Block<'a>)
        ensures b == (Block { border_style: style, ..self }),
    {
        let mut b = self;
        b.border_style = style;
        b
    }

    pub fn style(self, style: Style) -> (b: Block<'a>)
        ensures b == (Block { style, ..self }),
    {
        let mut b = self;
        b.style = style;
        b
    }

    pub fn borders(self, flag: Borders) -> (b: Block<'a>)
        ensures b == (Block { borders: flag, ..self }),
    {
        let mut b = self;
        b.borders = flag;
        b
    }

    pub fn border_type(self, border_type: BorderType) -> (b: Block<'a>)
        ensures b == (Block { border_type, ..self }),
    {
        let mut b = self;
        b.border_type = border_type;
        b
    }

    pub open spec fn has_left(self) -> bool {
        self.borders.spec_intersects(Borders { bits: 16 })
    }

    pub open spec fn has_top(self) -> bool {
        self.borders.spec_intersects(Borders { bits: 2 })
    }

    pub open spec fn has_right(self) -> bool {
        self.borders.spec_intersects(Borders { bits: 4 })
    }

    pub open spec fn has_bottom(self) -> bool {
        self.borders.spec_intersects(Borders { bits: 8 })
    }

    /// Whether the first row of the block is taken, by the top border or by the title.
    pub open spec fn takes_top_row(self) -> bool {
        self.has_top() || self.title.is_some()
    }

    /// Whether `inner` computes without overflow on `area`.
    pub open spec fn inner_computable(self, area: Rect) -> bool {
        area.width >= 2 && area.height >= 2 ==> {
            &&& self.has_left() ==> area.x < u16::MAX
            &&& self.takes_top_row() ==> area.y < u16::MAX
        }
    }

    /// The area left inside the borders and below the title; empty at the origin when `area` is
    /// less than two cells wide or high.
    pub open spec fn spec_inner(self, area: Rect) -> Rect {
        if area.width < 2 || area.height < 2 {
            Rect { x: 0, y: 0, width: 0, height: 0 }
        } else {
            let l: int = if self.has_left() { 1 } else { 0 };
            let t: int = if self.takes_top_row() { 1 } else { 0 };
            let r: int = if self.has_right() { 1 } else { 0 };
            let b: int = if self.has_bottom() { 1 } else { 0 };
            Rect {
                x: (area.x + l) as u16,
                y: (area.y + t) as u16,
                width: (area.width - l - r) as u16,
                height: (area.height - t - b) as u16,
            }
        }
    }

    /// Compute the inner area of a block based on its border visibility rules.
    pub fn inner(&self, area: Rect) -> (inner: Rect)
        requires
            self.inner_computable(area),
        ensures
            inner == self.spec_inner(area),
            area.width >= 2 && area.height >= 2 ==> area.contains_rect(inner),
    {
        if area.width < 2 || area.height < 2 {
            return Rect { x: 0, y: 0, width: 0, height: 0 };
        }
        let mut inner = area;
        if self.borders.intersects(Borders::LEFT()) {
            inner.x = inner.x + 1;
            inner.width = inner.width - 1;
        }
        if self.borders.intersects(Borders::TOP()) || self.title.is_some() {
            inner.y = inner.y + 1;
            inner.height = inner.height - 1;
        }
        if self.borders.intersects(Borders::RIGHT()) {
            inner.width = inner.width - 1;
        }
        if self.borders.intersects(Borders::BOTTOM()) {
            inner.height = inner.height - 1;
        }
        inner
    }
}

/// The symbol of the left and right borders.
pub open spec fn vertical_of(t: BorderType) -> &'static str {
    match t {
        BorderType::Double => line::DOUBLE_VERTICAL,
        _ => line::VERTICAL,
    }
}

/// The symbol of the top and bottom borders.
pub open spec fn horizontal_of(t: BorderType) -> &'static str {
    match t {
        BorderType::Double => line::DOUBLE_HORIZONTAL,
        _ => line::HORIZONTAL,
    }
}

pub open spec fn top_left_of(t: BorderType) -> &'static str {
    match t {
        BorderType::Double => line::DOUBLE_TOP_LEFT,
        BorderType::Rounded => line::ROUNDED_TOP_LEFT,
        BorderType::Plain => line::TOP_LEFT,
    }
}

pub open spec fn top_right_of(t: BorderType) -> &'static str {
    match t {
        BorderType::Double => line::DOUBLE_TOP_RIGHT,
        BorderType::Rounded => line::ROUNDED_TOP_RIGHT,
        BorderType::Plain => line::TOP_RIGHT,
    }
}

pub open spec fn bottom_left_of(t: BorderType) -> &'static str {
    match t {
        BorderType::Double => line::DOUBLE_BOTTOM_LEFT,
        BorderType::Rounded => line::ROUNDED_BOTTOM_LEFT,
        BorderType::Plain => line::BOTTOM_LEFT,
    }
}

pub open spec fn bottom_right_of(t: BorderType) -> &'static str {
    match t {
        BorderType::Double => line::DOUBLE_BOTTOM_RIGHT,
        BorderType::Rounded => line::ROUNDED_BOTTOM_RIGHT,
        BorderType::Plain => line::BOTTOM_RIGHT,
    }
}

fn vertical_symbol(t: BorderType) -> (s: &'static str)
    ensures s == vertical_of(t),
{
    match t {
        BorderType::Double => line::DOUBLE_VERTICAL,
        _ => line::VERTICAL,
    }
}

fn horizontal_symbol(t: BorderType) -> (s: &'static str)
    ensures s == horizontal_of(t),
{
    match t {
        BorderType::Double => line::DOUBLE_HORIZONTAL,
        _ => line::HORIZONTAL,
    }
}

fn corner_symbol(t: BorderType, top: bool, left: bool) -> (s: &'static str)
    ensures
        top && left ==> s == top_left_of(t),
        top && !left ==> s == top_right_of(t),
        !top && left ==> s == bottom_left_of(t),
        !top && !left ==> s == bottom_right_of(t),
{
    match t {
        BorderType::Double => {
            if top {
                if left { line::DOUBLE_TOP_LEFT } else { line::DOUBLE_TOP_RIGHT }
            } else {
                if left { line::DOUBLE_BOTTOM_LEFT } else { line::DOUBLE_BOTTOM_RIGHT }
            }
        },
        BorderType::Rounded => {
            if top {
                if left { line::ROUNDED_TOP_LEFT } else { line::ROUNDED_TOP_RIGHT }
            } else {
                if left { line::ROUNDED_BOTTOM_LEFT } else { line::ROUNDED_BOTTOM_RIGHT }
            }
        },
        BorderType::Plain => {
            if top {
                if left { line::TOP_LEFT } else { line::TOP_RIGHT }
            } else {
                if left { line::BOTTOM_LEFT } else { line::BOTTOM_RIGHT }
            }
        },
    }
}

/// The column `x` of `area`.
pub open spec fn column_of(area: Rect, x: int) -> Rect {
    Rect { x: x as u16, y: area.y, width: 1, height: area.height }
}

/// The row `y` of `area`.
pub open spec fn row_of(area: Rect, y: int) -> Rect {
    Rect { x: area.x, y: y as u16, width: area.width, height: 1 }
}

/// The single cell `(x, y)`.
pub open spec fn cell_rect(x: int, y: int) -> Rect {
    Rect { x: x as u16, y: y as u16, width: 1, height: 1 }
}

/// `cells` with `region` filled by `symbol` and `style` when `cond` holds.
pub open spec fn fill_if(
    cond: bool,
    buf_area: Rect,
    cells: Seq<(Seq<char>, Style)>,
    region: Rect,
    symbol: &str,
    style: Style,
) -> Seq<(Seq<char>, Style)> {
    if cond { filled_cells(buf_area, cells, region, symbol@, style) } else { cells }
}

impl<'a> Block<'a> {
    /// The cells after the borders are drawn over `cells`: the sides, then the corners.
    pub open spec fn border_cells(self, buf_area: Rect, cells: Seq<(Seq<char>, Style)>, area: Rect) -> Seq<(Seq<char>, Style)> {
        let (left, top) = (area.x as int, area.y as int);
        let (right, bottom) = (area.x + area.width - 1, area.y + area.height - 1);
        let t = self.border_type;
        let s = self.border_style;
        let c1 = fill_if(self.has_left(), buf_area, cells, column_of(area, left), vertical_of(t), s);
        let c2 = fill_if(self.has_top(), buf_area, c1, row_of(area, top), horizontal_of(t), s);
        let c3 = fill_if(self.has_right(), buf_area, c2, column_of(area, right), vertical_of(t), s);
        let c4 = fill_if(self.has_bottom(), buf_area, c3, row_of(area, bottom), horizontal_of(t), s);
        let c5 = fill_if(self.borders.spec_contains(Borders { bits: 16u32 | 2u32 }), buf_area, c4, cell_rect(left, top), top_left_of(t), s);
        let c6 = fill_if(self.borders.spec_contains(Borders { bits: 4u32 | 2u32 }), buf_area, c5, cell_rect(right, top), top_right_of(t), s);
        let c7 = fill_if(self.borders.spec_contains(Borders { bits: 16u32 | 8u32 }), buf_area, c6, cell_rect(left, bottom), bottom_left_of(t), s);
        fill_if(self.borders.spec_contains(Borders { bits: 4u32 | 8u32 }), buf_area, c7, cell_rect(right, bottom), bottom_right_of(t), s)
    }

    /// The cells after the title is printed over `cells`, from the first column inside the left
    /// border, on the top row, at most as far as the right border.
    pub open spec fn title_cells(self, buf_area: Rect, cells: Seq<(Seq<char>, Style)>, area: Rect) -> Seq<(Seq<char>, Style)> {
        let lx: int = if self.has_left() { 1 } else { 0 };
        let rx: int = if self.has_right() { 1 } else { 0 };
        if area.width > 2 && self.title.is_some() {
            string_cells(buf_area, cells, area.x + lx, area.y as int, self.title.unwrap()@, area.width - lx - rx, self.title_style)
        } else {
            cells
        }
    }

    /// The cells after the block is drawn on `area` over `cells`: the background color of the
    /// block's style, the borders, the corners and the title. Nothing is drawn on an area less
    /// than two cells wide or high.
    pub open spec fn drawn_cells(self, buf_area: Rect, cells: Seq<(Seq<char>, Style)>, area: Rect) -> Seq<(Seq<char>, Style)> {
        if area.width < 2 || area.height < 2 {
            cells
        } else {
            let c0 = background_cells(buf_area, cells, area, self.style.bg);
            self.title_cells(buf_area, self.border_cells(buf_area, c0, area), area)
        }
    }

    /// Draws the block on `area`.
    pub fn draw(&self, area: Rect, buf: &mut Buffer)
        requires
            old(buf).wf(),
            area.width >= 2 && area.height >= 2 ==> region_in(*old(buf), area),
        ensures
            final(buf).wf(),
            final(buf).area == old(buf).area,
            final(buf).cells() == self.drawn_cells(old(buf).area, old(buf).cells(), area),
    {
        if area.width < 2 || area.height < 2 {
            return;
        }
        let ghost buf_area = buf.area;
        let ghost cells0 = buf.cells();
        set_region_bg(buf, area, self.style.bg);
        let left = area.left();
        let top = area.top();
        let right = area.x + area.width - 1;
        let bottom = area.y + area.height - 1;
        let t = self.border_type;
        let s = self.border_style;
        let ghost c0 = buf.cells();
        assert(c0 == background_cells(buf_area, cells0, area, self.style.bg));

        // Sides
        if self.borders.intersects(Borders::LEFT()) {
            fill_region(buf, Rect { x: left, y: top, width: 1, height: area.height }, vertical_symbol(t), s);
        }
        let ghost c1 = buf.cells();
        if self.borders.intersects(Borders::TOP()) {
            fill_region(buf, Rect { x: left, y: top, width: area.width, height: 1 }, horizontal_symbol(t), s);
        }
        let ghost c2 = buf.cells();
        if self.borders.intersects(Borders::RIGHT()) {
            fill_region(buf, Rect { x: right, y: top, width: 1, height: area.height }, vertical_symbol(t), s);
        }
        let ghost c3 = buf.cells();
        if self.borders.intersects(Borders::BOTTOM()) {
            fill_region(buf, Rect { x: left, y: bottom, width: area.width, height: 1 }, horizontal_symbol(t), s);
        }
        let ghost c4 = buf.cells();

        // Corners
        if self.borders.contains(Borders::LEFT().union(Borders::TOP())) {
            fill_region(buf, Rect { x: left, y: top, width: 1, height: 1 }, corner_symbol(t, true, true), s);
        }
        if self.borders.contains(Borders::RIGHT().union(Borders::TOP())) {
            fill_region(buf, Rect { x: right, y: top, width: 1, height: 1 }, corner_symbol(t, true, false), s);
        }
        if self.borders.contains(Borders::LEFT().union(Borders::BOTTOM())) {
            fill_region(buf, Rect { x: left, y: bottom, width: 1, height: 1 }, corner_symbol(t, false, true), s);
        }
        if self.borders.contains(Borders::RIGHT().union(Borders::BOTTOM())) {
            fill_region(buf, Rect { x: right, y: bottom, width: 1, height: 1 }, corner_symbol(t, false, false), s);
        }
        let ghost c8 = buf.cells();
        assert(c8 == self.border_cells(buf_area, c0, area));

        if area.width > 2 {
            if let Some(title) = self.title {
                let lx: u16 = if self.borders.intersects(Borders::LEFT()) { 1 } else { 0 };
                let rx: u16 = if self.borders.intersects(Borders::RIGHT()) { 1 } else { 0 };
                let width = area.width - lx - rx;
                buf.set_stringn(left + lx, top, title, width as usize, self.title_style);
            }
        }
    }
}

/// `a` and `b` hold the same cells outside `area`.
pub open spec fn same_outside(buf_area: Rect, a: Seq<(Seq<char>, Style)>, b: Seq<(Seq<char>, Style)>, area: Rect) -> bool {
    &&& a.len() == b.len()
    &&& forall|i: int|
        0 <= i < a.len() && !area.contains_point(#[trigger] pos_in(buf_area, i).0, pos_in(buf_area, i).1)
            ==> a[i] == b[i]
}

proof fn lemma_fill_if_inside(
    cond: bool,
    buf_area: Rect,
    cells: Seq<(Seq<char>, Style)>,
    region: Rect,
    symbol: &str,
    style: Style,
    area: Rect,
)
    requires
        area.contains_rect(region),
    ensures
        same_outside(buf_area, cells, fill_if(cond, buf_area, cells, region, symbol, style), area),
{
}

/// Drawing a block changes no cell outside the area it is drawn on.
pub proof fn lemma_block_draws_inside(block: Block, buf_area: Rect, cells: Seq<(Seq<char>, Style)>, area: Rect)
    requires
        area_fits(buf_area),
        cells.len() == buf_area.width * buf_area.height,
        buf_area.contains_rect(area),
        area.edges_fit(),
    ensures
        same_outside(buf_area, cells, block.drawn_cells(buf_area, cells, area), area),
{
    if area.width >= 2 && area.height >= 2 {
        let (left, top) = (area.x as int, area.y as int);
        let (right, bottom) = (area.x + area.width - 1, area.y + area.height - 1);
        let t = block.border_type;
        let s = block.border_style;
        let c0 = background_cells(buf_area, cells, area, block.style.bg);
        let c1 = fill_if(block.has_left(), buf_area, c0, column_of(area, left), vertical_of(t), s);
        let c2 = fill_if(block.has_top(), buf_area, c1, row_of(area, top), horizontal_of(t), s);
        let c3 = fill_if(block.has_right(), buf_area, c2, column_of(area, right), vertical_of(t), s);
        let c4 = fill_if(block.has_bottom(), buf_area, c3, row_of(area, bottom), horizontal_of(t), s);
        let c5 = fill_if(block.borders.spec_contains(Borders { bits: 16u32 | 2u32 }), buf_area, c4, cell_rect(left, top), top_left_of(t), s);
        let c6 = fill_if(block.borders.spec_contains(Borders { bits: 4u32 | 2u32 }), buf_area, c5, cell_rect(right, top), top_right_of(t), s);
        let c7 = fill_if(block.borders.spec_contains(Borders { bits: 16u32 | 8u32 }), buf_area, c6, cell_rect(left, bottom), bottom_left_of(t), s);
        let c8 = block.border_cells(buf_area, c0, area);
        lemma_fill_if_inside(block.has_left(), buf_area, c0, column_of(area, left), vertical_of(t), s, area);
        lemma_fill_if_inside(block.has_top(), buf_area, c1, row_of(area, top), horizontal_of(t), s, area);
        lemma_fill_if_inside(block.has_right(), buf_area, c2, column_of(area, right), vertical_of(t), s, area);
        lemma_fill_if_inside(block.has_bottom(), buf_area, c3, row_of(area, bottom), horizontal_of(t), s, area);
        lemma_fill_if_inside(block.borders.spec_contains(Borders { bits: 16u32 | 2u32 }), buf_area, c4, cell_rect(left, top), top_left_of(t), s, area);
        lemma_fill_if_inside(block.borders.spec_contains(Borders { bits: 4u32 | 2u32 }), buf_area, c5, cell_rect(right, top), top_right_of(t), s, area);
        lemma_fill_if_inside(block.borders.spec_contains(Borders { bits: 16u32 | 8u32 }), buf_area, c6, cell_rect(left, bottom), bottom_left_of(t), s, area);
        lemma_fill_if_inside(block.borders.spec_contains(Borders { bits: 4u32 | 8u32 }), buf_area, c7, cell_rect(right, bottom), bottom_right_of(t), s, area);
        assert(same_outside(buf_area, cells, c8, area));
        if area.width > 2 && block.title.is_some() {
            let lx: int = if block.has_left() { 1 } else { 0 };
            let rx: int = if block.has_right() { 1 } else { 0 };
            let x = area.x + lx;
            let start = index_in(buf_area, x, top);
            let gs = grapheme_clusters(block.title.unwrap()@);
            let n = written_count(buf_area.spec_right() - x, area.width - lx - rx, gs.len() as int);
            assert forall|i: int| 0 <= i < c8.len() && start <= i < start + n implies area.contains_point(
                pos_in(buf_area, i).0,
                pos_in(buf_area, i).1,
            ) by {
                let k = i - start;
                lemma_index_pos_roundtrip(buf_area, 0, x + k, top);
                assert(index_in(buf_area, x + k, top) == i);
            }
        }
    }
}

impl<'a> Block<'a> {
    /// The title never runs over a right border: after a block with a right border is drawn on
    /// an area at least two cells wide and high, the top right cell of the area holds the
    /// top-right corner where the block has a top border, else the right border, in the border
    /// style, whatever the title.
    pub proof fn lemma_title_keeps_right_border(self, buf_area: Rect, cells: Seq<(Seq<char>, Style)>, area: Rect)
        requires
            self.has_right(),
            area.width >= 2,
            area.height >= 2,
            buf_area.contains_rect(area),
            area.edges_fit(),
            cells.len() == buf_area.width * buf_area.height,
        ensures
            self.drawn_cells(buf_area, cells, area)[index_in(buf_area, area.x + area.width - 1, area.y as int)] == (
                if self.has_top() { top_right_of(self.border_type)@ } else { vertical_of(self.border_type)@ },
                self.border_style,
            ),
    {
        let (right, top) = (area.x + area.width - 1, area.y as int);
        let k = index_in(buf_area, right, top);
        lemma_index_bound(buf_area, right, top);
        lemma_index_pos_roundtrip(buf_area, 0, right, top);
        assert(pos_in(buf_area, k) == (right, top));
        let bits = self.borders.bits;
        assert((bits & (4u32 | 2u32) == (4u32 | 2u32)) == (bits & 4u32 != 0 && bits & 2u32 != 0)) by (bit_vector);
        let c0 = background_cells(buf_area, cells, area, self.style.bg);
        let cb = self.border_cells(buf_area, c0, area);
        let (left, bottom) = (area.x as int, area.y + area.height - 1);
        let t = self.border_type;
        let st = self.border_style;
        let c1 = fill_if(self.has_left(), buf_area, c0, column_of(area, left), vertical_of(t), st);
        let c2 = fill_if(self.has_top(), buf_area, c1, row_of(area, top), horizontal_of(t), st);
        let c3 = fill_if(self.has_right(), buf_area, c2, column_of(area, right), vertical_of(t), st);
        assert(c3[k] == (vertical_of(t)@, st));
        let c4 = fill_if(self.has_bottom(), buf_area, c3, row_of(area, bottom), horizontal_of(t), st);
        assert(c4[k] == c3[k]);
        let c5 = fill_if(self.borders.spec_contains(Borders { bits: 16u32 | 2u32 }), buf_area, c4, cell_rect(left, top), top_left_of(t), st);
        assert(c5[k] == c4[k]);
        let c6 = fill_if(self.borders.spec_contains(Borders { bits: 4u32 | 2u32 }), buf_area, c5, cell_rect(right, top), top_right_of(t), st);
        assert(self.borders.spec_contains(Borders { bits: 4u32 | 2u32 }) == self.has_top());
        let c7 = fill_if(self.borders.spec_contains(Borders { bits: 16u32 | 8u32 }), buf_area, c6, cell_rect(left, bottom), bottom_left_of(t), st);
        assert(c7[k] == c6[k]);
        assert(cb.len() == cells.len());
        assert(cb[k] == (
            if self.has_top() { top_right_of(self.border_type)@ } else { vertical_of(self.border_type)@ },
            self.border_style,
        ));
        let lx: int = if self.has_left() { 1 } else { 0 };
        if area.width > 2 && self.title.is_some() {
            let x0 = area.x + lx;
            let start = index_in(buf_area, x0, top);
            let limit = area.width - lx - 1;
            let n = written_count(buf_area.spec_right() - x0, limit, grapheme_clusters(self.title.unwrap()@).len() as int);
            assert(n <= limit);
            assert(k == start + (right - x0));
            assert(self.title_cells(buf_area, cb, area)[k] == cb[k]);
        }
    }
}

impl<'a> Block<'a> {
    /// The title starts on the top row right after the left border, or at the left edge where
    /// there is none: on an area more than two cells wide and at least two high, that cell holds
    /// the title's first cluster in the title style.
    pub proof fn lemma_title_after_left_border(self, buf_area: Rect, cells: Seq<(Seq<char>, Style)>, area: Rect)
        requires
            self.title is Some,
            grapheme_clusters(self.title.unwrap()@).len() > 0,
            area.width > 2,
            area.height >= 2,
            buf_area.contains_rect(area),
            area.edges_fit(),
            cells.len() == buf_area.width * buf_area.height,
        ensures
            self.drawn_cells(buf_area, cells, area)[index_in(
                buf_area,
                area.x + if self.has_left() { 1int } else { 0int },
                area.y as int,
            )] == (grapheme_clusters(self.title.unwrap()@)[0], self.title_style),
    {
        let lx: int = if self.has_left() { 1 } else { 0 };
        let rx: int = if self.has_right() { 1 } else { 0 };
        let x0 = area.x + lx;
        lemma_index_bound(buf_area, x0, area.y as int);
        let c0 = background_cells(buf_area, cells, area, self.style.bg);
        let cb = self.border_cells(buf_area, c0, area);
        assert(cb.len() == cells.len());
        let gs = grapheme_clusters(self.title.unwrap()@);
        assert(written_count(buf_area.spec_right() - x0, area.width - lx - rx, gs.len() as int) >= 1);
    }
}

} // verus!
