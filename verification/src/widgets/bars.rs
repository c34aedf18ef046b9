//! Bars drawn in eighths of a cell, from the bottom of an area up: what the sparkline, the bar
//! chart and the histogram share.
use vstd::prelude::*;

use crate::buffer::{char_string, index_in, lemma_index_bound, lemma_index_pos_roundtrip, pos_in, region_in, Buffer};
use crate::layout::Rect;
use crate::style::Style;
use crate::symbols::bar::BarSet;

verus! {

/// The level, in eighths of a cell, of the cell `k` rows above the bottom of a bar `d` eighths
/// high; from 8 on the cell is full.
pub open spec fn bar_level(d: int, k: int) -> int {
    if d > 8 * k { d - 8 * k } else { 0 }
}

/// The style a cell of a bar gets: `style`, or only its colors over the cell's own modifier.
pub open spec fn bar_style(old: Style, style: Style, keep_modifier: bool) -> Style {
    if keep_modifier { Style { fg: style.fg, bg: style.bg, modifier: old.modifier } } else { style }
}

/// The layout of the bars: `n` bars, `width` columns wide each, one every `stride` columns from
/// column `left`, over `rows` rows from row `top`.
pub struct BarsLayout {
    pub left: u16,
    pub top: u16,
    pub rows: u16,
    pub width: u16,
    pub stride: u16,
}

impl BarsLayout {
    /// Whether the cell `(x, y)` belongs to a bar, of the `n` bars.
    pub open spec fn covers(self, n: int, x: int, y: int) -> bool {
        &&& self.width > 0
        &&& self.left <= x
        &&& self.top <= y < self.top + self.rows
        &&& (x - self.left) / (self.stride as int) < n
        &&& (x - self.left) % (self.stride as int) < self.width
    }

    /// The rectangle that holds the `n` bars.
    pub open spec fn bounds(self, n: int) -> Rect {
        Rect { x: self.left, y: self.top, width: (n * self.stride) as u16, height: self.rows }
    }
}

/// The cells after bars of heights `levels` (in eighths of a cell) are drawn over `cells` with
/// the nine `symbols`, from empty to full.
pub open spec fn bars_cells(
    area: Rect,
    cells: Seq<(Seq<char>, Style)>,
    layout: BarsLayout,
    levels: Seq<u64>,
    symbols: Seq<&'static str>,
    style: Style,
    keep_modifier: bool,
) -> Seq<(Seq<char>, Style)> {
    Seq::new(
        cells.len(),
        |i: int|
            {
                let (x, y) = pos_in(area, i);
                if layout.covers(levels.len() as int, x, y) {
                    let b = (x - layout.left) / (layout.stride as int);
                    let level = bar_level(levels[b] as int, layout.top + layout.rows - 1 - y);
                    (symbols[if level < 8 { level } else { 8 }]@, bar_style(cells[i].1, style, keep_modifier))
                } else {
                    cells[i]
                }
            },
    )
}

/// Whether the cell of bar `b`, row `r` and column `c` of the bar comes before `(b0, r0, c0)`
/// in the drawing order.
pub open spec fn drawn_before(b: int, r: int, c: int, b0: int, r0: int, c0: int) -> bool {
    b < b0 || (b == b0 && (r < r0 || (r == r0 && c < c0)))
}

proof fn lemma_decompose(left: int, stride: int, b: int, c: int)
    requires
        stride > 0,
        0 <= c < stride,
        b >= 0,
    ensures
        (left + b * stride + c - left) / stride == b,
        (left + b * stride + c - left) % stride == c,
{
    assert(left + b * stride + c - left == b * stride + c);
    vstd::arithmetic::div_mod::lemma_fundamental_div_mod_converse(b * stride + c, stride, b, c);
}

proof fn lemma_bar_column_fits(b: int, stride: int, c: int, n: int)
    requires
        0 <= b < n,
        0 <= c < stride,
    ensures
        b * stride + c < n * stride,
{
    assert(b * stride + c < n * stride) by (nonlinear_arith)
        requires 0 <= b < n, 0 <= c < stride;
}

/// Draws bars of heights `levels`, in eighths of a cell, with the symbols of `set`: the cell `k`
/// rows above the bottom of a bar shows what is left of its height above `8 * k` eighths.
#[verifier::rlimit(40)]
pub(crate) fn draw_bars(
    buf: &mut Buffer,
    layout: &BarsLayout,
    levels: &Vec<u64>,
    set: &BarSet,
    style: Style,
    keep_modifier: bool,
)
    requires
        old(buf).wf(),
        layout.stride > 0,
        layout.width <= layout.stride,
        levels@.len() * layout.stride <= u16::MAX,
        layout.rows > 0 && levels@.len() > 0 ==> region_in(*old(buf), layout.bounds(levels@.len() as int)),
    ensures
        final(buf).wf(),
        final(buf).area == old(buf).area,
        final(buf).cells() == bars_cells(old(buf).area, old(buf).cells(), *layout, levels@, set.0@, style, keep_modifier),
{
    let ghost area = buf.area;
    let ghost old_cells = buf.cells();
    let ghost n = levels@.len() as int;
    let ghost stride = layout.stride as int;
    let ghost painted = bars_cells(area, old_cells, *layout, levels@, set.0@, style, keep_modifier);
    if layout.rows == 0 || levels.len() == 0 {
        assert(buf.cells() =~= painted);
        return;
    }
    let mut b: usize = 0;
    while b < levels.len()
        invariant
            buf.wf(),
            buf.area == area,
            old_cells.len() == buf.content@.len(),
            n == levels@.len(),
            stride == layout.stride,
            stride > 0,
            layout.width <= layout.stride,
            layout.rows > 0,
            n * stride <= u16::MAX,
            region_in(*buf, layout.bounds(n)),
            painted == bars_cells(area, old_cells, *layout, levels@, set.0@, style, keep_modifier),
            b <= n,
            forall|i: int| 0 <= i < buf.content@.len() ==> (#[trigger] buf.content@[i])@ == (
                if layout.covers(n, pos_in(area, i).0, pos_in(area, i).1)
                    && (pos_in(area, i).0 - layout.left) / stride < b {
                    painted[i]
                } else {
                    old_cells[i]
                }),
        decreases levels@.len() - b,
    {
        let d = levels[b];
        let mut r: u16 = 0;
        while r < layout.rows
            invariant
                buf.wf(),
                buf.area == area,
                old_cells.len() == buf.content@.len(),
                n == levels@.len(),
                stride == layout.stride,
                stride > 0,
                layout.width <= layout.stride,
                n * stride <= u16::MAX,
                region_in(*buf, layout.bounds(n)),
                painted == bars_cells(area, old_cells, *layout, levels@, set.0@, style, keep_modifier),
                b < n,
                d == levels@[b as int],
                r <= layout.rows,
                forall|i: int| 0 <= i < buf.content@.len() ==> (#[trigger] buf.content@[i])@ == (
                    if layout.covers(n, pos_in(area, i).0, pos_in(area, i).1) && drawn_before(
                        (pos_in(area, i).0 - layout.left) / stride,
                        pos_in(area, i).1 - layout.top,
                        0,
                        b as int,
                        r as int,
                        0,
                    ) {
                        painted[i]
                    } else {
                        old_cells[i]
                    }),
            decreases layout.rows - r,
        {
            let k = (layout.rows - 1 - r) as u64;
            let level: u64 = if d > 8 * k { d - 8 * k } else { 0 };
            let symbol = set.symbol(if level < 8 { level as usize } else { 8 });
            let y = layout.top + r;
            let mut c: u16 = 0;
            while c < layout.width
                invariant
                    buf.wf(),
                    buf.area == area,
                    old_cells.len() == buf.content@.len(),
                    n == levels@.len(),
                    stride == layout.stride,
                    stride > 0,
                    layout.width <= layout.stride,
                    n * stride <= u16::MAX,
                    region_in(*buf, layout.bounds(n)),
                    painted == bars_cells(area, old_cells, *layout, levels@, set.0@, style, keep_modifier),
                    b < n,
                    d == levels@[b as int],
                    r < layout.rows,
                    y == layout.top + r,
                    level == bar_level(d as int, layout.top + layout.rows - 1 - y),
                    symbol == set.0@[if level < 8 { level as int } else { 8 }],
                    c <= layout.width,
                    forall|i: int| 0 <= i < buf.content@.len() ==> (#[trigger] buf.content@[i])@ == (
                        if layout.covers(n, pos_in(area, i).0, pos_in(area, i).1) && drawn_before(
                            (pos_in(area, i).0 - layout.left) / stride,
                            pos_in(area, i).1 - layout.top,
                            (pos_in(area, i).0 - layout.left) % stride,
                            b as int,
                            r as int,
                            c as int,
                        ) {
                            painted[i]
                        } else {
                            old_cells[i]
                        }),
                decreases layout.width - c,
            {
                proof {
                    lemma_bar_column_fits(b as int, stride, c as int, n);
                    assert(b <= b * stride && b * stride <= b * stride + c) by (nonlinear_arith)
                        requires stride >= 1, b >= 0, c >= 0;
                    assert(layout.bounds(n).width == n * stride);
                }
                let x = layout.left + (b as u16) * layout.stride + c;
                let ghost before = buf.content@;
                let ghost k_idx = index_in(area, x as int, y as int);
                proof {
                    assert(area.contains_point(x as int, y as int));
                    lemma_index_bound(area, x as int, y as int);
                    lemma_index_pos_roundtrip(area, 0, x as int, y as int);
                    lemma_decompose(layout.left as int, stride, b as int, c as int);
                }
                let new_style = if keep_modifier {
                    Style { fg: style.fg, bg: style.bg, modifier: buf.get(x, y).style.modifier }
                } else {
                    style
                };
                buf.get_mut(x, y).set_symbol(symbol).set_style(new_style);
                proof {
                    assert(old_cells[k_idx] == before[k_idx]@) by {
                        assert(!drawn_before(b as int, r as int, c as int, b as int, r as int, c as int));
                    }
                    assert forall|i: int| 0 <= i < buf.content@.len() implies (#[trigger] buf.content@[i])@ == (
                        if layout.covers(n, pos_in(area, i).0, pos_in(area, i).1) && drawn_before(
                            (pos_in(area, i).0 - layout.left) / stride,
                            pos_in(area, i).1 - layout.top,
                            (pos_in(area, i).0 - layout.left) % stride,
                            b as int,
                            r as int,
                            c + 1,
                        ) {
                            painted[i]
                        } else {
                            old_cells[i]
                        }) by {
                        lemma_index_pos_roundtrip(area, i, 0, 0);
                        if i != k_idx {
                            assert(buf.content@[i] == before[i]);
                            let (px, py) = pos_in(area, i);
                            if layout.covers(n, px, py) {
                                let pb = (px - layout.left) / stride;
                                let pc = (px - layout.left) % stride;
                                vstd::arithmetic::div_mod::lemma_fundamental_div_mod(px - layout.left, stride);
                                if pb == b && py - layout.top == r && pc == c {
                                    assert(px == x) by (nonlinear_arith)
                                        requires
                                            px - layout.left == stride * pb + pc,
                                            x == layout.left + b * stride + c,
                                            pb == b,
                                            pc == c;
                                    assert(py == y);
                                }
                            }
                        }
                    }
                }
                c = c + 1;
            }
            proof {
                assert forall|i: int| 0 <= i < buf.content@.len() && layout.covers(n, pos_in(area, i).0, pos_in(area, i).1)
                    implies (pos_in(area, i).0 - layout.left) % stride < c by {}
            }
            r = r + 1;
        }
        b = b + 1;
    }
    assert(buf.cells() =~= painted);
}

/// The decimal digit of `d`, for `d` below ten.
pub open spec fn digit_char(d: int) -> char {
    (('0' as int) + d) as char
}

/// The decimal writing of `n`, without leading zeros.
pub open spec fn decimal(n: nat) -> Seq<char>
    decreases n,
{
    if n < 10 {
        seq![digit_char(n as int)]
    } else {
        decimal(n / 10).push(digit_char((n % 10) as int))
    }
}

/// The decimal writing of `n`, as `format!("{}", n)` gives it.
pub(crate) fn decimal_string(n: u64) -> (s: String)
    ensures s@ == decimal(n as nat),
{
    let mut digits: Vec<char> = Vec::new();
    let mut m = n;
    let ghost mut rest: Seq<char> = seq![];
    loop
        invariant_except_break
            decimal(n as nat) == decimal(m as nat) + rest,
        invariant
            digits@.reverse() == rest,
        ensures
            decimal(n as nat) == rest,
        decreases m,
    {
        let d = (m % 10) as u32;
        let c = char_from_digit(d);
        if m < 10 {
            digits.push(c);
            proof {
                assert(decimal(m as nat) =~= seq![c]);
                rest = seq![c] + rest;
                assert(digits@.reverse() =~= rest);
            }
            break;
        }
        proof {
            assert(decimal(m as nat) == decimal((m / 10) as nat).push(c));
            rest = seq![c] + rest;
            assert(decimal(n as nat) =~= decimal((m / 10) as nat) + rest);
        }
        digits.push(c);
        proof {
            assert(digits@.reverse() =~= rest);
        }
        m = m / 10;
    }
    let mut s = String::new();
    let mut k = digits.len();
    while k > 0
        invariant
            k <= digits@.len(),
            s@ == digits@.reverse().subrange(0, (digits@.len() - k) as int),
        decreases k,
    {
        k = k - 1;
        let one = char_string(digits[k]);
        s.append(one.as_str());
        proof {
            assert(s@ =~= digits@.reverse().subrange(0, (digits@.len() - k) as int));
        }
    }
    assert(s@ =~= digits@.reverse());
    s
}

fn char_from_digit(d: u32) -> (c: char)
    requires d < 10,
    ensures c == digit_char(d as int),
{
    if d == 0 { '0' } else if d == 1 { '1' } else if d == 2 { '2' } else if d == 3 { '3' } else if d == 4 { '4' }
    else if d == 5 { '5' } else if d == 6 { '6' } else if d == 7 { '7' } else if d == 8 { '8' } else { '9' }
}

} // verus!
