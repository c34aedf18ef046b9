//! Rectangles, margins, directions and size constraints used to lay widgets out.
use vstd::prelude::*;

verus! {

pub const U16_MAX: u16 = 65535;

#[derive(Debug, Hash, Clone, Copy, PartialEq, Eq, Structural)]
pub enum Corner {
    TopLeft,
    TopRight,
    BottomRight,
    BottomLeft,
}

#[derive(Debug, Hash, Clone, Copy, PartialEq, Eq, Structural)]
pub enum Direction {
    Horizontal,
    Vertical,
}

/// A size constraint on one chunk of a layout.
#[derive(Debug, Clone, Copy, PartialEq, Eq, Hash, Structural)]
pub enum Constraint {
    Percentage(u16),
    Ratio(u32, u32),
    Length(u16),
    Max(u16),
    Min(u16),
}

pub open spec fn min_u16(a: u16, b: u16) -> u16 {
    if a <= b { a } else { b }
}

pub open spec fn max_u16(a: u16, b: u16) -> u16 {
    if a >= b { a } else { b }
}

fn min(a: u16, b: u16) -> (r: u16)
    ensures r == min_u16(a, b),
{
    if a <= b { a } else { b }
}

fn max(a: u16, b: u16) -> (r: u16)
    ensures r == max_u16(a, b),
{
    if a >= b { a } else { b }
}

impl Constraint {
    /// Whether `apply` computes without overflow or division by zero for `length`.
    pub open spec fn applicable(self, length: u16) -> bool {
        match self {
            Constraint::Percentage(p) => length * p <= u16::MAX,
            Constraint::Ratio(num, den) => num * length <= u32::MAX && den != 0,
            _ => true,
        }
    }

    /// The size that the constraint gives out of `length`. A ratio is cut to its low 16 bits.
    pub open spec fn spec_apply(self, length: u16) -> int {
        match self {
            Constraint::Percentage(p) => (length * p) / 100,
            Constraint::Ratio(num, den) => ((num * length) / (den as int)) % 0x1_0000,
            Constraint::Length(l) => min_u16(length, l) as int,
            Constraint::Max(m) => min_u16(length, m) as int,
            Constraint::Min(m) => max_u16(length, m) as int,
        }
    }

    pub fn apply(&self, length: u16) -> (r: u16)
        requires
            self.applicable(length),
        ensures
            r == self.spec_apply(length),
    {
        match *self {
            Constraint::Percentage(p) => length * p / 100,
            Constraint::Ratio(num, den) => {
                let r = num * (length as u32) / den;
                let t = (r % 0x1_0000) as u16;
                t
            },
            Constraint::Length(l) => min(length, l),
            Constraint::Max(m) => min(length, m),
            Constraint::Min(m) => max(length, m),
        }
    }
}

#[derive(Debug, Clone, Copy, PartialEq, Eq, Hash, Structural)]
pub struct Margin {
    pub vertical: u16,
    pub horizontal: u16,
}

#[derive(Debug, Clone, Copy, PartialEq, Eq, Structural)]
pub enum Alignment {
    Left,
    Center,
    Right,
}

/// How an area is split into chunks: the direction, the margin left around the chunks and one
/// constraint per chunk.
#[derive(Debug, Clone, PartialEq, Eq, Hash)]
pub struct Layout<'a> {
    pub direction: Direction,
    pub margin: Margin,
    pub constraints: &'a [Constraint],
    /// Whether the last chunk of the computed layout should be expanded to fill the available
    /// space.
    pub expand_to_fill: bool,
}

impl<'a> Layout<'a> {
    /// A vertical layout with no margin, no constraint, whose last chunk fills the area.
    pub fn default() -> (l: Layout<'a>)
        ensures
            l.direction == Direction::Vertical,
            l.margin == (Margin { horizontal: 0, vertical: 0 }),
            l.constraints@.len() == 0,
            l.expand_to_fill,
    {
        Layout {
            direction: Direction::Vertical,
            margin: Margin { horizontal: 0, vertical: 0 },
            constraints: &[],
            expand_to_fill: true,
        }
    }

    pub fn constraints(self, constraints: &'a [Constraint]) -> (l: Layout<'a>)
        ensures
            l.constraints@ == constraints@,
            l.direction == self.direction,
            l.margin == self.margin,
            l.expand_to_fill == self.expand_to_fill,
    {
        let mut l = self;
        l.constraints = constraints;
        l
    }

    /// Sets the same margin on all four sides.
    pub fn margin(self, margin: u16) -> (l: Layout<'a>)
        ensures
            l.margin == (Margin { horizontal: margin, vertical: margin }),
            l.direction == self.direction,
            l.constraints@ == self.constraints@,
            l.expand_to_fill == self.expand_to_fill,
    {
        let mut l = self;
        l.margin = Margin { horizontal: margin, vertical: margin };
        l
    }

    pub fn horizontal_margin(self, horizontal: u16) -> (l: Layout<'a>)
        ensures
            l.margin == (Margin { horizontal, vertical: self.margin.vertical }),
            l.direction == self.direction,
            l.constraints@ == self.constraints@,
            l.expand_to_fill == self.expand_to_fill,
    {
        let mut l = self;
        l.margin.horizontal = horizontal;
        l
    }

    pub fn vertical_margin(self, vertical: u16) -> (l: Layout<'a>)
        ensures
            l.margin == (Margin { horizontal: self.margin.horizontal, vertical }),
            l.direction == self.direction,
            l.constraints@ == self.constraints@,
            l.expand_to_fill == self.expand_to_fill,
    {
        let mut l = self;
        l.margin.vertical = vertical;
        l
    }

    pub fn direction(self, direction: Direction) -> (l: Layout<'a>)
        ensures
            l.direction == direction,
            l.margin == self.margin,
            l.constraints@ == self.constraints@,
            l.expand_to_fill == self.expand_to_fill,
    {
        let mut l = self;
        l.direction = direction;
        l
    }

    pub fn expand_to_fill(self, expand_to_fill: bool) -> (l: Layout<'a>)
        ensures
            l.expand_to_fill == expand_to_fill,
            l.direction == self.direction,
            l.margin == self.margin,
            l.constraints@ == self.constraints@,
    {
        let mut l = self;
        l.expand_to_fill = expand_to_fill;
        l
    }
}

/// A rectangle: the area a widget is supposed to render to.
#[derive(Debug, Clone, Copy, Hash, PartialEq, Eq, Structural)]
pub struct Rect {
    pub x: u16,
    pub y: u16,
    pub width: u16,
    pub height: u16,
}

impl Default for Rect {
    fn default() -> (r: Rect)
        ensures r == (Rect { x: 0, y: 0, width: 0, height: 0 }),
    {
        Rect { x: 0, y: 0, width: 0, height: 0 }
    }
}

/// `r` is the integer square root of `n`.
pub open spec fn is_isqrt(n: int, r: int) -> bool {
    r >= 0 && r * r <= n && n < (r + 1) * (r + 1)
}

/// The integer square root of `n`, for `n >= 0`.
pub open spec fn isqrt_of(n: int) -> int {
    choose|r: int| is_isqrt(n, r)
}

proof fn lemma_isqrt_unique(n: int, r1: int, r2: int)
    requires
        is_isqrt(n, r1),
        is_isqrt(n, r2),
    ensures
        r1 == r2,
{
    if r1 < r2 {
        assert((r1 + 1) * (r1 + 1) <= r2 * r2) by (nonlinear_arith)
            requires 0 <= r1, r1 + 1 <= r2;
    } else if r2 < r1 {
        assert((r2 + 1) * (r2 + 1) <= r1 * r1) by (nonlinear_arith)
            requires 0 <= r2, r2 + 1 <= r1;
    }
}

/// The integer square root of `n`, found by bisection.
fn isqrt(n: u64) -> (r: u64)
    requires
        n < 0x1_0000_0000,
    ensures
        is_isqrt(n as int, r as int),
        r < 0x1_0000,
{
    let mut lo: u64 = 0;
    let mut hi: u64 = 0x1_0000;
    while lo + 1 < hi
        invariant
            lo < hi <= 0x1_0000,
            lo * lo <= n,
            n < hi * hi,
        decreases hi - lo,
    {
        let mid = lo + (hi - lo) / 2;
        assert(mid * mid <= 0x1_0000 * 0x1_0000) by (nonlinear_arith)
            requires mid <= 0x1_0000;
        if mid * mid <= n {
            lo = mid;
        } else {
            hi = mid;
        }
    }
    lo
}

proof fn lemma_isqrt_product(w: int, h: int, a: int, b: int)
    requires
        w > 0,
        h > 0,
        is_isqrt((65535 * w) / h, a),
        is_isqrt((65535 * h) / w, b),
    ensures
        a * b <= 65535,
{
    assert(a * a * h <= 65535 * w) by (nonlinear_arith)
        requires a * a <= (65535 * w) / h, h > 0;
    assert(b * b * w <= 65535 * h) by (nonlinear_arith)
        requires b * b <= (65535 * h) / w, w > 0;
    assert((a * b) * (a * b) * (w * h) <= 65535 * 65535 * (w * h)) by (nonlinear_arith)
        requires a * a * h <= 65535 * w, b * b * w <= 65535 * h, a >= 0, b >= 0, w > 0, h > 0;
    assert(w * h > 0) by (nonlinear_arith) requires w > 0, h > 0;
    assert((a * b) * (a * b) <= 65535 * 65535) by (nonlinear_arith)
        requires (a * b) * (a * b) * (w * h) <= 65535 * 65535 * (w * h), w * h > 0;
    assert(a * b <= 65535) by (nonlinear_arith)
        requires (a * b) * (a * b) <= 65535 * 65535, a >= 0, b >= 0;
}

proof fn lemma_isqrt_below(w: int, h: int, a: int)
    requires
        w > 0,
        h > 0,
        w * h > 65535,
        is_isqrt((65535 * w) / h, a),
    ensures
        a <= w,
{
    assert(a * a * h <= 65535 * w) by (nonlinear_arith)
        requires a * a <= (65535 * w) / h, h > 0;
    assert(a * a * h < w * h * w) by (nonlinear_arith)
        requires a * a * h <= 65535 * w, w * h > 65535, w > 0;
    assert(a * a < w * w) by (nonlinear_arith)
        requires a * a * h < w * h * w, h > 0;
    assert(a <= w) by (nonlinear_arith)
        requires a * a < w * w, a >= 0, w > 0;
}

impl Rect {
    /// The rectangle `new` gives: as asked where its area is at most `u16::MAX`, else scaled
    /// down by the same factor on both sides, each side the integer square root of
    /// `u16::MAX` times its share of the area.
    pub open spec fn spec_new(x: u16, y: u16, width: u16, height: u16) -> Rect {
        if width * height <= u16::MAX {
            Rect { x, y, width, height }
        } else {
            Rect {
                x,
                y,
                width: isqrt_of((65535 * width) / (height as int)) as u16,
                height: isqrt_of((65535 * height) / (width as int)) as u16,
            }
        }
    }

    /// Creates a new rect, with width and height limited to keep the area under max u16.
    /// If clipped, aspect ratio will be preserved.
    pub fn new(x: u16, y: u16, width: u16, height: u16) -> (r: Rect)
        ensures
            r == Rect::spec_new(x, y, width, height),
            r.x == x,
            r.y == y,
            r.width * r.height <= u16::MAX,
            r.width <= width,
            r.height <= height,
            width * height <= u16::MAX ==> r.width == width && r.height == height,
            width * height > u16::MAX ==> is_isqrt((65535 * width) / (height as int), r.width as int)
                && is_isqrt((65535 * height) / (width as int), r.height as int),
    {
        assert((width as u32) * (height as u32) <= 65535 * 65535) by (nonlinear_arith)
            requires width <= 65535, height <= 65535;
        let area: u32 = (width as u32) * (height as u32);
        if area > 65535 {
            let w = width as u64;
            let h = height as u64;
            assert(w > 0 && h > 0) by (nonlinear_arith) requires w * h > 65535, w >= 0, h >= 0;
            assert(h * w > 65535) by (nonlinear_arith) requires w * h > 65535;
            assert(65535 * w <= 65535 * 65535) by (nonlinear_arith) requires w <= 65535;
            assert(65535 * h <= 65535 * 65535) by (nonlinear_arith) requires h <= 65535;
            let a = isqrt(65535 * w / h);
            let b = isqrt(65535 * h / w);
            proof {
                lemma_isqrt_product(w as int, h as int, a as int, b as int);
                lemma_isqrt_below(w as int, h as int, a as int);
                lemma_isqrt_below(h as int, w as int, b as int);
                let na = (65535 * width) / (height as int);
                let nb = (65535 * height) / (width as int);
                assert(is_isqrt(na, a as int));
                assert(is_isqrt(nb, b as int));
                lemma_isqrt_unique(na, a as int, isqrt_of(na));
                lemma_isqrt_unique(nb, b as int, isqrt_of(nb));
            }
            Rect { x, y, width: a as u16, height: b as u16 }
        } else {
            Rect { x, y, width, height }
        }
    }

    pub open spec fn spec_right(self) -> u16 {
        if self.x + self.width > u16::MAX { u16::MAX } else { (self.x + self.width) as u16 }
    }

    pub open spec fn spec_bottom(self) -> u16 {
        if self.y + self.height > u16::MAX { u16::MAX } else { (self.y + self.height) as u16 }
    }

    pub fn area(self) -> (a: u16)
        requires
            self.width * self.height <= u16::MAX,
        ensures
            a == self.width * self.height,
    {
        self.width * self.height
    }

    pub fn left(self) -> (l: u16)
        ensures l == self.x,
    {
        self.x
    }

    /// One past the last column, saturated at `u16::MAX`.
    pub fn right(self) -> (r: u16)
        ensures r == self.spec_right(),
    {
        self.x.saturating_add(self.width)
    }

    pub fn top(self) -> (t: u16)
        ensures t == self.y,
    {
        self.y
    }

    /// One past the last row, saturated at `u16::MAX`.
    pub fn bottom(self) -> (b: u16)
        ensures b == self.spec_bottom(),
    {
        self.y.saturating_add(self.height)
    }

    /// Whether `inner` computes without overflow.
    pub open spec fn inner_computable(self, margin: Margin) -> bool {
        &&& 2 * margin.horizontal <= u16::MAX
        &&& 2 * margin.vertical <= u16::MAX
        &&& (self.width >= 2 * margin.horizontal && self.height >= 2 * margin.vertical) ==> {
            &&& self.x + margin.horizontal <= u16::MAX
            &&& self.y + margin.vertical <= u16::MAX
        }
    }

    pub open spec fn spec_inner(self, margin: Margin) -> Rect {
        if self.width < 2 * margin.horizontal || self.height < 2 * margin.vertical {
            Rect { x: 0, y: 0, width: 0, height: 0 }
        } else {
            Rect {
                x: (self.x + margin.horizontal) as u16,
                y: (self.y + margin.vertical) as u16,
                width: (self.width - 2 * margin.horizontal) as u16,
                height: (self.height - 2 * margin.vertical) as u16,
            }
        }
    }

    /// The rectangle left when the margin is taken off each side; empty at the origin when the
    /// margin does not fit.
    pub fn inner(self, margin: &Margin) -> (r: Rect)
        requires
            self.inner_computable(*margin),
        ensures
            r == self.spec_inner(*margin),
    {
        if self.width < 2 * margin.horizontal || self.height < 2 * margin.vertical {
            Rect { x: 0, y: 0, width: 0, height: 0 }
        } else {
            Rect {
                x: self.x + margin.horizontal,
                y: self.y + margin.vertical,
                width: self.width - 2 * margin.horizontal,
                height: self.height - 2 * margin.vertical,
            }
        }
    }

    /// Whether the right and bottom edges of `self` are below `u16::MAX` without saturating.
    pub open spec fn edges_fit(self) -> bool {
        self.x + self.width <= u16::MAX && self.y + self.height <= u16::MAX
    }

    pub open spec fn spec_union(self, other: Rect) -> Rect {
        let x1 = min_u16(self.x, other.x);
        let y1 = min_u16(self.y, other.y);
        let x2 = max_u16((self.x + self.width) as u16, (other.x + other.width) as u16);
        let y2 = max_u16((self.y + self.height) as u16, (other.y + other.height) as u16);
        Rect { x: x1, y: y1, width: (x2 - x1) as u16, height: (y2 - y1) as u16 }
    }

    /// The smallest rectangle that holds both rectangles.
    pub fn union(self, other: Rect) -> (r: Rect)
        requires
            self.edges_fit(),
            other.edges_fit(),
        ensures
            r == self.spec_union(other),
    {
        let x1 = min(self.x, other.x);
        let y1 = min(self.y, other.y);
        let x2 = max(self.x + self.width, other.x + other.width);
        let y2 = max(self.y + self.height, other.y + other.height);
        Rect { x: x1, y: y1, width: x2 - x1, height: y2 - y1 }
    }

    pub open spec fn spec_intersects(self, other: Rect) -> bool {
        &&& self.x < other.x + other.width
        &&& self.x + self.width > other.x
        &&& self.y < other.y + other.height
        &&& self.y + self.height > other.y
    }

    /// Whether the two rectangles overlap on at least one cell.
    pub fn intersects(self, other: Rect) -> (b: bool)
        requires
            self.edges_fit(),
            other.edges_fit(),
        ensures
            b == self.spec_intersects(other),
    {
        self.x < other.x + other.width && self.x + self.width > other.x && self.y < other.y
            + other.height && self.y + self.height > other.y
    }

    /// Whether the intersection of the two rectangles is a rectangle: they overlap or touch.
    pub open spec fn meets(self, other: Rect) -> bool {
        &&& max_u16(self.x, other.x) <= min_u16((self.x + self.width) as u16, (other.x + other.width) as u16)
        &&& max_u16(self.y, other.y) <= min_u16((self.y + self.height) as u16, (other.y + other.height) as u16)
    }

    pub open spec fn spec_intersection(self, other: Rect) -> Rect {
        let x1 = max_u16(self.x, other.x);
        let y1 = max_u16(self.y, other.y);
        let x2 = min_u16((self.x + self.width) as u16, (other.x + other.width) as u16);
        let y2 = min_u16((self.y + self.height) as u16, (other.y + other.height) as u16);
        Rect { x: x1, y: y1, width: (x2 - x1) as u16, height: (y2 - y1) as u16 }
    }

    /// The rectangle that both rectangles cover.
    pub fn intersection(self, other: Rect) -> (r: Rect)
        requires
            self.edges_fit(),
            other.edges_fit(),
            self.meets(other),
        ensures
            r == self.spec_intersection(other),
    {
        let x1 = max(self.x, other.x);
        let y1 = max(self.y, other.y);
        let x2 = min(self.x + self.width, other.x + other.width);
        let y2 = min(self.y + self.height, other.y + other.height);
        Rect { x: x1, y: y1, width: x2 - x1, height: y2 - y1 }
    }

    /// Whether the cell at `(x, y)` lies in the rectangle.
    pub open spec fn contains_point(self, x: int, y: int) -> bool {
        self.x <= x < self.x + self.width && self.y <= y < self.y + self.height
    }

    /// Whether every cell of `other` lies in `self`.
    pub open spec fn contains_rect(self, other: Rect) -> bool {
        &&& self.x <= other.x
        &&& self.y <= other.y
        &&& other.x + other.width <= self.x + self.width
        &&& other.y + other.height <= self.y + self.height
    }
}

/// The union of two rectangles holds both of them, and does not depend on their order.
pub proof fn lemma_union_holds_both(a: Rect, b: Rect)
    requires
        a.edges_fit(),
        b.edges_fit(),
    ensures
        a.spec_union(b).contains_rect(a),
        a.spec_union(b).contains_rect(b),
        a.spec_union(b) == b.spec_union(a),
{
}

/// The intersection of two meeting rectangles lies in both of them, does not depend on their
/// order, and is non-empty exactly when the two rectangles intersect.
pub proof fn lemma_intersection_inside_both(a: Rect, b: Rect)
    requires
        a.edges_fit(),
        b.edges_fit(),
        a.meets(b),
    ensures
        a.contains_rect(a.spec_intersection(b)),
        b.contains_rect(a.spec_intersection(b)),
        a.spec_intersection(b) == b.spec_intersection(a),
        a.spec_intersects(b) == b.spec_intersects(a),
{
}

/// Two non-empty rectangles intersect exactly when their intersection is non-empty.
pub proof fn lemma_intersects_iff_nonempty(a: Rect, b: Rect)
    requires
        a.edges_fit(),
        b.edges_fit(),
        a.width > 0 && a.height > 0,
        b.width > 0 && b.height > 0,
    ensures
        a.spec_intersects(b) <==> (a.meets(b) && a.spec_intersection(b).width > 0
            && a.spec_intersection(b).height > 0),
{
}

/// A cell lies in both rectangles exactly when it lies in their intersection.
pub proof fn lemma_intersection_points(a: Rect, b: Rect, x: int, y: int)
    requires
        a.edges_fit(),
        b.edges_fit(),
        a.meets(b),
    ensures
        a.spec_intersection(b).contains_point(x, y) <==> (a.contains_point(x, y) && b.contains_point(x, y)),
{
}

/// Taking a margin off a rectangle leaves a rectangle inside it, unless the margin does not fit.
pub proof fn lemma_inner_inside(r: Rect, m: Margin)
    requires
        r.inner_computable(m),
        r.width >= 2 * m.horizontal,
        r.height >= 2 * m.vertical,
    ensures
        r.contains_rect(r.spec_inner(m)),
        r.spec_inner(m).width + 2 * m.horizontal == r.width,
        r.spec_inner(m).height + 2 * m.vertical == r.height,
{
}

} // verus!
