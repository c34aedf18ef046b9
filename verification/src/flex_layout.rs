//! A flex layout: spaces with an ideal size that grow or shrink, in proportion to their shares,
//! until they fill the available room.
use vstd::prelude::*;

use crate::layout::{max_u16, min_u16, Direction, Rect};

verus! {

/// The layout needs more room than the rectangle it was given.
#[derive(Debug, Clone, Copy, PartialEq, Eq, Structural)]
pub struct LayoutOverflowError {
    pub min_size: u16,
    pub actual_size: u16,
    pub direction: Direction,
}

/// How much a space shrinks in relation to the other shrinking spaces, and how small it may get.
#[derive(Debug, Hash, PartialEq, Eq, Clone, Copy, Structural)]
pub struct FlexShrink {
    /// The relative amount of the missing room this space gives up: values of `[25, 25, 50]`
    /// are equivalent to `[1, 1, 2]`.
    pub flex_share: usize,
    /// A minimum size for this space - It can't shrink further than to this size.
    pub min_size: u16,
}

impl FlexShrink {
    pub fn new(flex_share: usize) -> (s: FlexShrink)
        ensures
            s == (FlexShrink { flex_share, min_size: 0 }),
    {
        FlexShrink { flex_share, min_size: 0 }
    }

    pub fn min_size(self, min_size: u16) -> (s: FlexShrink)
        ensures
            s == (FlexShrink { min_size, ..self }),
    {
        let mut s = self;
        s.min_size = min_size;
        s
    }
}

impl From<usize> for FlexShrink {
    fn from(share: usize) -> (s: FlexShrink) {
        FlexShrink::new(share)
    }
}

impl vstd::std_specs::convert::FromSpecImpl<usize> for FlexShrink {
    open spec fn obeys_from_spec() -> bool {
        true
    }

    open spec fn from_spec(share: usize) -> FlexShrink {
        FlexShrink { flex_share: share, min_size: 0 }
    }
}

/// How much a space grows in relation to the other growing spaces, and how large it may get.
#[derive(Debug, Hash, PartialEq, Eq, Clone, Copy, Structural)]
pub struct FlexGrow {
    /// The relative amount of the extra room this space takes: values of `[25, 25, 50]` are
    /// equivalent to `[1, 1, 2]`.
    pub flex_share: usize,
    /// A maximum size for this space.
    pub max_size: u16,
}

impl FlexGrow {
    pub fn new(flex_share: usize) -> (g: FlexGrow)
        ensures
            g == (FlexGrow { flex_share, max_size: u16::MAX }),
    {
        FlexGrow { flex_share, max_size: u16::MAX }
    }

    pub fn max_size(self, max_size: u16) -> (g: FlexGrow)
        ensures
            g == (FlexGrow { max_size, ..self }),
    {
        let mut g = self;
        g.max_size = max_size;
        g
    }
}

impl From<usize> for FlexGrow {
    fn from(share: usize) -> (g: FlexGrow) {
        FlexGrow::new(share)
    }
}

impl vstd::std_specs::convert::FromSpecImpl<usize> for FlexGrow {
    open spec fn obeys_from_spec() -> bool {
        true
    }

    open spec fn from_spec(share: usize) -> FlexGrow {
        FlexGrow { flex_share: share, max_size: u16::MAX }
    }
}

/// A space of a flex layout: its ideal size, and whether and how it grows or shrinks.
#[derive(Debug, Hash, PartialEq, Eq, Clone, Copy, Structural)]
pub struct FlexSpace {
    pub base_size: u16,
    pub growth: Option<FlexGrow>,
    pub shrinkage: Option<FlexShrink>,
}

impl FlexSpace {
    pub fn new(base_size: u16) -> (s: FlexSpace)
        ensures
            s == (FlexSpace { base_size, growth: None, shrinkage: None }),
    {
        FlexSpace { base_size, growth: None, shrinkage: None }
    }

    pub fn shrinkage(self, shrinkage: FlexShrink) -> (s: FlexSpace)
        ensures
            s == (FlexSpace { shrinkage: Some(shrinkage), ..self }),
    {
        let mut s = self;
        s.shrinkage = Some(shrinkage);
        s
    }

    /// Shorthand for a shrinkage of share 1 and minimum size 0.
    pub fn shrinkable(self) -> (s: FlexSpace)
        ensures
            s == (FlexSpace { shrinkage: Some(FlexShrink { flex_share: 1, min_size: 0 }), ..self }),
    {
        self.shrinkage(FlexShrink::new(1))
    }

    pub fn growth(self, growth: FlexGrow) -> (s: FlexSpace)
        ensures
            s == (FlexSpace { growth: Some(growth), ..self }),
    {
        let mut s = self;
        s.growth = Some(growth);
        s
    }

    /// Shorthand for a growth of share 1 and maximum size `u16::MAX`.
    pub fn growable(self) -> (s: FlexSpace)
        ensures
            s == (FlexSpace { growth: Some(FlexGrow { flex_share: 1, max_size: u16::MAX }), ..self }),
    {
        self.growth(FlexGrow::new(1))
    }
}

impl From<u16> for FlexSpace {
    fn from(base_size: u16) -> (s: FlexSpace) {
        FlexSpace::new(base_size)
    }
}

impl vstd::std_specs::convert::FromSpecImpl<u16> for FlexSpace {
    open spec fn obeys_from_spec() -> bool {
        true
    }

    open spec fn from_spec(base_size: u16) -> FlexSpace {
        FlexSpace { base_size, growth: None, shrinkage: None }
    }
}


/// A flex layout, in the manner of CSS `flex`: the spaces get their ideal size, then grow or
/// shrink in proportion to their shares until they fill the available room. Gaps and margins
/// are spaces too, which are left out of the result.
#[derive(Debug, Hash, PartialEq, Eq, Clone)]
pub struct FlexLayout {
    pub direction: Direction,
    pub flex_spaces: Vec<FlexSpace>,
    pub gap: Option<FlexSpace>,
    pub margin_start: Option<FlexSpace>,
    pub margin_end: Option<FlexSpace>,
}

impl FlexLayout {
    pub fn new(direction: Direction) -> (l: FlexLayout)
        ensures
            l.direction == direction,
            l.flex_spaces@.len() == 0,
            l.gap is None,
            l.margin_start is None,
            l.margin_end is None,
    {
        FlexLayout { direction, flex_spaces: Vec::new(), gap: None, margin_start: None, margin_end: None }
    }

    pub fn flex_spaces(self, flex_spaces: Vec<FlexSpace>) -> (l: FlexLayout)
        ensures
            l.flex_spaces@ == flex_spaces@,
            l.direction == self.direction,
            l.gap == self.gap,
            l.margin_start == self.margin_start,
            l.margin_end == self.margin_end,
    {
        let mut l = self;
        l.flex_spaces = flex_spaces;
        l
    }

    pub fn gap(self, gap: FlexSpace) -> (l: FlexLayout)
        ensures
            l.gap == Some(gap),
            l.flex_spaces@ == self.flex_spaces@,
            l.direction == self.direction,
            l.margin_start == self.margin_start,
            l.margin_end == self.margin_end,
    {
        let mut l = self;
        l.gap = Some(gap);
        l
    }

    pub fn margin_start(self, margin: FlexSpace) -> (l: FlexLayout)
        ensures
            l.margin_start == Some(margin),
            l.flex_spaces@ == self.flex_spaces@,
            l.direction == self.direction,
            l.gap == self.gap,
            l.margin_end == self.margin_end,
    {
        let mut l = self;
        l.margin_start = Some(margin);
        l
    }

    pub fn margin_end(self, margin: FlexSpace) -> (l: FlexLayout)
        ensures
            l.margin_end == Some(margin),
            l.flex_spaces@ == self.flex_spaces@,
            l.direction == self.direction,
            l.gap == self.gap,
            l.margin_start == self.margin_start,
    {
        let mut l = self;
        l.margin_end = Some(margin);
        l
    }

    /// Sets the same margin at both ends.
    pub fn margins(self, margin: FlexSpace) -> (l: FlexLayout)
        ensures
            l.margin_start == Some(margin),
            l.margin_end == Some(margin),
            l.flex_spaces@ == self.flex_spaces@,
            l.direction == self.direction,
            l.gap == self.gap,
    {
        let mut l = self;
        l.margin_start = Some(margin);
        l.margin_end = Some(margin);
        l
    }
}


/// The working state of one space while the layout is computed.
#[derive(Debug, Clone, Copy, PartialEq, Eq, Structural)]
pub struct SpaceSize {
    pub base_size: u16,
    pub flex_share: usize,
    /// How much this space may grow or shrink at most.
    pub size_delta_max: u16,
    /// How much this space grows or shrinks.
    pub size_delta: u16,
    /// Whether the space is a gap or a margin, left out of the result.
    pub is_virtual: bool,
}

/// The state of a space before it grows (`growing`) or shrinks: a space without growth (or
/// shrinkage) gets share and limit 0, which keep it at its ideal size.
pub open spec fn initial_space_size(space: FlexSpace, is_virtual: bool, growing: bool) -> SpaceSize {
    let (share, limit) = if growing {
        match space.growth {
            Some(g) => (g.flex_share, max_u16(g.max_size, space.base_size) - space.base_size),
            None => (0usize, 0int),
        }
    } else {
        match space.shrinkage {
            Some(sh) => (sh.flex_share, space.base_size - min_u16(sh.min_size, space.base_size)),
            None => (0usize, 0int),
        }
    };
    SpaceSize {
        base_size: space.base_size,
        flex_share: share,
        size_delta_max: limit as u16,
        size_delta: 0,
        is_virtual,
    }
}

/// A space can still change size: it has a share and has not reached its limit.
pub open spec fn resizable(s: SpaceSize) -> bool {
    s.flex_share > 0 && s.size_delta < s.size_delta_max
}

/// The sum of the shares of the resizable spaces from index `j` on.
pub open spec fn flex_sum_from(sp: Seq<SpaceSize>, j: int) -> int
    decreases sp.len() - j,
{
    if j < 0 || j >= sp.len() {
        0
    } else {
        (if resizable(sp[j]) { sp[j].flex_share as int } else { 0 }) + flex_sum_from(sp, j + 1)
    }
}

/// How much a resizable space changes in one round: its share of the missing (or extra) room,
/// rounded down, or 1 in a round that hands out what rounding left over; never more than its
/// limit allows.
pub open spec fn step_amount(s: SpaceSize, rest: int, fsum: int, is_rest: bool) -> int {
    let want = if is_rest { 1 } else { (s.flex_share * rest) / fsum };
    let room = s.size_delta_max - s.size_delta;
    if want <= room { want } else { room }
}

/// One round from index `j` on: each resizable space changes by its step amount until nothing
/// is left to hand out. Returns the spaces and what is left.
pub open spec fn round_from(
    sp: Seq<SpaceSize>,
    j: int,
    rest: int,
    new_rest: int,
    fsum: int,
    is_rest: bool,
) -> (Seq<SpaceSize>, int)
    decreases sp.len() - j,
{
    if j < 0 || j >= sp.len() || new_rest <= 0 {
        (sp, new_rest)
    } else if resizable(sp[j]) {
        let a = step_amount(sp[j], rest, fsum, is_rest);
        round_from(
            sp.update(j, SpaceSize { size_delta: (sp[j].size_delta + a) as u16, ..sp[j] }),
            j + 1,
            rest,
            new_rest - a,
            fsum,
            is_rest,
        )
    } else {
        round_from(sp, j + 1, rest, new_rest, fsum, is_rest)
    }
}

/// Rounds until nothing is left to hand out (`false`), or no space can change any more with
/// something left (`true`). A round that hands out nothing is followed by a round that hands out
/// one to each resizable space, in order.
pub open spec fn flex_rounds(sp: Seq<SpaceSize>, rest: int, is_rest: bool) -> (Seq<SpaceSize>, int, bool)
    decreases rest, (if is_rest { 0int } else { 1int }),
{
    if rest <= 0 {
        (sp, rest, false)
    } else if flex_sum_from(sp, 0) == 0 {
        (sp, rest, true)
    } else {
        let (sp2, r2) = round_from(sp, 0, rest, rest, flex_sum_from(sp, 0), is_rest);
        if r2 < 0 || r2 > rest || (is_rest && r2 == rest) {
            (sp2, r2, false)
        } else {
            flex_rounds(sp2, r2, r2 == rest)
        }
    }
}

/// `sp2` is `sp` after some rounds: the same spaces, each changed by no less, and within its limit.
pub open spec fn evolves(sp: Seq<SpaceSize>, sp2: Seq<SpaceSize>) -> bool {
    &&& sp.len() == sp2.len()
    &&& forall|i: int| 0 <= i < sp.len() ==> {
        &&& (#[trigger] sp2[i]).base_size == sp[i].base_size
        &&& sp2[i].flex_share == sp[i].flex_share
        &&& sp2[i].size_delta_max == sp[i].size_delta_max
        &&& sp2[i].is_virtual == sp[i].is_virtual
        &&& sp[i].size_delta <= sp2[i].size_delta <= sp2[i].size_delta_max
    }
}

/// Every space is within its limit, and a space without a share has not changed.
pub open spec fn within_limits(sp: Seq<SpaceSize>) -> bool {
    forall|i: int| 0 <= i < sp.len() ==> {
        &&& (#[trigger] sp[i]).size_delta <= sp[i].size_delta_max
        &&& sp[i].flex_share == 0 ==> sp[i].size_delta == 0
    }
}

/// One step of a round keeps what `lemma_round` needs.
proof fn lemma_round_step(sp: Seq<SpaceSize>, j: int, rest: int, nr: int, fsum: int, is_rest: bool)
    requires
        0 <= j < sp.len(),
        0 < nr <= rest,
        fsum > 0,
        within_limits(sp),
        resizable(sp[j]),
        !is_rest ==> flex_sum_from(sp, j) <= fsum,
        !is_rest ==> (rest - nr) * fsum <= (fsum - flex_sum_from(sp, j)) * rest,
    ensures
        ({
            let a = step_amount(sp[j], rest, fsum, is_rest);
            let sp1 = sp.update(j, SpaceSize { size_delta: (sp[j].size_delta + a) as u16, ..sp[j] });
            &&& 0 <= a <= nr
            &&& is_rest ==> a == 1
            &&& !is_rest ==> a <= rest && sp[j].flex_share <= fsum
            &&& within_limits(sp1)
            &&& !is_rest ==> flex_sum_from(sp1, j + 1) <= fsum
            &&& !is_rest ==> (rest - (nr - a)) * fsum <= (fsum - flex_sum_from(sp1, j + 1)) * rest
            &&& flex_sum_from(sp1, j + 1) == flex_sum_from(sp, j + 1)
        }),
{
    let a = step_amount(sp[j], rest, fsum, is_rest);
    let sp1 = sp.update(j, SpaceSize { size_delta: (sp[j].size_delta + a) as u16, ..sp[j] });
    let share = sp[j].flex_share as int;
    lemma_flex_sum_nonneg(sp, j + 1);
    lemma_flex_sum_same_suffix(sp, sp1, j + 1);
    if !is_rest {
        assert(share * rest / fsum * fsum <= share * rest) by (nonlinear_arith)
            requires fsum > 0, share >= 0, rest >= 0;
        assert(share * rest / fsum <= rest) by (nonlinear_arith)
            requires share <= fsum, fsum > 0, share >= 0, rest >= 0;
        assert(a * fsum <= share * rest) by (nonlinear_arith)
            requires a <= share * rest / fsum, share * rest / fsum * fsum <= share * rest, fsum > 0, a >= 0;
        assert((rest - (nr - a)) * fsum <= (fsum - flex_sum_from(sp, j + 1)) * rest) by (nonlinear_arith)
            requires
                (rest - nr) * fsum <= (fsum - flex_sum_from(sp, j)) * rest,
                flex_sum_from(sp, j) == share + flex_sum_from(sp, j + 1),
                a * fsum <= share * rest;
        assert(nr - a >= 0) by (nonlinear_arith)
            requires
                (rest - (nr - a)) * fsum <= (fsum - flex_sum_from(sp, j + 1)) * rest,
                flex_sum_from(sp, j + 1) >= 0,
                fsum > 0,
                rest >= 0;
    }
}

proof fn lemma_flex_sum_nonneg(sp: Seq<SpaceSize>, j: int)
    ensures
        flex_sum_from(sp, j) >= 0,
    decreases sp.len() - j,
{
    if 0 <= j < sp.len() {
        lemma_flex_sum_nonneg(sp, j + 1);
    }
}

/// A round keeps the spaces within their limits, only lets them change further, and hands out
/// no more than is left; outside a leftover round, it never hands out more than there was.
proof fn lemma_round(sp: Seq<SpaceSize>, j: int, rest: int, nr: int, fsum: int, is_rest: bool)
    requires
        0 <= j <= sp.len(),
        0 <= nr <= rest,
        fsum > 0,
        within_limits(sp),
        !is_rest ==> flex_sum_from(sp, j) <= fsum,
        !is_rest ==> (rest - nr) * fsum <= (fsum - flex_sum_from(sp, j)) * rest,
    ensures
        evolves(sp, round_from(sp, j, rest, nr, fsum, is_rest).0),
        within_limits(round_from(sp, j, rest, nr, fsum, is_rest).0),
        0 <= round_from(sp, j, rest, nr, fsum, is_rest).1 <= nr,
        is_rest && nr > 0 && flex_sum_from(sp, j) > 0 ==> round_from(sp, j, rest, nr, fsum, is_rest).1 < nr,
    decreases sp.len() - j,
{
    lemma_flex_sum_nonneg(sp, j);
    if j >= sp.len() || nr <= 0 {
        if j < sp.len() {
            lemma_flex_sum_nonneg(sp, j + 1);
        }
    } else if resizable(sp[j]) {
        let a = step_amount(sp[j], rest, fsum, is_rest);
        let sp1 = sp.update(j, SpaceSize { size_delta: (sp[j].size_delta + a) as u16, ..sp[j] });
        lemma_round_step(sp, j, rest, nr, fsum, is_rest);
        lemma_round(sp1, j + 1, rest, nr - a, fsum, is_rest);
        let res = round_from(sp1, j + 1, rest, nr - a, fsum, is_rest).0;
        assert forall|i: int| 0 <= i < sp.len() implies sp[i].size_delta <= (#[trigger] res[i]).size_delta by {
            assert(sp[i].size_delta <= sp1[i].size_delta);
        }
    } else {
        lemma_round(sp, j + 1, rest, nr, fsum, is_rest);
    }
}

proof fn lemma_flex_sum_same_suffix(sp: Seq<SpaceSize>, sp2: Seq<SpaceSize>, j: int)
    requires
        sp.len() == sp2.len(),
        0 <= j,
        forall|i: int| j <= i < sp.len() ==> sp[i] == sp2[i],
    ensures
        flex_sum_from(sp, j) == flex_sum_from(sp2, j),
    decreases sp.len() - j,
{
    if j < sp.len() {
        lemma_flex_sum_same_suffix(sp, sp2, j + 1);
    }
}

/// Spaces that only changed further have no more resizable share between them.
proof fn lemma_flex_sum_evolves(sp: Seq<SpaceSize>, sp2: Seq<SpaceSize>, j: int)
    requires
        evolves(sp, sp2),
        j >= 0,
    ensures
        flex_sum_from(sp2, j) <= flex_sum_from(sp, j),
    decreases sp.len() - j,
{
    if j < sp.len() {
        assert(sp2[j].size_delta >= sp[j].size_delta);
        lemma_flex_sum_evolves(sp, sp2, j + 1);
    }
}

proof fn lemma_evolves_trans(a: Seq<SpaceSize>, b: Seq<SpaceSize>, c: Seq<SpaceSize>)
    requires
        evolves(a, b),
        evolves(b, c),
    ensures
        evolves(a, c),
{
    assert forall|i: int| 0 <= i < a.len() implies a[i].size_delta <= (#[trigger] c[i]).size_delta by {
        assert(b[i].size_delta <= c[i].size_delta);
    }
}


/// The sum of the ideal sizes, saturated at `u16::MAX` at each step.
pub open spec fn saturated_base_sum(all: Seq<(FlexSpace, bool)>) -> u16
    decreases all.len(),
{
    if all.len() == 0 {
        0
    } else {
        let s = saturated_base_sum(all.drop_last()) + all.last().0.base_size;
        if s > u16::MAX { u16::MAX } else { s as u16 }
    }
}

/// The spaces before they grow or shrink.
pub open spec fn initial_sizes(all: Seq<(FlexSpace, bool)>, growing: bool) -> Seq<SpaceSize> {
    Seq::new(all.len(), |i: int| initial_space_size(all[i].0, all[i].1, growing))
}

/// The sum of the first `k` sizes.
pub open spec fn prefix_size(sizes: Seq<(u16, bool)>, k: int) -> int
    decreases k,
{
    if k <= 0 { 0 } else { prefix_size(sizes, k - 1) + sizes[k - 1].0 }
}

/// The rectangle of a space at `pos` along the direction, of `size`, cut off at the end of the
/// area.
pub open spec fn place_rect(pos: int, size: int, area: Rect, direction: Direction) -> Rect {
    match direction {
        Direction::Horizontal => {
            let d = if pos < area.width { pos } else { area.width as int };
            let w = if size < area.width - d { size } else { area.width - d };
            Rect { x: (area.x + d) as u16, width: w as u16, ..area }
        },
        Direction::Vertical => {
            let d = if pos < area.height { pos } else { area.height as int };
            let h = if size < area.height - d { size } else { area.height - d };
            Rect { y: (area.y + d) as u16, height: h as u16, ..area }
        },
    }
}

/// The rectangles of the non-virtual spaces among the first `k`, one after the other.
pub open spec fn placed(sizes: Seq<(u16, bool)>, k: int, area: Rect, direction: Direction) -> Seq<Rect>
    decreases k,
{
    if k <= 0 {
        seq![]
    } else if sizes[k - 1].1 {
        placed(sizes, k - 1, area, direction)
    } else {
        placed(sizes, k - 1, area, direction).push(
            place_rect(prefix_size(sizes, k - 1), sizes[k - 1].0 as int, area, direction),
        )
    }
}

impl FlexLayout {
    /// The spaces for the first `k` flex spaces: each is preceded by the start margin (the
    /// first) or the gap (the others), and the last one is followed by the end margin. Margins
    /// and gaps are marked virtual.
    pub open spec fn spaces_upto(self, k: int) -> Seq<(FlexSpace, bool)>
        decreases k,
    {
        if k <= 0 {
            seq![]
        } else {
            let i = k - 1;
            let before = if i == 0 { self.margin_start } else { self.gap };
            let pre = self.spaces_upto(i) + match before {
                Some(b) => seq![(b, true)],
                None => seq![],
            } + seq![(self.flex_spaces@[i], false)];
            if i == self.flex_spaces@.len() - 1 {
                pre + match self.margin_end {
                    Some(e) => seq![(e, true)],
                    None => seq![],
                }
            } else {
                pre
            }
        }
    }

    pub open spec fn all_spaces(self) -> Seq<(FlexSpace, bool)> {
        self.spaces_upto(self.flex_spaces@.len() as int)
    }

    /// The room along the direction.
    pub open spec fn available(self, area: Rect) -> u16 {
        match self.direction {
            Direction::Horizontal => area.width,
            Direction::Vertical => area.height,
        }
    }

    /// Whether the spaces grow (rather than shrink or stay).
    pub open spec fn growing(self, area: Rect) -> bool {
        saturated_base_sum(self.all_spaces()) < self.available(area)
    }

    /// How much room is missing or left over.
    pub open spec fn flex_delta(self, area: Rect) -> int {
        let sum = saturated_base_sum(self.all_spaces()) as int;
        let avail = self.available(area) as int;
        if sum < avail { avail - sum } else { sum - avail }
    }

    /// The outcome of the rounds: the spaces, what is left to hand out, and whether the spaces
    /// got stuck with something left.
    pub open spec fn flex_outcome(self, area: Rect) -> (Seq<SpaceSize>, int, bool) {
        flex_rounds(initial_sizes(self.all_spaces(), self.growing(area)), self.flex_delta(area), false)
    }

    /// The final size of each space, with whether it is virtual.
    pub open spec fn final_sizes(self, area: Rect) -> Seq<(u16, bool)> {
        let all = self.all_spaces();
        if self.flex_delta(area) == 0 {
            Seq::new(all.len(), |i: int| (all[i].0.base_size, all[i].1))
        } else {
            let sp = self.flex_outcome(area).0;
            Seq::new(
                sp.len(),
                |i: int|
                    (
                        (if self.growing(area) {
                            sp[i].base_size + sp[i].size_delta
                        } else {
                            sp[i].base_size - sp[i].size_delta
                        }) as u16,
                        sp[i].is_virtual,
                    ),
            )
        }
    }

    /// The error reported when the spaces had to shrink and could not shrink enough: the room
    /// they need at least, and the room there was.
    pub open spec fn overflow(self, area: Rect) -> Option<LayoutOverflowError> {
        if self.flex_delta(area) != 0 && !self.growing(area) && self.flex_outcome(area).2 {
            Some(
                LayoutOverflowError {
                    min_size: (self.available(area) + self.flex_outcome(area).1) as u16,
                    actual_size: self.available(area),
                    direction: self.direction,
                },
            )
        } else {
            None
        }
    }

    /// The rectangles of the non-virtual spaces.
    pub open spec fn spec_split(self, area: Rect) -> Seq<Rect> {
        let sizes = self.final_sizes(area);
        placed(sizes, sizes.len() as int, area, self.direction)
    }

    /// The computation stays within its integer types: the shares that are summed fit in a
    /// `usize`, the sizes add up to no more than `u16::MAX`, and every rectangle starts at a
    /// coordinate below `u16::MAX`.
    pub open spec fn split_computable(self, area: Rect) -> bool {
        let sizes = self.final_sizes(area);
        &&& self.flex_delta(area) != 0 ==> flex_sum_from(
            initial_sizes(self.all_spaces(), self.growing(area)),
            0,
        ) <= usize::MAX
        &&& prefix_size(sizes, sizes.len() as int) <= u16::MAX
        &&& forall|k: int| 0 <= k < sizes.len() && !sizes[k].1 ==> match self.direction {
            Direction::Horizontal => area.x + (if prefix_size(sizes, k) < area.width {
                prefix_size(sizes, k)
            } else {
                area.width as int
            }) <= u16::MAX,
            Direction::Vertical => area.y + (if prefix_size(sizes, k) < area.height {
                prefix_size(sizes, k)
            } else {
                area.height as int
            }) <= u16::MAX,
        }
    }
}


/// The sum of the shares of the resizable spaces.
fn flex_sum(spaces: &Vec<SpaceSize>) -> (r: usize)
    requires
        flex_sum_from(spaces@, 0) <= usize::MAX,
    ensures
        r == flex_sum_from(spaces@, 0),
{
    let mut k = spaces.len();
    let mut acc: usize = 0;
    proof {
        lemma_flex_sum_nonneg(spaces@, 0);
    }
    while k > 0
        invariant
            k <= spaces@.len(),
            acc == flex_sum_from(spaces@, k as int),
            flex_sum_from(spaces@, 0) <= usize::MAX,
        decreases k,
    {
        proof {
            lemma_flex_sum_prefix_bound(spaces@, k - 1);
        }
        let sp = spaces[k - 1];
        if sp.flex_share > 0 && sp.size_delta < sp.size_delta_max {
            acc = acc + sp.flex_share;
        }
        k = k - 1;
    }
    acc
}

/// A suffix sum is no more than the sum from the start.
proof fn lemma_flex_sum_prefix_bound(sp: Seq<SpaceSize>, j: int)
    requires
        0 <= j <= sp.len(),
    ensures
        flex_sum_from(sp, j) <= flex_sum_from(sp, 0),
    decreases j,
{
    lemma_flex_sum_nonneg(sp, j);
    if j > 0 {
        lemma_flex_sum_prefix_bound(sp, j - 1);
        lemma_flex_sum_nonneg(sp, j);
    }
}

/// One round over all spaces.
fn flex_round(spaces: &mut Vec<SpaceSize>, rest: u16, fsum: usize, is_rest: bool) -> (r: u16)
    requires
        rest > 0,
        fsum > 0,
        within_limits(old(spaces)@),
        !is_rest ==> flex_sum_from(old(spaces)@, 0) <= fsum,
    ensures
        (final(spaces)@, r as int) == round_from(old(spaces)@, 0, rest as int, rest as int, fsum as int, is_rest),
{
    let ghost start = spaces@;
    let mut new_rest = rest;
    let mut j: usize = 0;
    while j < spaces.len() && new_rest > 0
        invariant
            0 <= j <= spaces@.len(),
            0 <= new_rest <= rest,
            fsum > 0,
            within_limits(spaces@),
            !is_rest ==> flex_sum_from(spaces@, j as int) <= fsum,
            !is_rest ==> (rest - new_rest) * fsum <= (fsum - flex_sum_from(spaces@, j as int)) * rest,
            round_from(spaces@, j as int, rest as int, new_rest as int, fsum as int, is_rest)
                == round_from(start, 0, rest as int, rest as int, fsum as int, is_rest),
        decreases spaces@.len() - j,
    {
        let sp = spaces[j];
        let ghost before = spaces@;
        if sp.flex_share > 0 && sp.size_delta < sp.size_delta_max {
            proof {
                lemma_round_step(spaces@, j as int, rest as int, new_rest as int, fsum as int, is_rest);
            }
            let want: u16 = if is_rest {
                1
            } else {
                let share = sp.flex_share as u128;
                let r = rest as u128;
                let f = fsum as u128;
                assert(share * r <= 0x1_0000_0000_0000_0000 * 0x1_0000) by (nonlinear_arith)
                    requires share < 0x1_0000_0000_0000_0000, r < 0x1_0000;
                let w = share * r / f;
                assert(w <= r) by (nonlinear_arith)
                    requires w as int == (share * r) as int / (f as int), share <= f, f > 0;
                w as u16
            };
            let room = sp.size_delta_max - sp.size_delta;
            let a = if want <= room { want } else { room };
            spaces.set(j, SpaceSize { size_delta: sp.size_delta + a, ..sp });
            assert(spaces@ == before.update(j as int, SpaceSize { size_delta: (before[j as int].size_delta + a) as u16, ..before[j as int] }));
            new_rest = new_rest - a;
        } else {
            assert(flex_sum_from(spaces@, j as int) == flex_sum_from(spaces@, j + 1));
        }
        j = j + 1;
    }
    new_rest
}


impl FlexLayout {
    /// The spaces in order, margins and gaps included and marked virtual.
    fn collect_spaces(&self) -> (all: Vec<(FlexSpace, bool)>)
        ensures
            all@ == self.all_spaces(),
    {
        let n = self.flex_spaces.len();
        let mut all: Vec<(FlexSpace, bool)> = Vec::new();
        for i in 0..n
            invariant
                n == self.flex_spaces@.len(),
                all@ == self.spaces_upto(i as int),
        {
            let before = if i == 0 { self.margin_start } else { self.gap };
            if let Some(b) = before {
                all.push((b, true));
            }
            all.push((self.flex_spaces[i], false));
            if i == n - 1 {
                if let Some(e) = self.margin_end {
                    all.push((e, true));
                }
            }
            proof {
                let pre = self.spaces_upto(i as int) + match before {
                    Some(b) => seq![(b, true)],
                    None => seq![],
                } + seq![(self.flex_spaces@[i as int], false)];
                assert(self.spaces_upto(i + 1) == if i == self.flex_spaces@.len() - 1 {
                    pre + match self.margin_end {
                        Some(e) => seq![(e, true)],
                        None => seq![],
                    }
                } else {
                    pre
                });
                assert(all@ =~= self.spaces_upto(i + 1));
            }
        }
        all
    }
}

fn saturated_sum(all: &Vec<(FlexSpace, bool)>) -> (r: u16)
    ensures
        r == saturated_base_sum(all@),
{
    let mut sum: u16 = 0;
    for k in 0..all.len()
        invariant
            sum == saturated_base_sum(all@.take(k as int)),
    {
        assert(all@.take(k + 1).drop_last() =~= all@.take(k as int));
        sum = sum.saturating_add(all[k].0.base_size);
    }
    assert(all@.take(all@.len() as int) =~= all@);
    sum
}

fn initial_space(space: FlexSpace, is_virtual: bool, growing: bool) -> (r: SpaceSize)
    ensures
        r == initial_space_size(space, is_virtual, growing),
{
    let (flex_share, size_delta_max) = if growing {
        match space.growth {
            Some(g) => {
                let sanitized_max = if g.max_size >= space.base_size { g.max_size } else { space.base_size };
                (g.flex_share, sanitized_max - space.base_size)
            },
            None => (0, 0),
        }
    } else {
        match space.shrinkage {
            Some(sh) => {
                let sanitized_min = if sh.min_size <= space.base_size { sh.min_size } else { space.base_size };
                (sh.flex_share, space.base_size - sanitized_min)
            },
            None => (0, 0),
        }
    };
    SpaceSize { base_size: space.base_size, flex_share, size_delta_max, size_delta: 0, is_virtual }
}


/// The rounds, from the initial spaces on.
fn run_rounds(spaces: &mut Vec<SpaceSize>, delta: u16) -> (r: (u16, bool))
    requires
        within_limits(old(spaces)@),
        flex_sum_from(old(spaces)@, 0) <= usize::MAX,
    ensures
        (final(spaces)@, r.0 as int, r.1) == flex_rounds(old(spaces)@, delta as int, false),
        evolves(old(spaces)@, final(spaces)@),
        r.0 <= delta,
{
    let ghost init = spaces@;
    let mut rest = delta;
    let mut is_rest = false;
    let mut stuck = false;
    assert(evolves(init, spaces@));
    while rest > 0
        invariant_except_break
            flex_rounds(spaces@, rest as int, is_rest) == flex_rounds(init, delta as int, false),
            !stuck,
        invariant
            evolves(init, spaces@),
            within_limits(spaces@),
            flex_sum_from(spaces@, 0) <= flex_sum_from(init, 0),
            flex_sum_from(init, 0) <= usize::MAX,
            rest <= delta,
        ensures
            (spaces@, rest as int, stuck) == flex_rounds(init, delta as int, false),
        decreases rest, (if is_rest { 0int } else { 1int }),
    {
        let fsum = flex_sum(spaces);
        if fsum == 0 {
            stuck = true;
            break;
        }
        let ghost before = spaces@;
        proof {
            lemma_round(before, 0, rest as int, rest as int, fsum as int, is_rest);
        }
        let r2 = flex_round(spaces, rest, fsum, is_rest);
        proof {
            lemma_flex_sum_evolves(before, spaces@, 0);
            lemma_evolves_trans(init, before, spaces@);
        }
        is_rest = r2 == rest;
        rest = r2;
    }
    (rest, stuck)
}

impl FlexLayout {
    fn base_split(&self, area: Rect) -> (r: (Vec<Rect>, Option<LayoutOverflowError>))
        requires
            self.split_computable(area),
        ensures
            r.0@ == self.spec_split(area),
            r.1 == self.overflow(area),
    {
        let all = self.collect_spaces();
        let base_size_sum = saturated_sum(&all);
        let available_size = match self.direction {
            Direction::Horizontal => area.width,
            Direction::Vertical => area.height,
        };
        let mut overflow_error: Option<LayoutOverflowError> = None;
        let mut new_sizes: Vec<(u16, bool)> = Vec::new();
        if base_size_sum == available_size {
            for k in 0..all.len()
                invariant
                    all@ == self.all_spaces(),
                    new_sizes@ == Seq::new(k as nat, |i: int| (all@[i].0.base_size, all@[i].1)),
            {
                new_sizes.push((all[k].0.base_size, all[k].1));
                assert(new_sizes@ =~= Seq::new((k + 1) as nat, |i: int| (all@[i].0.base_size, all@[i].1)));
            }
        } else {
            let growing = base_size_sum < available_size;
            let delta = if growing { available_size - base_size_sum } else { base_size_sum - available_size };
            let mut spaces: Vec<SpaceSize> = Vec::new();
            for k in 0..all.len()
                invariant
                    all@ == self.all_spaces(),
                    growing == self.growing(area),
                    spaces@ == initial_sizes(all@, growing).take(k as int),
            {
                spaces.push(initial_space(all[k].0, all[k].1, growing));
                assert(spaces@ =~= initial_sizes(all@, growing).take(k + 1));
            }
            assert(spaces@ =~= initial_sizes(all@, growing));
            let (rest, stuck) = run_rounds(&mut spaces, delta);
            if stuck && !growing {
                overflow_error = Some(LayoutOverflowError {
                    min_size: available_size + rest,
                    actual_size: available_size,
                    direction: self.direction,
                });
            }
            for k in 0..spaces.len()
                invariant
                    growing == self.growing(area),
                    spaces@ == self.flex_outcome(area).0,
                    evolves(initial_sizes(all@, growing), spaces@),
                    all@ == self.all_spaces(),
                    new_sizes@ == Seq::new(
                        k as nat,
                        |i: int|
                            (
                                (if growing {
                                    spaces@[i].base_size + spaces@[i].size_delta
                                } else {
                                    spaces@[i].base_size - spaces@[i].size_delta
                                }) as u16,
                                spaces@[i].is_virtual,
                            ),
                    ),
            {
                let sp = spaces[k];
                proof {
                    assert(initial_sizes(all@, growing)[k as int] == initial_space_size(all@[k as int].0, all@[k as int].1, growing));
                }
                let size = if growing { sp.base_size + sp.size_delta } else { sp.base_size - sp.size_delta };
                new_sizes.push((size, sp.is_virtual));
                assert(new_sizes@ =~= Seq::new(
                    (k + 1) as nat,
                    |i: int|
                        (
                            (if growing {
                                spaces@[i].base_size + spaces@[i].size_delta
                            } else {
                                spaces@[i].base_size - spaces@[i].size_delta
                            }) as u16,
                            spaces@[i].is_virtual,
                        ),
                ));
            }
        }
        assert(new_sizes@ =~= self.final_sizes(area));
        let rects = place_all(&new_sizes, area, self.direction);
        (rects, overflow_error)
    }
}


proof fn lemma_prefix_monotone(sizes: Seq<(u16, bool)>, j: int, k: int)
    requires
        0 <= j <= k <= sizes.len(),
    ensures
        0 <= prefix_size(sizes, j) <= prefix_size(sizes, k),
    decreases k,
{
    if j < k {
        lemma_prefix_monotone(sizes, j, k - 1);
    } else if k > 0 {
        lemma_prefix_monotone(sizes, 0, k - 1);
    }
}

/// Places the spaces one after the other along the direction.
fn place_all(sizes: &Vec<(u16, bool)>, area: Rect, direction: Direction) -> (r: Vec<Rect>)
    requires
        prefix_size(sizes@, sizes@.len() as int) <= u16::MAX,
        forall|k: int| 0 <= k < sizes@.len() && !sizes@[k].1 ==> match direction {
            Direction::Horizontal => area.x + (if prefix_size(sizes@, k) < area.width {
                prefix_size(sizes@, k)
            } else {
                area.width as int
            }) <= u16::MAX,
            Direction::Vertical => area.y + (if prefix_size(sizes@, k) < area.height {
                prefix_size(sizes@, k)
            } else {
                area.height as int
            }) <= u16::MAX,
        },
    ensures
        r@ == placed(sizes@, sizes@.len() as int, area, direction),
{
    let mut rects: Vec<Rect> = Vec::new();
    let mut pos: u16 = 0;
    for k in 0..sizes.len()
        invariant
            prefix_size(sizes@, sizes@.len() as int) <= u16::MAX,
            forall|k: int| 0 <= k < sizes@.len() && !sizes@[k].1 ==> match direction {
                Direction::Horizontal => area.x + (if prefix_size(sizes@, k) < area.width {
                    prefix_size(sizes@, k)
                } else {
                    area.width as int
                }) <= u16::MAX,
                Direction::Vertical => area.y + (if prefix_size(sizes@, k) < area.height {
                    prefix_size(sizes@, k)
                } else {
                    area.height as int
                }) <= u16::MAX,
            },
            pos == prefix_size(sizes@, k as int),
            rects@ == placed(sizes@, k as int, area, direction),
    {
        proof {
            lemma_prefix_monotone(sizes@, k + 1, sizes@.len() as int);
            lemma_prefix_monotone(sizes@, k as int, k + 1);
        }
        let (size, is_virtual) = sizes[k];
        if !is_virtual {
            let rect = match direction {
                Direction::Horizontal => {
                    let d = if pos < area.width { pos } else { area.width };
                    let w = if size < area.width - d { size } else { area.width - d };
                    Rect { x: area.x + d, width: w, ..area }
                },
                Direction::Vertical => {
                    let d = if pos < area.height { pos } else { area.height };
                    let h = if size < area.height - d { size } else { area.height - d };
                    Rect { y: area.y + d, height: h, ..area }
                },
            };
            rects.push(rect);
        }
        pos = pos + size;
    }
    rects
}


impl FlexLayout {
    /// Splits the area, cutting off the spaces that do not fit.
    pub fn split(&self, area: Rect) -> (r: Vec<Rect>)
        requires
            self.split_computable(area),
        ensures
            r@ == self.spec_split(area),
    {
        self.base_split(area).0
    }

    /// Splits the area, or reports that the spaces cannot shrink enough to fit it: that happens
    /// exactly when both the ideal sizes and the smallest sizes add up to more than the room,
    /// and the error then gives the sum of the smallest sizes as the room needed.
    pub fn try_split(&self, area: Rect) -> (r: Result<Vec<Rect>, LayoutOverflowError>)
        requires
            self.split_computable(area),
        ensures
            match r {
                Ok(rects) => self.overflow(area) is None && rects@ == self.spec_split(area),
                Err(e) => self.overflow(area) == Some(e),
            },
            ({
                let all = self.all_spaces();
                let n = all.len() as int;
                let avail = self.available(area) as int;
                base_total(all, n) <= u16::MAX ==> {
                    &&& (r is Err) <==> (base_total(all, n) > avail && floor_total(all, n) > avail)
                    &&& r is Err ==> r == Err::<Vec<Rect>, LayoutOverflowError>(LayoutOverflowError {
                        min_size: floor_total(all, n) as u16,
                        actual_size: self.available(area),
                        direction: self.direction,
                    })
                }
            }),
    {
        proof {
            if base_total(self.all_spaces(), self.all_spaces().len() as int) <= u16::MAX {
                lemma_flex_overflow_exact(*self, area);
            }
        }
        match self.base_split(area) {
            (_, Some(err)) => Err(err),
            (result, None) => Ok(result),
        }
    }
}


/// The sum of how much the first `k` spaces grew or shrank.
pub open spec fn delta_total(sp: Seq<SpaceSize>, k: int) -> int
    decreases k,
{
    if k <= 0 { 0 } else { delta_total(sp, k - 1) + sp[k - 1].size_delta }
}

/// The sum of the ideal sizes of the first `k` spaces.
pub open spec fn base_total(all: Seq<(FlexSpace, bool)>, k: int) -> int
    decreases k,
{
    if k <= 0 { 0 } else { base_total(all, k - 1) + all[k - 1].0.base_size }
}

proof fn lemma_delta_total_update(sp: Seq<SpaceSize>, j: int, s: SpaceSize, k: int)
    requires
        0 <= j < sp.len(),
        0 <= k <= sp.len(),
    ensures
        delta_total(sp.update(j, s), k) == delta_total(sp, k) + (if j < k {
            s.size_delta - sp[j].size_delta
        } else {
            0
        }),
    decreases k,
{
    if k > 0 {
        lemma_delta_total_update(sp, j, s, k - 1);
    }
}

/// A round hands out exactly what it takes from what is left.
proof fn lemma_round_conserves(sp: Seq<SpaceSize>, j: int, rest: int, nr: int, fsum: int, is_rest: bool)
    requires
        0 <= j <= sp.len(),
        rest >= 0,
        fsum > 0,
        within_limits(sp),
    ensures
        round_from(sp, j, rest, nr, fsum, is_rest).0.len() == sp.len(),
        delta_total(round_from(sp, j, rest, nr, fsum, is_rest).0, sp.len() as int)
            + round_from(sp, j, rest, nr, fsum, is_rest).1 == delta_total(sp, sp.len() as int) + nr,
    decreases sp.len() - j,
{
    if j >= sp.len() || nr <= 0 {
    } else if resizable(sp[j]) {
        let a = step_amount(sp[j], rest, fsum, is_rest);
        let s1 = SpaceSize { size_delta: (sp[j].size_delta + a) as u16, ..sp[j] };
        let sp1 = sp.update(j, s1);
        lemma_delta_total_update(sp, j, s1, sp.len() as int);
        assert(0 <= a <= sp[j].size_delta_max - sp[j].size_delta) by (nonlinear_arith)
            requires
                a == step_amount(sp[j], rest, fsum, is_rest),
                rest >= 0,
                fsum > 0,
                sp[j].size_delta <= sp[j].size_delta_max;
        assert(within_limits(sp1));
        lemma_round_conserves(sp1, j + 1, rest, nr - a, fsum, is_rest);
    } else {
        lemma_round_conserves(sp, j + 1, rest, nr, fsum, is_rest);
    }
}


/// The rounds keep the spaces within their limits, hand out exactly what they take, and stop
/// either with nothing left, or stuck with something left and no space able to change.
proof fn lemma_flex_rounds(sp: Seq<SpaceSize>, rest: int, is_rest: bool)
    requires
        within_limits(sp),
        rest >= 0,
    ensures
        ({
            let (f, r, stuck) = flex_rounds(sp, rest, is_rest);
            &&& evolves(sp, f)
            &&& within_limits(f)
            &&& delta_total(f, f.len() as int) + r == delta_total(sp, sp.len() as int) + rest
            &&& 0 <= r <= rest
            &&& !stuck ==> r == 0
            &&& stuck ==> r > 0 && flex_sum_from(f, 0) == 0
        }),
    decreases rest, (if is_rest { 0int } else { 1int }),
{
    if rest <= 0 {
    } else if flex_sum_from(sp, 0) == 0 {
    } else {
        let fsum = flex_sum_from(sp, 0);
        lemma_flex_sum_nonneg(sp, 0);
        lemma_round(sp, 0, rest, rest, fsum, is_rest);
        lemma_round_conserves(sp, 0, rest, rest, fsum, is_rest);
        let (sp2, r2) = round_from(sp, 0, rest, rest, fsum, is_rest);
        lemma_flex_rounds(sp2, r2, r2 == rest);
        lemma_evolves_trans(sp, sp2, flex_rounds(sp2, r2, r2 == rest).0);
    }
}

proof fn lemma_final_sizes_total(lay: FlexLayout, area: Rect, k: int)
    requires
        lay.flex_delta(area) != 0,
        0 <= k <= lay.all_spaces().len(),
    ensures
        lay.final_sizes(area).len() == lay.all_spaces().len(),
        prefix_size(lay.final_sizes(area), k) == if lay.growing(area) {
            base_total(lay.all_spaces(), k) + delta_total(lay.flex_outcome(area).0, k)
        } else {
            base_total(lay.all_spaces(), k) - delta_total(lay.flex_outcome(area).0, k)
        },
    decreases k,
{
    let all = lay.all_spaces();
    let init = initial_sizes(all, lay.growing(area));
    lemma_flex_rounds(init, lay.flex_delta(area), false);
    let f = lay.flex_outcome(area).0;
    if k > 0 {
        lemma_final_sizes_total(lay, area, k - 1);
        assert(f[k - 1].base_size == init[k - 1].base_size);
        assert(init[k - 1] == initial_space_size(all[k - 1].0, all[k - 1].1, lay.growing(area)));
    }
}

proof fn lemma_saturated_sum(all: Seq<(FlexSpace, bool)>)
    requires
        base_total(all, all.len() as int) <= u16::MAX,
    ensures
        saturated_base_sum(all) == base_total(all, all.len() as int),
    decreases all.len(),
{
    if all.len() > 0 {
        let p = all.drop_last();
        assert forall|k: int| 0 <= k <= p.len() implies base_total(p, k) == base_total(all, k) by {
            lemma_base_total_prefix(all, p, k);
        }
        lemma_base_total_monotone(all, p.len() as int);
        lemma_saturated_sum(p);
    }
}

proof fn lemma_base_total_prefix(all: Seq<(FlexSpace, bool)>, p: Seq<(FlexSpace, bool)>, k: int)
    requires
        p.len() <= all.len(),
        0 <= k <= p.len(),
        forall|i: int| 0 <= i < p.len() ==> p[i] == all[i],
    ensures
        base_total(p, k) == base_total(all, k),
    decreases k,
{
    if k > 0 {
        lemma_base_total_prefix(all, p, k - 1);
    }
}

proof fn lemma_base_total_monotone(all: Seq<(FlexSpace, bool)>, k: int)
    requires
        0 <= k <= all.len(),
    ensures
        0 <= base_total(all, k) <= base_total(all, all.len() as int),
    decreases all.len() - k,
{
    if k < all.len() {
        lemma_base_total_monotone(all, k + 1);
    }
    if k > 0 {
        lemma_base_total_nonneg(all, k);
    }
}

proof fn lemma_base_total_nonneg(all: Seq<(FlexSpace, bool)>, k: int)
    ensures
        base_total(all, k) >= 0,
    decreases k,
{
    if k > 0 {
        lemma_base_total_nonneg(all, k - 1);
    }
}

/// A flex layout fills the room: unless its spaces get stuck, the sizes it gives add up to the
/// room along its direction. Spaces get stuck only when none of them can change any further,
/// and when that happens while shrinking, the error reports the room the spaces need.
pub proof fn lemma_flex_layout_fills(lay: FlexLayout, area: Rect)
    requires
        base_total(lay.all_spaces(), lay.all_spaces().len() as int) <= u16::MAX,
    ensures
        !(lay.flex_delta(area) != 0 && lay.flex_outcome(area).2) ==> prefix_size(
            lay.final_sizes(area),
            lay.final_sizes(area).len() as int,
        ) == lay.available(area),
        lay.flex_delta(area) != 0 && lay.flex_outcome(area).2 ==> flex_sum_from(lay.flex_outcome(area).0, 0) == 0,
        lay.flex_delta(area) != 0 && lay.flex_outcome(area).2 && !lay.growing(area) ==> lay.overflow(area)
            == Some(LayoutOverflowError {
                min_size: (lay.available(area) + lay.flex_outcome(area).1) as u16,
                actual_size: lay.available(area),
                direction: lay.direction,
            }),
{
    let all = lay.all_spaces();
    lemma_saturated_sum(all);
    if lay.flex_delta(area) == 0 {
        let sizes = lay.final_sizes(area);
        assert forall|k: int| 0 <= k <= all.len() implies prefix_size(sizes, k) == base_total(all, k) by {
            lemma_prefix_base(lay, area, k);
        }
    } else {
        let init = initial_sizes(all, lay.growing(area));
        assert forall|i: int| 0 <= i < init.len() implies (#[trigger] init[i]).size_delta <= init[i].size_delta_max by {}
        assert(delta_total(init, init.len() as int) == 0) by {
            lemma_delta_total_zero(init, init.len() as int);
        }
        lemma_flex_rounds(init, lay.flex_delta(area), false);
        lemma_final_sizes_total(lay, area, all.len() as int);
    }
}

proof fn lemma_prefix_base(lay: FlexLayout, area: Rect, k: int)
    requires
        lay.flex_delta(area) == 0,
        0 <= k <= lay.all_spaces().len(),
    ensures
        prefix_size(lay.final_sizes(area), k) == base_total(lay.all_spaces(), k),
    decreases k,
{
    if k > 0 {
        lemma_prefix_base(lay, area, k - 1);
    }
}

proof fn lemma_delta_total_zero(sp: Seq<SpaceSize>, k: int)
    requires
        0 <= k <= sp.len(),
        forall|i: int| 0 <= i < sp.len() ==> (#[trigger] sp[i]).size_delta == 0,
    ensures
        delta_total(sp, k) == 0,
    decreases k,
{
    if k > 0 {
        lemma_delta_total_zero(sp, k - 1);
    }
}

/// The smallest size a space can shrink to: its minimum size (at most its ideal size) when it
/// shrinks with a share, else its ideal size.
pub open spec fn floor_size(space: FlexSpace) -> int {
    match space.shrinkage {
        Some(sh) => if sh.flex_share > 0 { min_u16(sh.min_size, space.base_size) as int } else { space.base_size as int },
        None => space.base_size as int,
    }
}

/// The sum of the smallest sizes of the first `k` spaces.
pub open spec fn floor_total(all: Seq<(FlexSpace, bool)>, k: int) -> int
    decreases k,
{
    if k <= 0 { 0 } else { floor_total(all, k - 1) + floor_size(all[k - 1].0) }
}

/// The sum of how much the first `k` spaces may change, counting only spaces with a share.
pub open spec fn reach_total(sp: Seq<SpaceSize>, k: int) -> int
    decreases k,
{
    if k <= 0 { 0 } else { reach_total(sp, k - 1) + if sp[k - 1].flex_share > 0 { sp[k - 1].size_delta_max as int } else { 0 } }
}

/// Before shrinking, what the spaces may give up is their ideal sizes less their smallest sizes.
proof fn lemma_reach_initial(all: Seq<(FlexSpace, bool)>, k: int)
    requires
        0 <= k <= all.len(),
    ensures
        reach_total(initial_sizes(all, false), k) == base_total(all, k) - floor_total(all, k),
    decreases k,
{
    if k > 0 {
        lemma_reach_initial(all, k - 1);
    }
}

/// Spaces within their limits have changed by at most what they may, and by exactly that when
/// none can change any more.
proof fn lemma_delta_within_reach(sp: Seq<SpaceSize>, k: int)
    requires
        within_limits(sp),
        0 <= k <= sp.len(),
    ensures
        delta_total(sp, k) <= reach_total(sp, k),
        (forall|i: int| 0 <= i < sp.len() ==> !resizable(#[trigger] sp[i])) ==> delta_total(sp, k) == reach_total(sp, k),
    decreases k,
{
    if k > 0 {
        lemma_delta_within_reach(sp, k - 1);
        assert(sp[k - 1].size_delta <= sp[k - 1].size_delta_max);
    }
}

/// Where the resizable shares sum to nothing, no space is resizable.
proof fn lemma_no_share_left(sp: Seq<SpaceSize>, j: int)
    requires
        j >= 0,
        flex_sum_from(sp, j) == 0,
    ensures
        forall|i: int| j <= i < sp.len() ==> !resizable(#[trigger] sp[i]),
    decreases sp.len() - j,
{
    if j < sp.len() {
        lemma_flex_sum_nonneg(sp, j + 1);
        lemma_no_share_left(sp, j + 1);
    }
}

proof fn lemma_reach_evolves(sp: Seq<SpaceSize>, sp2: Seq<SpaceSize>, k: int)
    requires
        evolves(sp, sp2),
        0 <= k <= sp.len(),
    ensures
        reach_total(sp2, k) == reach_total(sp, k),
    decreases k,
{
    if k > 0 {
        lemma_reach_evolves(sp, sp2, k - 1);
        assert(sp2[k - 1].flex_share == sp[k - 1].flex_share);
    }
}

proof fn lemma_floor_below_base(all: Seq<(FlexSpace, bool)>, k: int)
    requires
        0 <= k <= all.len(),
    ensures
        0 <= floor_total(all, k) <= base_total(all, k),
    decreases k,
{
    if k > 0 {
        lemma_floor_below_base(all, k - 1);
    }
}

/// A flex layout reports an overflow exactly when its ideal sizes and its smallest sizes both
/// exceed the room along its direction; the error then gives the sum of the smallest sizes as
/// the room needed, and the room there was.
pub proof fn lemma_flex_overflow_exact(lay: FlexLayout, area: Rect)
    requires
        base_total(lay.all_spaces(), lay.all_spaces().len() as int) <= u16::MAX,
    ensures
        ({
            let all = lay.all_spaces();
            let n = all.len() as int;
            let avail = lay.available(area) as int;
            &&& (lay.overflow(area) is Some) <==> (base_total(all, n) > avail && floor_total(all, n) > avail)
            &&& lay.overflow(area) is Some ==> lay.overflow(area) == Some(LayoutOverflowError {
                min_size: floor_total(all, n) as u16,
                actual_size: lay.available(area),
                direction: lay.direction,
            })
        }),
{
    let all = lay.all_spaces();
    let n = all.len() as int;
    let avail = lay.available(area) as int;
    lemma_saturated_sum(all);
    lemma_floor_below_base(all, n);
    if lay.flex_delta(area) != 0 && !lay.growing(area) {
        let init = initial_sizes(all, false);
        assert forall|i: int| 0 <= i < init.len() implies (#[trigger] init[i]).size_delta <= init[i].size_delta_max
            && (init[i].flex_share == 0 ==> init[i].size_delta == 0) by {}
        assert(delta_total(init, init.len() as int) == 0) by {
            lemma_delta_total_zero(init, init.len() as int);
        }
        lemma_flex_rounds(init, lay.flex_delta(area), false);
        let (f, r, stuck) = lay.flex_outcome(area);
        lemma_reach_initial(all, n);
        lemma_reach_evolves(init, f, n);
        lemma_delta_within_reach(f, n);
        if stuck {
            lemma_no_share_left(f, 0);
        }
    }
}

} // verus!

