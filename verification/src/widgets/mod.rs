//! The widgets: builders that hold what to draw and draw it into a buffer, with the state some of
//! them keep between two draws.
use vstd::prelude::*;

verus! {

/// The visible borders of a block, as bits of a `u32` that compose with `union`.
#[derive(Debug, Clone, Copy, PartialEq, Eq, Structural, Hash)]
pub struct Borders {
    pub bits: u32,
}

#[allow(non_snake_case)]
impl Borders {
    /// Show no border (the default). It is a bit of its own, not the empty set.
    pub fn NONE() -> (b: Borders)
        ensures b.bits == 1,
    {
        Borders { bits: 0b0000_0001 }
    }

    /// Show the top border.
    pub fn TOP() -> (b: Borders)
        ensures b.bits == 2,
    {
        Borders { bits: 0b0000_0010 }
    }

    /// Show the right border.
    pub fn RIGHT() -> (b: Borders)
        ensures b.bits == 4,
    {
        Borders { bits: 0b0000_0100 }
    }

    /// Show the bottom border.
    pub fn BOTTOM() -> (b: Borders)
        ensures b.bits == 8,
    {
        Borders { bits: 0b0000_1000 }
    }

    /// Show the left border.
    pub fn LEFT() -> (b: Borders)
        ensures b.bits == 16,
    {
        Borders { bits: 0b0001_0000 }
    }

    /// Show all borders: top, right, bottom and left.
    pub fn ALL() -> (b: Borders)
        ensures b.bits == 30,
    {
        Borders { bits: 0b0001_1110 }
    }
}

impl Borders {
    pub open spec fn spec_intersects(self, other: Borders) -> bool {
        self.bits & other.bits != 0
    }

    pub open spec fn spec_contains(self, other: Borders) -> bool {
        self.bits & other.bits == other.bits
    }

    /// Whether a border of `other` is also in `self`.
    pub fn intersects(&self, other: Borders) -> (r: bool)
        ensures r == self.spec_intersects(other),
    {
        self.bits & other.bits != 0
    }

    /// Whether every border of `other` is in `self`.
    pub fn contains(&self, other: Borders) -> (r: bool)
        ensures r == self.spec_contains(other),
    {
        self.bits & other.bits == other.bits
    }

    /// The borders of both.
    pub fn union(self, other: Borders) -> (b: Borders)
        ensures b.bits == self.bits | other.bits,
    {
        Borders { bits: self.bits | other.bits }
    }

    /// The bits of the set.
    pub fn bits(&self) -> (b: u32)
        ensures b == self.bits,
    {
        self.bits
    }
}

/// `a | b` holds every bit of `a` and of `b`, and no other.
pub proof fn lemma_borders_union(a: Borders, b: Borders, c: Borders)
    ensures
        (Borders { bits: a.bits | b.bits }).spec_contains(a),
        (Borders { bits: a.bits | b.bits }).spec_contains(b),
        c.spec_contains(a) && c.spec_contains(b) ==> c.spec_contains(Borders { bits: a.bits | b.bits }),
{
    let (x, y, z) = (a.bits, b.bits, c.bits);
    assert((x | y) & x == x) by (bit_vector);
    assert((x | y) & y == y) by (bit_vector);
    assert((z & x == x && z & y == y) ==> z & (x | y) == (x | y)) by (bit_vector);
}

} // verus!

pub mod block;
pub mod clear;
pub mod interactive;
pub mod text_input;
pub mod window;
pub mod list;
pub mod multi_list;
pub mod seven_segment;
pub mod bars;
pub mod sparkline;
pub mod barchart;
pub mod histogram;
pub mod tabs;
pub mod text;
pub mod ansi;
pub mod chart;
pub mod gauge;
pub mod canvas;
pub mod table;
