//! Bar symbols, from empty to full in eighths, filling from the bottom.
use vstd::prelude::*;

verus! {

pub const FULL: &'static str = "█";
pub const SEVEN_EIGHTHS: &'static str = "▇";
pub const THREE_QUARTERS: &'static str = "▆";
pub const FIVE_EIGHTHS: &'static str = "▅";
pub const HALF: &'static str = "▄";
pub const THREE_EIGHTHS: &'static str = "▃";
pub const ONE_QUARTER: &'static str = "▂";
pub const ONE_EIGHTH: &'static str = "▁";
pub const EMPTY: &'static str = " ";

/// Nine bar symbols, by level from empty (0) to full (8).
#[derive(Debug, Clone, Copy)]
pub struct BarSet(pub [&'static str; 9]);

impl BarSet {
    /// The symbol of a level; every level from 8 on is full.
    pub fn symbol(&self, level: usize) -> (s: &'static str)
        ensures
            s == self.0@[if level < 8 { level as int } else { 8 }],
    {
        if level < 8 {
            self.0[level]
        } else {
            self.0[8]
        }
    }
}

impl Default for BarSet {
    fn default() -> (s: BarSet)
        ensures
            s.0@ == nine_levels(),
    {
        NINE_LEVELS()
    }
}

/// The symbols of the nine levels, one for each eighth.
pub open spec fn nine_levels() -> Seq<&'static str> {
    seq![EMPTY, ONE_EIGHTH, ONE_QUARTER, THREE_EIGHTHS, HALF, FIVE_EIGHTHS, THREE_QUARTERS, SEVEN_EIGHTHS, FULL]
}

/// A set that has three distinct levels: empty, half and full.
#[allow(non_snake_case)]
pub fn THREE_LEVELS() -> (s: BarSet)
    ensures
        s.0@ == seq![EMPTY, EMPTY, HALF, HALF, HALF, HALF, HALF, FULL, FULL],
{
    BarSet([EMPTY, EMPTY, HALF, HALF, HALF, HALF, HALF, FULL, FULL])
}

/// A set with a distinct symbol for each eighth.
#[allow(non_snake_case)]
pub fn NINE_LEVELS() -> (s: BarSet)
    ensures
        s.0@ == nine_levels(),
{
    BarSet([EMPTY, ONE_EIGHTH, ONE_QUARTER, THREE_EIGHTHS, HALF, FIVE_EIGHTHS, THREE_QUARTERS, SEVEN_EIGHTHS, FULL])
}

} // verus!
