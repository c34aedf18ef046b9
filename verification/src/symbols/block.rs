//! Block symbols, from empty to full in eighths, filling from the left.
use vstd::prelude::*;

verus! {

pub const FULL: &'static str = "█";
pub const SEVEN_EIGHTHS: &'static str = "▉";
pub const THREE_QUARTERS: &'static str = "▊";
pub const FIVE_EIGHTHS: &'static str = "▋";
pub const HALF: &'static str = "▌";
pub const THREE_EIGHTHS: &'static str = "▍";
pub const ONE_QUARTER: &'static str = "▎";
pub const ONE_EIGHTH: &'static str = "▏";
pub const EMPTY: &'static str = " ";

/// The block symbols by level, from empty (0) to full (8).
#[allow(non_snake_case)]
pub fn MAP() -> (m: [&'static str; 9])
    ensures
        m@ == seq![EMPTY, ONE_EIGHTH, ONE_QUARTER, THREE_EIGHTHS, HALF, FIVE_EIGHTHS, THREE_QUARTERS, SEVEN_EIGHTHS, FULL],
{
    [EMPTY, ONE_EIGHTH, ONE_QUARTER, THREE_EIGHTHS, HALF, FIVE_EIGHTHS, THREE_QUARTERS, SEVEN_EIGHTHS, FULL]
}

/// The block symbol of a level counted in eighths: the level's symbol up to full, and empty past
/// it.
pub fn from_eighths(level: usize) -> (s: &'static str)
    ensures
        s == if level < 9 {
            seq![EMPTY, ONE_EIGHTH, ONE_QUARTER, THREE_EIGHTHS, HALF, FIVE_EIGHTHS, THREE_QUARTERS, SEVEN_EIGHTHS, FULL][level as int]
        } else {
            EMPTY
        },
{
    if level < 9 {
        let map = MAP();
        map[level]
    } else {
        EMPTY
    }
}

/// Nine block symbols, by level from empty (0) to full (8).
#[derive(Debug, Clone, Copy)]
pub struct BlockSet(pub [&'static str; 9]);

/// A set that has three distinct levels: empty, half and full.
#[allow(non_snake_case)]
pub fn THREE_LEVELS() -> (s: BlockSet)
    ensures
        s.0@ == seq![EMPTY, EMPTY, HALF, HALF, HALF, HALF, HALF, FULL, FULL],
{
    BlockSet([EMPTY, EMPTY, HALF, HALF, HALF, HALF, HALF, FULL, FULL])
}

/// A set with a distinct symbol for each eighth.
#[allow(non_snake_case)]
pub fn NINE_LEVELS() -> (s: BlockSet)
    ensures
        s.0@ == seq![EMPTY, ONE_EIGHTH, ONE_QUARTER, THREE_EIGHTHS, HALF, FIVE_EIGHTHS, THREE_QUARTERS, SEVEN_EIGHTHS, FULL],
{
    BlockSet([EMPTY, ONE_EIGHTH, ONE_QUARTER, THREE_EIGHTHS, HALF, FIVE_EIGHTHS, THREE_QUARTERS, SEVEN_EIGHTHS, FULL])
}

} // verus!
