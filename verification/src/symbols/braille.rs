//! Braille patterns: a blank pattern and the bit of each of the eight dots.
use vstd::prelude::*;

verus! {

pub const BLANK: u16 = 0x2800;

/// The bit of each dot, by row (0 to 3) and column (0 or 1).
#[allow(non_snake_case)]
pub fn DOTS() -> (d: [[u16; 2]; 4])
    ensures
        d@[0]@ == seq![0x0001u16, 0x0008u16],
        d@[1]@ == seq![0x0002u16, 0x0010u16],
        d@[2]@ == seq![0x0004u16, 0x0020u16],
        d@[3]@ == seq![0x0040u16, 0x0080u16],
{
    [[0x0001, 0x0008], [0x0002, 0x0010], [0x0004, 0x0020], [0x0040, 0x0080]]
}

} // verus!
