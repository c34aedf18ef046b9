//! The symbols that widgets draw with: blocks, bars, lines, dots and braille patterns.
use vstd::prelude::*;

verus! {

pub const DOT: &'static str = "•";

/// Marker to use when plotting data points.
#[derive(Debug, Clone, Copy, PartialEq, Eq, Structural)]
pub enum Marker {
    /// One point per cell in shape of dot
    Dot,
    /// One point per cell in shape of a block
    Block,
    /// Up to 8 points per cell
    Braille,
}

impl Default for Marker {
    fn default() -> (m: Marker)
        ensures
            m == Marker::Dot,
    {
        Marker::Dot
    }
}

} // verus!

pub mod block;
pub mod bar;
pub mod line;
pub mod braille;
