//! The shapes a canvas draws that hold no coordinates: the world map and its resolution.
use vstd::prelude::*;

use crate::style::Color;

verus! {

/// How detailed a world map is.
#[derive(Debug, Clone, Copy, PartialEq, Eq, Structural)]
pub enum MapResolution {
    Low,
    High,
}

impl Default for MapResolution {
    fn default() -> (r: MapResolution)
        ensures r == MapResolution::Low,
    {
        MapResolution::Low
    }
}

/// Shape to draw a world map with the given resolution and color
#[derive(Debug, Clone, Copy, PartialEq, Eq, Structural)]
pub struct WorldMap {
    pub resolution: MapResolution,
    pub color: Color,
}

impl Default for WorldMap {
    fn default() -> (m: WorldMap)
        ensures m == (WorldMap { resolution: MapResolution::Low, color: Color::Reset }),
    {
        WorldMap { resolution: MapResolution::Low, color: Color::Reset }
    }
}

} // verus!
