//! The clear widget: resets every cell of an area, to draw over it from scratch (popups).
use vstd::prelude::*;

use crate::buffer::{blank_cell, fill_region, filled_cells, region_in, Buffer};
use crate::layout::Rect;
use crate::style::Style;

verus! {

/// A widget to clear/reset a certain area to allow overdrawing (e.g. for popups).
#[derive(Debug, Clone)]
pub struct Clear;

impl Clear {
    /// Resets every cell of `area` to a blank cell.
    pub fn render(self, area: Rect, buf: &mut Buffer)
        requires
            old(buf).wf(),
            region_in(*old(buf), area),
        ensures
            final(buf).wf(),
            final(buf).area == old(buf).area,
            final(buf).cells() == filled_cells(old(buf).area, old(buf).cells(), area, blank_cell().0, blank_cell().1),
    {
        let blank = " ";
        proof {
            reveal_strlit(" ");
            assert(blank@ =~= blank_cell().0);
        }
        fill_region(buf, area, blank, Style::new());
    }
}

} // verus!
