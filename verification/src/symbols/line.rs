//! Box-drawing line symbols, plain, rounded, double and thick.
use vstd::prelude::*;

verus! {

pub const VERTICAL: &'static str = "│";
pub const DOUBLE_VERTICAL: &'static str = "║";
pub const THICK_VERTICAL: &'static str = "┃";
pub const HORIZONTAL: &'static str = "─";
pub const DOUBLE_HORIZONTAL: &'static str = "═";
pub const THICK_HORIZONTAL: &'static str = "━";
pub const TOP_RIGHT: &'static str = "┐";
pub const ROUNDED_TOP_RIGHT: &'static str = "╮";
pub const DOUBLE_TOP_RIGHT: &'static str = "╗";
pub const THICK_TOP_RIGHT: &'static str = "┓";
pub const TOP_LEFT: &'static str = "┌";
pub const ROUNDED_TOP_LEFT: &'static str = "╭";
pub const DOUBLE_TOP_LEFT: &'static str = "╔";
pub const THICK_TOP_LEFT: &'static str = "┏";
pub const BOTTOM_RIGHT: &'static str = "┘";
pub const ROUNDED_BOTTOM_RIGHT: &'static str = "╯";
pub const DOUBLE_BOTTOM_RIGHT: &'static str = "╝";
pub const THICK_BOTTOM_RIGHT: &'static str = "┛";
pub const BOTTOM_LEFT: &'static str = "└";
pub const ROUNDED_BOTTOM_LEFT: &'static str = "╰";
pub const DOUBLE_BOTTOM_LEFT: &'static str = "╚";
pub const THICK_BOTTOM_LEFT: &'static str = "┗";
pub const VERTICAL_LEFT: &'static str = "┤";
pub const DOUBLE_VERTICAL_LEFT: &'static str = "╣";
pub const THICK_VERTICAL_LEFT: &'static str = "┫";
pub const VERTICAL_RIGHT: &'static str = "├";
pub const DOUBLE_VERTICAL_RIGHT: &'static str = "╠";
pub const THICK_VERTICAL_RIGHT: &'static str = "┣";
pub const HORIZONTAL_DOWN: &'static str = "┬";
pub const DOUBLE_HORIZONTAL_DOWN: &'static str = "╦";
pub const THICK_HORIZONTAL_DOWN: &'static str = "┳";
pub const HORIZONTAL_UP: &'static str = "┴";
pub const DOUBLE_HORIZONTAL_UP: &'static str = "╩";
pub const THICK_HORIZONTAL_UP: &'static str = "┻";
pub const CROSS: &'static str = "┼";
pub const DOUBLE_CROSS: &'static str = "╬";
pub const THICK_CROSS: &'static str = "╋";

/// The symbols that draw the lines and corners of a box.
#[derive(Clone, Copy, Debug)]
pub struct LineSet {
    pub vertical: &'static str,
    pub horizontal: &'static str,
    pub top_right: &'static str,
    pub top_left: &'static str,
    pub bottom_right: &'static str,
    pub bottom_left: &'static str,
    pub vertical_left: &'static str,
    pub vertical_right: &'static str,
    pub horizontal_down: &'static str,
    pub horizontal_up: &'static str,
    pub cross: &'static str,
}

impl Default for LineSet {
    fn default() -> (s: LineSet)
        ensures
            s == normal_set(),
    {
        NORMAL()
    }
}

/// The set of plain lines.
pub open spec fn normal_set() -> LineSet {
    LineSet {
        vertical: VERTICAL,
        horizontal: HORIZONTAL,
        top_right: TOP_RIGHT,
        top_left: TOP_LEFT,
        bottom_right: BOTTOM_RIGHT,
        bottom_left: BOTTOM_LEFT,
        vertical_left: VERTICAL_LEFT,
        vertical_right: VERTICAL_RIGHT,
        horizontal_down: HORIZONTAL_DOWN,
        horizontal_up: HORIZONTAL_UP,
        cross: CROSS,
    }
}

/// The set of plain lines with rounded corners.
pub open spec fn rounded_set() -> LineSet {
    LineSet {
        vertical: VERTICAL,
        horizontal: HORIZONTAL,
        top_right: ROUNDED_TOP_RIGHT,
        top_left: ROUNDED_TOP_LEFT,
        bottom_right: ROUNDED_BOTTOM_RIGHT,
        bottom_left: ROUNDED_BOTTOM_LEFT,
        vertical_left: VERTICAL_LEFT,
        vertical_right: VERTICAL_RIGHT,
        horizontal_down: HORIZONTAL_DOWN,
        horizontal_up: HORIZONTAL_UP,
        cross: CROSS,
    }
}

/// The set of double lines.
pub open spec fn double_set() -> LineSet {
    LineSet {
        vertical: DOUBLE_VERTICAL,
        horizontal: DOUBLE_HORIZONTAL,
        top_right: DOUBLE_TOP_RIGHT,
        top_left: DOUBLE_TOP_LEFT,
        bottom_right: DOUBLE_BOTTOM_RIGHT,
        bottom_left: DOUBLE_BOTTOM_LEFT,
        vertical_left: DOUBLE_VERTICAL_LEFT,
        vertical_right: DOUBLE_VERTICAL_RIGHT,
        horizontal_down: DOUBLE_HORIZONTAL_DOWN,
        horizontal_up: DOUBLE_HORIZONTAL_UP,
        cross: DOUBLE_CROSS,
    }
}

/// The set of thick lines.
pub open spec fn thick_set() -> LineSet {
    LineSet {
        vertical: THICK_VERTICAL,
        horizontal: THICK_HORIZONTAL,
        top_right: THICK_TOP_RIGHT,
        top_left: THICK_TOP_LEFT,
        bottom_right: THICK_BOTTOM_RIGHT,
        bottom_left: THICK_BOTTOM_LEFT,
        vertical_left: THICK_VERTICAL_LEFT,
        vertical_right: THICK_VERTICAL_RIGHT,
        horizontal_down: THICK_HORIZONTAL_DOWN,
        horizontal_up: THICK_HORIZONTAL_UP,
        cross: THICK_CROSS,
    }
}

/// Plain lines.
#[allow(non_snake_case)]
pub fn NORMAL() -> (s: LineSet)
    ensures
        s == normal_set(),
{
    LineSet {
        vertical: VERTICAL,
        horizontal: HORIZONTAL,
        top_right: TOP_RIGHT,
        top_left: TOP_LEFT,
        bottom_right: BOTTOM_RIGHT,
        bottom_left: BOTTOM_LEFT,
        vertical_left: VERTICAL_LEFT,
        vertical_right: VERTICAL_RIGHT,
        horizontal_down: HORIZONTAL_DOWN,
        horizontal_up: HORIZONTAL_UP,
        cross: CROSS,
    }
}

/// Plain lines with rounded corners.
#[allow(non_snake_case)]
pub fn ROUNDED() -> (s: LineSet)
    ensures
        s == rounded_set(),
{
    LineSet {
        vertical: VERTICAL,
        horizontal: HORIZONTAL,
        top_right: ROUNDED_TOP_RIGHT,
        top_left: ROUNDED_TOP_LEFT,
        bottom_right: ROUNDED_BOTTOM_RIGHT,
        bottom_left: ROUNDED_BOTTOM_LEFT,
        vertical_left: VERTICAL_LEFT,
        vertical_right: VERTICAL_RIGHT,
        horizontal_down: HORIZONTAL_DOWN,
        horizontal_up: HORIZONTAL_UP,
        cross: CROSS,
    }
}

/// Double lines.
#[allow(non_snake_case)]
pub fn DOUBLE() -> (s: LineSet)
    ensures
        s == double_set(),
{
    LineSet {
        vertical: DOUBLE_VERTICAL,
        horizontal: DOUBLE_HORIZONTAL,
        top_right: DOUBLE_TOP_RIGHT,
        top_left: DOUBLE_TOP_LEFT,
        bottom_right: DOUBLE_BOTTOM_RIGHT,
        bottom_left: DOUBLE_BOTTOM_LEFT,
        vertical_left: DOUBLE_VERTICAL_LEFT,
        vertical_right: DOUBLE_VERTICAL_RIGHT,
        horizontal_down: DOUBLE_HORIZONTAL_DOWN,
        horizontal_up: DOUBLE_HORIZONTAL_UP,
        cross: DOUBLE_CROSS,
    }
}

/// Thick lines.
#[allow(non_snake_case)]
pub fn THICK() -> (s: LineSet)
    ensures
        s == thick_set(),
{
    LineSet {
        vertical: THICK_VERTICAL,
        horizontal: THICK_HORIZONTAL,
        top_right: THICK_TOP_RIGHT,
        top_left: THICK_TOP_LEFT,
        bottom_right: THICK_BOTTOM_RIGHT,
        bottom_left: THICK_BOTTOM_LEFT,
        vertical_left: THICK_VERTICAL_LEFT,
        vertical_right: THICK_VERTICAL_RIGHT,
        horizontal_down: THICK_HORIZONTAL_DOWN,
        horizontal_up: THICK_HORIZONTAL_UP,
        cross: THICK_CROSS,
    }
}

} // verus!
