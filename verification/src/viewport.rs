//! Where the terminal draws: the whole screen, a few rows under the cursor, or a fixed area; and
//! how that area moves when the screen is resized or lines are inserted above it.
use vstd::prelude::*;

use crate::layout::Rect;

verus! {

/// The part of the terminal that is drawn to.
#[derive(Debug, Clone, Copy, PartialEq, Eq, Structural)]
pub enum ViewportVariant {
    Fullscreen,
    Inline(u16),
    Fixed(Rect),
}

/// Options to pass when a terminal is made.
#[derive(Debug, Clone, Copy, PartialEq, Eq, Structural)]
pub struct TerminalOptions {
    /// Viewport used to draw to the terminal
    pub viewport: ViewportVariant,
}

pub open spec fn sat_sub(a: int, b: int) -> int {
    if a > b { a - b } else { 0 }
}

pub open spec fn sat_add_u16(a: int, b: int) -> int {
    if a + b > u16::MAX { u16::MAX as int } else { a + b }
}

/// Where a new terminal draws, and where it takes the cursor to be, given the screen's size and,
/// for an inline viewport, the cursor's position; and how many lines it first appends to make
/// room for an inline viewport.
pub open spec fn spec_initial_viewport(variant: ViewportVariant, size: Rect, cursor: (u16, u16)) -> (Rect, (u16, u16), u16) {
    match variant {
        ViewportVariant::Fullscreen => (size, (0, 0), 0),
        ViewportVariant::Inline(height) => {
            let max_height = if size.height < height { size.height } else { height };
            let missing = sat_sub(sat_add_u16(cursor.1 as int, max_height as int), size.height as int);
            let row = if missing > 0 { sat_sub(cursor.1 as int, missing) } else { cursor.1 as int };
            (
                Rect { x: 0, y: row as u16, width: size.width, height: max_height },
                cursor,
                sat_sub(max_height as int, 1) as u16,
            )
        },
        ViewportVariant::Fixed(area) => (area, (area.x, area.y), 0),
    }
}

/// The first viewport of a terminal: its area, the cursor position it starts from, and the lines
/// to append first. An inline viewport is as high as asked for, at most the screen's height, and
/// starts on the cursor's row, moved up if the screen has not enough rows below it.
pub fn initial_viewport(variant: ViewportVariant, size: Rect, cursor: (u16, u16)) -> (r: (Rect, (u16, u16), u16))
    ensures r == spec_initial_viewport(variant, size, cursor),
{
    match variant {
        ViewportVariant::Fullscreen => (size, (0, 0), 0),
        ViewportVariant::Inline(height) => {
            let mut row = cursor.1;
            let max_height = if size.height < height { size.height } else { height };
            let missing_lines = row.saturating_add(max_height).saturating_sub(size.height);
            if missing_lines > 0 {
                row = row.saturating_sub(missing_lines);
            }
            (Rect { x: 0, y: row, width: size.width, height: max_height }, cursor, max_height.saturating_sub(1))
        },
        ViewportVariant::Fixed(area) => (area, (area.left(), area.top()), 0),
    }
}

/// Where an inline viewport goes when the screen is resized to `size`, given the cursor's row
/// now and its row when last known, and how many lines are appended first: the rows of the
/// viewport after the cursor are kept below it, the viewport moving up when the screen lacks
/// them.
pub open spec fn spec_resized_inline(height: u16, size: Rect, row: u16, last_row: u16, area: Rect) -> (Rect, u16) {
    let offset = sat_sub(last_row as int, area.y as int);
    let max_height = if height < size.height { height } else { size.height };
    let lines_after_cursor = sat_sub(sat_sub(height as int, offset), 1);
    let available_lines = sat_sub(sat_sub(size.height as int, row as int), 1);
    let missing = sat_sub(lines_after_cursor, available_lines);
    let row1 = if missing > 0 { sat_sub(row as int, missing) } else { row as int };
    let row2 = sat_sub(row1, offset);
    (Rect { x: 0, y: row2 as u16, width: size.width, height: max_height }, lines_after_cursor as u16)
}

/// The area of the viewport after the screen is resized to `size`: the whole screen, the moved
/// inline area, or the fixed area; with the lines to append first.
pub fn resized_viewport(variant: ViewportVariant, size: Rect, row: u16, last_row: u16, area: Rect) -> (r: (Rect, u16))
    ensures
        r == match variant {
            ViewportVariant::Fullscreen => (size, 0u16),
            ViewportVariant::Inline(height) => spec_resized_inline(height, size, row, last_row, area),
            ViewportVariant::Fixed(fixed) => (fixed, 0u16),
        },
{
    match variant {
        ViewportVariant::Fullscreen => (size, 0),
        ViewportVariant::Inline(height) => {
            let mut row = row;
            let offset_in_previous_viewport = last_row.saturating_sub(area.top());
            let max_height = if height < size.height { height } else { size.height };
            let lines_after_cursor = height.saturating_sub(offset_in_previous_viewport).saturating_sub(1);
            let available_lines = size.height.saturating_sub(row).saturating_sub(1);
            let missing_lines = lines_after_cursor.saturating_sub(available_lines);
            if missing_lines > 0 {
                row = row.saturating_sub(missing_lines);
            }
            row = row.saturating_sub(offset_in_previous_viewport);
            (Rect { x: 0, y: row, width: size.width, height: max_height }, lines_after_cursor)
        },
        ViewportVariant::Fixed(fixed) => (fixed, 0),
    }
}

/// Where `height` lines inserted above an inline viewport on a screen of size `size` are drawn,
/// and how many lines are appended for them: at most the screen's height of lines, on the rows
/// just above the viewport, moved up as far as the screen lacks rows below the viewport. None
/// where the viewport starts below the screen.
pub open spec fn spec_inserted_area(height: u16, size: Rect, viewport: Rect) -> Option<(Rect, u16)> {
    if viewport.y > size.spec_bottom() {
        None
    } else {
        let h = if height < size.height { height } else { size.height };
        let missing = sat_sub(h as int, size.spec_bottom() - viewport.y);
        Some((Rect { x: viewport.x, y: sat_sub(viewport.y as int, missing) as u16, width: viewport.width, height: h }, h))
    }
}

/// The area the inserted lines are drawn to, and the lines to append before drawing them.
pub fn inserted_area(height: u16, size: Rect, viewport: Rect) -> (r: Option<(Rect, u16)>)
    ensures
        r == spec_inserted_area(height, size, viewport),
{
    if viewport.top() > size.bottom() {
        return None;
    }
    let height = if height < size.height { height } else { size.height };
    let missing_lines = height.saturating_sub(size.bottom() - viewport.top());
    let area = Rect {
        x: viewport.left(),
        y: viewport.top().saturating_sub(missing_lines),
        width: viewport.width,
        height,
    };
    Some((area, height))
}

/// Where the viewport goes once lines were drawn on `area`: right below them, moved up as far as
/// the screen lacks rows for it, as high and wide as before. None where the lines end below the
/// screen's height.
pub open spec fn spec_viewport_after_insert(size: Rect, area: Rect, viewport_height: u16) -> Option<Rect> {
    if size.height < area.spec_bottom() {
        None
    } else {
        let remaining = size.height - area.spec_bottom();
        let missing_after = sat_sub(viewport_height as int, remaining);
        Some(Rect {
            x: area.x,
            y: sat_sub(area.spec_bottom() as int, missing_after) as u16,
            width: area.width,
            height: viewport_height,
        })
    }
}

/// The viewport's area after lines were inserted above it on `area`.
pub fn viewport_after_insert(size: Rect, area: Rect, viewport_height: u16) -> (r: Option<Rect>)
    ensures
        r == spec_viewport_after_insert(size, area, viewport_height),
{
    if size.height < area.bottom() {
        return None;
    }
    let remaining_lines = size.height - area.bottom();
    let missing_lines = viewport_height.saturating_sub(remaining_lines);
    Some(Rect {
        x: area.left(),
        y: area.bottom().saturating_sub(missing_lines),
        width: area.width,
        height: viewport_height,
    })
}

/// Lines inserted above an inline viewport that starts on the screen are drawn within the
/// screen, and the viewport that follows them stays within the screen's rows whenever it is no
/// higher than the screen.
pub proof fn lemma_insert_before_stays_on_screen(height: u16, size: Rect, viewport: Rect)
    requires
        viewport.y <= size.spec_bottom(),
    ensures
        spec_inserted_area(height, size, viewport) is Some,
        ({
            let (area, lines) = spec_inserted_area(height, size, viewport)->0;
            &&& area.y + area.height <= size.spec_bottom()
            &&& (viewport.height <= size.height && area.spec_bottom() <= size.height) ==> {
                &&& spec_viewport_after_insert(size, area, viewport.height) is Some
                &&& spec_viewport_after_insert(size, area, viewport.height)->0.y + viewport.height <= size.height
            }
        }),
{
}

/// A new inline viewport lies within the screen's rows, and keeps the cursor's row when there is
/// room below it.
pub proof fn lemma_inline_viewport_fits(height: u16, size: Rect, cursor: (u16, u16))
    requires
        cursor.1 + height <= u16::MAX,
    ensures
        ({
            let (area, _, _) = spec_initial_viewport(ViewportVariant::Inline(height), size, cursor);
            &&& area.y + area.height <= size.height
            &&& cursor.1 + area.height <= size.height ==> area.y == cursor.1
        }),
{
}

} // verus!
