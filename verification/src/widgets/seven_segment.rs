//! A seven-segment display: digits drawn with box lines on three rows, with separators.
use vstd::prelude::*;
use vstd::string::*;

use crate::buffer::{blank_cell, cells_view, char_string, region_in, row_written, write_cells, Buffer, Cell};
use crate::layout::Rect;
use crate::style::{default_style, Style};

verus! {

/// The three rows of four characters that draw digit `d`.
pub open spec fn digit_glyph(d: int) -> (Seq<char>, Seq<char>, Seq<char>) {
    if d == 0 {
        (seq!['┌', '─', '─', '┐'], seq!['│', ' ', ' ', '│'], seq!['└', '─', '─', '┘'])
    } else if d == 1 {
        (seq![' ', ' ', ' ', '╷'], seq![' ', ' ', ' ', '│'], seq![' ', ' ', ' ', '╵'])
    } else if d == 2 {
        (seq!['╶', '─', '─', '┐'], seq!['┌', '─', '─', '┘'], seq!['└', '─', '─', '╴'])
    } else if d == 3 {
        (seq!['╶', '─', '─', '┐'], seq![' ', '─', '─', '┤'], seq!['╶', '─', '─', '┘'])
    } else if d == 4 {
        (seq!['╷', ' ', ' ', '╷'], seq!['└', '─', '─', '┤'], seq![' ', ' ', ' ', '╵'])
    } else if d == 5 {
        (seq!['┌', '─', '─', '╴'], seq!['└', '─', '─', '┐'], seq!['╶', '─', '─', '┘'])
    } else if d == 6 {
        (seq!['┌', '─', '─', '╴'], seq!['├', '─', '─', '┐'], seq!['└', '─', '─', '┘'])
    } else if d == 7 {
        (seq!['╶', '─', '─', '┐'], seq![' ', ' ', ' ', '│'], seq![' ', ' ', ' ', '╵'])
    } else if d == 8 {
        (seq!['┌', '─', '─', '┐'], seq!['├', '─', '─', '┤'], seq!['└', '─', '─', '┘'])
    } else {
        (seq!['┌', '─', '─', '┐'], seq!['└', '─', '─', '┤'], seq!['╶', '─', '─', '┘'])
    }
}

fn digit_rows(d: u32) -> (r: ([char; 4], [char; 4], [char; 4]))
    requires d < 10,
    ensures
        r.0@ == digit_glyph(d as int).0,
        r.1@ == digit_glyph(d as int).1,
        r.2@ == digit_glyph(d as int).2,
{
    let r = if d == 0 {
        (['┌', '─', '─', '┐'], ['│', ' ', ' ', '│'], ['└', '─', '─', '┘'])
    } else if d == 1 {
        ([' ', ' ', ' ', '╷'], [' ', ' ', ' ', '│'], [' ', ' ', ' ', '╵'])
    } else if d == 2 {
        (['╶', '─', '─', '┐'], ['┌', '─', '─', '┘'], ['└', '─', '─', '╴'])
    } else if d == 3 {
        (['╶', '─', '─', '┐'], [' ', '─', '─', '┤'], ['╶', '─', '─', '┘'])
    } else if d == 4 {
        (['╷', ' ', ' ', '╷'], ['└', '─', '─', '┤'], [' ', ' ', ' ', '╵'])
    } else if d == 5 {
        (['┌', '─', '─', '╴'], ['└', '─', '─', '┐'], ['╶', '─', '─', '┘'])
    } else if d == 6 {
        (['┌', '─', '─', '╴'], ['├', '─', '─', '┐'], ['└', '─', '─', '┘'])
    } else if d == 7 {
        (['╶', '─', '─', '┐'], [' ', ' ', ' ', '│'], [' ', ' ', ' ', '╵'])
    } else if d == 8 {
        (['┌', '─', '─', '┐'], ['├', '─', '─', '┤'], ['└', '─', '─', '┘'])
    } else {
        (['┌', '─', '─', '┐'], ['└', '─', '─', '┤'], ['╶', '─', '─', '┘'])
    };
    assert(r.0@ =~= digit_glyph(d as int).0);
    assert(r.1@ =~= digit_glyph(d as int).1);
    assert(r.2@ =~= digit_glyph(d as int).2);
    r
}

/// Whether a display can show the character: a digit, a space, a colon, a comma or a period.
pub open spec fn displayable(c: char) -> bool {
    ('0' <= c && c <= '9') || c == ' ' || c == ':' || c == ',' || c == '.'
}

/// The first character of `s` that a display cannot show, if there is one.
pub open spec fn first_undisplayable(s: Seq<char>) -> Option<char>
    decreases s.len(),
{
    if s.len() == 0 {
        None
    } else if !displayable(s[0]) {
        Some(s[0])
    } else {
        first_undisplayable(s.drop_first())
    }
}

/// Whether the character is as wide as a digit, so that the next one needs a space before it.
pub open spec fn wide(c: char) -> bool {
    ('0' <= c && c <= '9') || c == ' '
}

/// A cell holding the character, with the default style.
pub open spec fn char_cell(c: char) -> (Seq<char>, Style) {
    (seq![c], default_style())
}

/// The cells that a row of four characters makes.
pub open spec fn glyph_cells(row: Seq<char>) -> Seq<(Seq<char>, Style)> {
    row.map_values(|c: char| char_cell(c))
}

/// The cells that character `c` adds to the top, centre and bottom rows; `spaced` says whether
/// a wide character came just before it, which puts a blank column in between two wide ones.
pub open spec fn glyph(c: char, spaced: bool) -> (Seq<(Seq<char>, Style)>, Seq<(Seq<char>, Style)>, Seq<(Seq<char>, Style)>) {
    let pre: Seq<(Seq<char>, Style)> = if spaced { seq![blank_cell()] } else { seq![] };
    let blanks = seq![blank_cell(), blank_cell(), blank_cell(), blank_cell()];
    if '0' <= c && c <= '9' {
        let g = digit_glyph(c as int - '0' as int);
        (pre + glyph_cells(g.0), pre + glyph_cells(g.1), pre + glyph_cells(g.2))
    } else if c == ' ' {
        (pre + blanks, pre + blanks, pre + blanks)
    } else if c == ':' {
        (seq![blank_cell()], seq![char_cell(':')], seq![blank_cell()])
    } else {
        (seq![blank_cell()], seq![blank_cell()], seq![char_cell(c)])
    }
}

/// The three rows of cells that show `s`.
pub open spec fn segment_rows(s: Seq<char>) -> (Seq<(Seq<char>, Style)>, Seq<(Seq<char>, Style)>, Seq<(Seq<char>, Style)>)
    decreases s.len(),
{
    if s.len() == 0 {
        (seq![], seq![], seq![])
    } else {
        let prev = segment_rows(s.drop_last());
        let spaced = s.len() >= 2 && wide(s[s.len() - 2]);
        let g = glyph(s.last(), spaced);
        (prev.0 + g.0, prev.1 + g.1, prev.2 + g.2)
    }
}

/// Text shown on three rows of cells.
#[derive(Debug)]
pub struct SevenSegment {
    pub top: Vec<Cell>,
    pub centre: Vec<Cell>,
    pub bottom: Vec<Cell>,
}


impl Default for SevenSegment {
    fn default() -> (s: SevenSegment)
        ensures
            s.top@.len() == 0,
            s.centre@.len() == 0,
            s.bottom@.len() == 0,
    {
        SevenSegment { top: Vec::new(), centre: Vec::new(), bottom: Vec::new() }
    }
}

fn push_cell(row: &mut Vec<Cell>, c: char)
    ensures cells_view(final(row)@) == cells_view(old(row)@).push(char_cell(c)),
{
    row.push(Cell { symbol: char_string(c), style: Style::new() });
    assert(cells_view(row@) =~= cells_view(old(row)@).push(char_cell(c)));
}

fn push_blank(row: &mut Vec<Cell>)
    ensures cells_view(final(row)@) == cells_view(old(row)@).push(blank_cell()),
{
    row.push(Cell::default());
    assert(cells_view(row@) =~= cells_view(old(row)@).push(blank_cell()));
}

fn push_glyph_row(row: &mut Vec<Cell>, chars: [char; 4], spaced: bool)
    ensures
        cells_view(final(row)@) == cells_view(old(row)@) + (if spaced { seq![blank_cell()] } else { seq![] }) + glyph_cells(chars@),
{
    if spaced {
        push_blank(row);
    }
    let ghost before = cells_view(row@);
    push_cell(row, chars[0]);
    push_cell(row, chars[1]);
    push_cell(row, chars[2]);
    push_cell(row, chars[3]);
    assert(cells_view(row@) =~= before + glyph_cells(chars@));
}

fn push_blank_glyph(row: &mut Vec<Cell>, spaced: bool)
    ensures
        cells_view(final(row)@) == cells_view(old(row)@) + (if spaced { seq![blank_cell()] } else { seq![] })
            + seq![blank_cell(), blank_cell(), blank_cell(), blank_cell()],
{
    if spaced {
        push_blank(row);
    }
    let ghost before = cells_view(row@);
    push_blank(row);
    push_blank(row);
    push_blank(row);
    push_blank(row);
    assert(cells_view(row@) =~= before + seq![blank_cell(), blank_cell(), blank_cell(), blank_cell()]);
}

impl SevenSegment {
    /// The three rows have the same length.
    pub open spec fn wf(&self) -> bool {
        self.top@.len() == self.centre@.len() && self.centre@.len() == self.bottom@.len()
    }

    /// Builds the display of `text`, or gives back the first character it cannot show.
    pub fn new(text: &str) -> (r: Result<SevenSegment, char>)
        ensures
            first_undisplayable(text@) matches Some(c) ==> r == Err::<SevenSegment, char>(c),
            first_undisplayable(text@) is None ==> (r matches Ok(d) && d.wf()
                && cells_view(d.top@) == segment_rows(text@).0
                && cells_view(d.centre@) == segment_rows(text@).1
                && cells_view(d.bottom@) == segment_rows(text@).2),
    {
        let len = text.unicode_len();
        let mut i: usize = 0;
        assert(text@.skip(0) =~= text@);
        while i < len
            invariant
                len == text@.len(),
                i <= len,
                first_undisplayable(text@) == first_undisplayable(text@.skip(i as int)),
            decreases len - i,
        {
            let c = text.get_char(i);
            assert(text@.skip(i as int)[0] == c);
            if !(('0' <= c && c <= '9') || c == ' ' || c == ':' || c == ',' || c == '.') {
                return Err(c);
            }
            assert(text@.skip(i as int).drop_first() =~= text@.skip(i + 1));
            i = i + 1;
        }
        proof {
            lemma_all_displayable(text@);
        }
        let mut display = SevenSegment { top: Vec::new(), centre: Vec::new(), bottom: Vec::new() };
        let mut need_space = false;
        let mut k: usize = 0;
        while k < len
            invariant
                len == text@.len(),
                k <= len,
                forall|j: int| 0 <= j < len ==> displayable(#[trigger] text@[j]),
                need_space == (k >= 1 && wide(text@[k - 1])),
                cells_view(display.top@) == segment_rows(text@.take(k as int)).0,
                cells_view(display.centre@) == segment_rows(text@.take(k as int)).1,
                cells_view(display.bottom@) == segment_rows(text@.take(k as int)).2,
                display.wf(),
            decreases len - k,
        {
            let c = text.get_char(k);
            let ghost pre = text@.take(k + 1);
            assert(pre.drop_last() =~= text@.take(k as int));
            assert(pre.last() == c);
            assert(displayable(text@[k as int]));
            if '0' <= c && c <= '9' {
                let digit = (c as u32) - ('0' as u32);
                let rows = digit_rows(digit);
                push_glyph_row(&mut display.top, rows.0, need_space);
                push_glyph_row(&mut display.centre, rows.1, need_space);
                push_glyph_row(&mut display.bottom, rows.2, need_space);
                need_space = true;
            } else if c == ' ' {
                push_blank_glyph(&mut display.top, need_space);
                push_blank_glyph(&mut display.centre, need_space);
                push_blank_glyph(&mut display.bottom, need_space);
                need_space = true;
            } else if c == ':' {
                push_blank(&mut display.top);
                push_cell(&mut display.centre, ':');
                push_blank(&mut display.bottom);
                need_space = false;
            } else {
                push_blank(&mut display.top);
                push_blank(&mut display.centre);
                push_cell(&mut display.bottom, c);
                need_space = false;
            }
            proof {
                assert(k + 1 >= 2 ==> pre[k - 1] == text@[k - 1]);
                lemma_segment_rows_len(text@.take(k + 1));
                assert(cells_view(display.top@).len() == display.top@.len());
                assert(cells_view(display.centre@).len() == display.centre@.len());
                assert(cells_view(display.bottom@).len() == display.bottom@.len());
            }
            k = k + 1;
        }
        assert(text@.take(len as int) =~= text@);
        Ok(display)
    }

    /// The cells after the display is drawn on `area` over `cells`: as many columns as the area
    /// is wide, and as many rows as it is high, from its top left corner.
    pub open spec fn drawn_cells(&self, buf_area: Rect, cells: Seq<(Seq<char>, Style)>, area: Rect) -> Seq<(Seq<char>, Style)> {
        if area.width * area.height == 0 {
            cells
        } else {
            let w: int = if self.top@.len() < area.width { self.top@.len() as int } else { area.width as int };
            let c1 = row_written(buf_area, cells, area.x as int, area.y as int, cells_view(self.top@), w);
            let c2 = if area.height >= 2 {
                row_written(buf_area, c1, area.x as int, area.y + 1, cells_view(self.centre@), w)
            } else {
                c1
            };
            if area.height >= 3 {
                row_written(buf_area, c2, area.x as int, area.y + 2, cells_view(self.bottom@), w)
            } else {
                c2
            }
        }
    }

    /// Draws the display on `area`.
    pub fn render(&self, area: Rect, buffer: &mut Buffer)
        requires
            self.wf(),
            old(buffer).wf(),
            area.width * area.height <= u16::MAX,
            area.width * area.height > 0 ==> region_in(*old(buffer), area),
        ensures
            final(buffer).wf(),
            final(buffer).area == old(buffer).area,
            final(buffer).cells() == self.drawn_cells(old(buffer).area, old(buffer).cells(), area),
    {
        if area.area() > 0 {
            assert(area.width > 0 && area.height > 0) by (nonlinear_arith)
                requires area.width * area.height > 0;
            let width = if self.top.len() < area.width as usize { self.top.len() } else { area.width as usize };
            let top = area.top();
            let left = area.left();
            write_cells(buffer, left, top, &self.top, width);
            if area.height >= 2 {
                write_cells(buffer, left, top + 1, &self.centre, width);
            }
            if area.height >= 3 {
                write_cells(buffer, left, top + 2, &self.bottom, width);
            }
        }
    }
}

/// The three rows of a display are equally long.
proof fn lemma_segment_rows_len(s: Seq<char>)
    ensures
        segment_rows(s).0.len() == segment_rows(s).1.len(),
        segment_rows(s).1.len() == segment_rows(s).2.len(),
    decreases s.len(),
{
    if s.len() > 0 {
        lemma_segment_rows_len(s.drop_last());
    }
}

/// When no character is undisplayable, every character is displayable.
proof fn lemma_all_displayable(s: Seq<char>)
    requires
        first_undisplayable(s) is None,
    ensures
        forall|j: int| 0 <= j < s.len() ==> displayable(#[trigger] s[j]),
    decreases s.len(),
{
    if s.len() > 0 {
        lemma_all_displayable(s.drop_first());
        assert forall|j: int| 0 <= j < s.len() implies displayable(#[trigger] s[j]) by {
            if j > 0 {
                assert(s[j] == s.drop_first()[j - 1]);
            }
        }
    }
}

} // verus!
