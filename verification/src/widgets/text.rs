//! A text widget whose text marks colored parts inline: `{red some words}` draws "some words" in
//! red, and a backslash escapes a brace or a backslash.
use vstd::prelude::*;
use vstd::string::*;

use crate::buffer::{
    background_cells, index_in, lemma_index_bound, region_in, restyle_region, restyled_cells, set_region_bg, Buffer, Restyle,
};
use crate::layout::Rect;
use crate::style::{Color, Style};
use crate::unicode::{grapheme_clusters, graphemes_of};
use crate::widgets::block::Block;

verus! {

/// What a parser holds: the graphemes left, in order, whether a mark is open, the color name
/// read so far, the current color, the base color, whether a backslash came, and whether the
/// marked text has started.
pub type ParserView = (Seq<Seq<char>>, bool, Seq<char>, Color, Color, bool, bool);

/// The color a name stands for; any other name resets the color.
pub open spec fn named_color(name: Seq<char>) -> Color {
    if name == seq!['b', 'l', 'a', 'c', 'k'] {
        Color::Black
    } else if name == seq!['r', 'e', 'd'] {
        Color::Red
    } else if name == seq!['g', 'r', 'e', 'e', 'n'] {
        Color::Green
    } else if name == seq!['y', 'e', 'l', 'l', 'o', 'w'] {
        Color::Yellow
    } else if name == seq!['m', 'a', 'g', 'e', 'n', 't', 'a'] {
        Color::Magenta
    } else if name == seq!['c', 'y', 'a', 'n'] {
        Color::Cyan
    } else if name == seq!['g', 'r', 'a', 'y'] {
        Color::Gray
    } else if name == seq!['d', 'a', 'r', 'k', '_', 'g', 'r', 'a', 'y'] {
        Color::DarkGray
    } else if name == seq!['l', 'i', 'g', 'h', 't', '_', 'r', 'e', 'd'] {
        Color::LightRed
    } else if name == seq!['l', 'i', 'g', 'h', 't', '_', 'g', 'r', 'e', 'e', 'n'] {
        Color::LightGreen
    } else if name == seq!['l', 'i', 'g', 'h', 't', '_', 'y', 'e', 'l', 'l', 'o', 'w'] {
        Color::LightYellow
    } else if name == seq!['l', 'i', 'g', 'h', 't', '_', 'm', 'a', 'g', 'e', 'n', 't', 'a'] {
        Color::LightMagenta
    } else if name == seq!['l', 'i', 'g', 'h', 't', '_', 'c', 'y', 'a', 'n'] {
        Color::LightCyan
    } else if name == seq!['w', 'h', 'i', 't', 'e'] {
        Color::White
    } else {
        Color::Reset
    }
}

/// The next grapheme the parser gives, with its color, and the state after it: the marks, the
/// color names and the backslashes that escape are consumed on the way.
pub open spec fn parse_next(p: ParserView) -> (ParserView, Option<(Seq<char>, Color)>)
    decreases p.0.len(),
{
    let (rest, mark, name, color, base, escaping, coloring) = p;
    if rest.len() == 0 {
        (p, None)
    } else {
        let s = rest[0];
        let tail = rest.drop_first();
        if s == seq!['\\'] {
            if escaping {
                ((tail, mark, name, color, base, escaping, coloring), Some((s, color)))
            } else {
                parse_next((tail, mark, name, color, base, true, coloring))
            }
        } else if s == seq!['{'] {
            if escaping {
                ((tail, mark, name, color, base, false, coloring), Some((s, color)))
            } else {
                parse_next((tail, true, name, base, base, escaping, coloring))
            }
        } else if s == seq!['}'] && mark {
            parse_next((tail, false, seq![], base, base, escaping, false))
        } else if s == seq![' '] && mark {
            parse_next((tail, mark, name, named_color(name), base, escaping, true))
        } else if mark && !coloring {
            parse_next((tail, mark, name + s, color, base, escaping, coloring))
        } else {
            ((tail, mark, name, color, base, escaping, coloring), Some((s, color)))
        }
    }
}

/// Every grapheme the parser gives, with its color, until it is done.
pub open spec fn parse_all(p: ParserView) -> Seq<(Seq<char>, Color)>
    decreases p.0.len(),
{
    let (next, out) = parse_next(p);
    match out {
        None => seq![],
        Some(item) => {
            proof {
                lemma_parse_next_shrinks(p);
            }
            seq![item] + parse_all(next)
        },
    }
}

/// A step of the parser takes at least one grapheme when it gives one.
pub proof fn lemma_parse_next_shrinks(p: ParserView)
    ensures
        parse_next(p).1 is Some ==> parse_next(p).0.0.len() < p.0.len(),
        parse_next(p).0.0.len() <= p.0.len(),
    decreases p.0.len(),
{
    let (rest, mark, name, color, base, escaping, coloring) = p;
    if rest.len() > 0 {
        let s = rest[0];
        let tail = rest.drop_first();
        if s == seq!['\\'] {
            if !escaping {
                lemma_parse_next_shrinks((tail, mark, name, color, base, true, coloring));
            }
        } else if s == seq!['{'] {
            if !escaping {
                lemma_parse_next_shrinks((tail, true, name, base, base, escaping, coloring));
            }
        } else if s == seq!['}'] && mark {
            lemma_parse_next_shrinks((tail, false, seq![], base, base, escaping, false));
        } else if s == seq![' '] && mark {
            lemma_parse_next_shrinks((tail, mark, name, named_color(name), base, escaping, true));
        } else if mark && !coloring {
            lemma_parse_next_shrinks((tail, mark, name + s, color, base, escaping, coloring));
        }
    }
}

/// The state of a parser that starts on `text` with the color `base`.
pub open spec fn parser_start(text: Seq<char>, base: Color) -> ParserView {
    (grapheme_clusters(text), false, seq![], base, base, false, false)
}

/// Reads marked text grapheme by grapheme.
pub struct Parser<'a> {
    /// The graphemes left, last first.
    text: Vec<&'a str>,
    mark: bool,
    color_string: String,
    color: Color,
    base_color: Color,
    escaping: bool,
    coloring: bool,
}

impl<'a> View for Parser<'a> {
    type V = ParserView;

    closed spec fn view(&self) -> ParserView {
        (
            self.text@.reverse().map_values(|g: &str| g@),
            self.mark,
            self.color_string@,
            self.color,
            self.base_color,
            self.escaping,
            self.coloring,
        )
    }
}

/// Whether two strings hold the same characters.
fn str_equals(a: &str, b: &str) -> (r: bool)
    ensures r == (a@ == b@),
{
    let n = a.unicode_len();
    if n != b.unicode_len() {
        return false;
    }
    let mut i: usize = 0;
    while i < n
        invariant
            n == a@.len(),
            n == b@.len(),
            i <= n,
            a@.subrange(0, i as int) == b@.subrange(0, i as int),
        decreases n - i,
    {
        if a.get_char(i) != b.get_char(i) {
            assert(a@[i as int] != b@[i as int]);
            return false;
        }
        assert(a@.subrange(0, i + 1) =~= a@.subrange(0, i as int).push(a@[i as int]));
        assert(b@.subrange(0, i + 1) =~= b@.subrange(0, i as int).push(b@[i as int]));
        i = i + 1;
    }
    assert(a@ =~= a@.subrange(0, n as int));
    assert(b@ =~= b@.subrange(0, n as int));
    true
}

/// Whether a string is exactly the character `c`.
fn is_char(s: &str, c: char) -> (r: bool)
    ensures r == (s@ == seq![c]),
{
    if s.unicode_len() != 1 {
        return false;
    }
    let first = s.get_char(0);
    assert(s@ == seq![c] <==> s@[0] == c) by {
        if s@[0] == c {
            assert(s@ =~= seq![c]);
        }
    }
    first == c
}

impl<'a> Parser<'a> {
    pub fn new(text: &'a str, base_color: Color) -> (p: Parser<'a>)
        ensures p@ == parser_start(text@, base_color),
    {
        let graphemes = graphemes_of(text);
        let ghost forward = graphemes@;
        let mut reversed: Vec<&'a str> = Vec::new();
        let mut k = graphemes.len();
        while k > 0
            invariant
                k <= forward.len(),
                forward == graphemes@,
                reversed@ == forward.subrange(k as int, forward.len() as int).reverse(),
            decreases k,
        {
            k = k - 1;
            reversed.push(graphemes[k]);
            assert(reversed@ =~= forward.subrange(k as int, forward.len() as int).reverse());
        }
        assert(forward.subrange(0, forward.len() as int) =~= forward);
        let p = Parser {
            text: reversed,
            mark: false,
            color_string: String::new(),
            color: base_color,
            base_color,
            escaping: false,
            coloring: false,
        };
        assert(p.text@.reverse() =~= forward);
        assert(p@.0 =~= grapheme_clusters(text@));
        p
    }

    /// Sets the current color to the one the color name read so far stands for.
    fn update_color(&mut self)
        ensures
            final(self)@ == (old(self)@.0, old(self)@.1, old(self)@.2, named_color(old(self)@.2), old(self)@.4, old(self)@.5, old(self)@.6),
    {
        proof {
            reveal_strlit("black");
            assert("black"@ =~= seq!['b', 'l', 'a', 'c', 'k']);
            reveal_strlit("red");
            assert("red"@ =~= seq!['r', 'e', 'd']);
            reveal_strlit("green");
            assert("green"@ =~= seq!['g', 'r', 'e', 'e', 'n']);
            reveal_strlit("yellow");
            assert("yellow"@ =~= seq!['y', 'e', 'l', 'l', 'o', 'w']);
            reveal_strlit("magenta");
            assert("magenta"@ =~= seq!['m', 'a', 'g', 'e', 'n', 't', 'a']);
            reveal_strlit("cyan");
            assert("cyan"@ =~= seq!['c', 'y', 'a', 'n']);
            reveal_strlit("gray");
            assert("gray"@ =~= seq!['g', 'r', 'a', 'y']);
            reveal_strlit("dark_gray");
            assert("dark_gray"@ =~= seq!['d', 'a', 'r', 'k', '_', 'g', 'r', 'a', 'y']);
            reveal_strlit("light_red");
            assert("light_red"@ =~= seq!['l', 'i', 'g', 'h', 't', '_', 'r', 'e', 'd']);
            reveal_strlit("light_green");
            assert("light_green"@ =~= seq!['l', 'i', 'g', 'h', 't', '_', 'g', 'r', 'e', 'e', 'n']);
            reveal_strlit("light_yellow");
            assert("light_yellow"@ =~= seq!['l', 'i', 'g', 'h', 't', '_', 'y', 'e', 'l', 'l', 'o', 'w']);
            reveal_strlit("light_magenta");
            assert("light_magenta"@ =~= seq!['l', 'i', 'g', 'h', 't', '_', 'm', 'a', 'g', 'e', 'n', 't', 'a']);
            reveal_strlit("light_cyan");
            assert("light_cyan"@ =~= seq!['l', 'i', 'g', 'h', 't', '_', 'c', 'y', 'a', 'n']);
            reveal_strlit("white");
            assert("white"@ =~= seq!['w', 'h', 'i', 't', 'e']);
        }
        let name = self.color_string.as_str();
        let color = if str_equals(name, "black") {
            Color::Black
        } else if str_equals(name, "red") {
            Color::Red
        } else if str_equals(name, "green") {
            Color::Green
        } else if str_equals(name, "yellow") {
            Color::Yellow
        } else if str_equals(name, "magenta") {
            Color::Magenta
        } else if str_equals(name, "cyan") {
            Color::Cyan
        } else if str_equals(name, "gray") {
            Color::Gray
        } else if str_equals(name, "dark_gray") {
            Color::DarkGray
        } else if str_equals(name, "light_red") {
            Color::LightRed
        } else if str_equals(name, "light_green") {
            Color::LightGreen
        } else if str_equals(name, "light_yellow") {
            Color::LightYellow
        } else if str_equals(name, "light_magenta") {
            Color::LightMagenta
        } else if str_equals(name, "light_cyan") {
            Color::LightCyan
        } else if str_equals(name, "white") {
            Color::White
        } else {
            Color::Reset
        };
        assert(color == named_color(self.color_string@));
        self.color = color;
    }

    /// Closes a mark: the color goes back to the base color and the name is forgotten.
    fn reset(&mut self)
        ensures
            final(self)@ == (old(self)@.0, false, Seq::<char>::empty(), old(self)@.4, old(self)@.4, old(self)@.5, false),
    {
        self.coloring = false;
        self.mark = false;
        self.color = self.base_color;
        self.color_string = String::new();
    }

    /// The next grapheme to draw, with its color.
    pub fn next(&mut self) -> (r: Option<(&'a str, Color)>)
        ensures
            final(self)@ == parse_next(old(self)@).0,
            match r {
                Some((s, c)) => parse_next(old(self)@).1 == Some((s@, c)),
                None => parse_next(old(self)@).1 is None,
            },
    {
        loop
            invariant
                parse_next(self@) == parse_next(old(self)@),
            decreases self@.0.len(),
        {
            let ghost before = self@;
            assert(self.text@.reverse().map_values(|g: &str| g@).len() == self.text@.len());
            match self.text.pop() {
                None => {
                    return None;
                },
                Some(s) => {
                    proof {
                        assert(before.0[0] == s@);
                        assert(self@.0 =~= before.0.drop_first());
                    }
                    if is_char(s, '\\') {
                        if self.escaping {
                            return Some((s, self.color));
                        } else {
                            self.escaping = true;
                        }
                    } else if is_char(s, '{') {
                        if self.escaping {
                            self.escaping = false;
                            return Some((s, self.color));
                        } else {
                            self.color = self.base_color;
                            self.mark = true;
                        }
                    } else if is_char(s, '}') && self.mark {
                        self.reset();
                    } else if is_char(s, ' ') && self.mark {
                        self.coloring = true;
                        self.update_color();
                    } else if self.mark && !self.coloring {
                        self.color_string.append(s);
                    } else {
                        return Some((s, self.color));
                    }
                },
            }
        }
    }
}

/// A text widget: text with inline color marks, drawn cell by cell.
pub struct Text<'a> {
    pub block: Option<Block<'a>>,
    pub color: Color,
    pub background_color: Color,
    pub wrapping: bool,
    pub text: &'a str,
    /// Runs of cells to recolor after the text is drawn: column, row in the text, width,
    /// foreground and background.
    pub colors: &'a [(u16, u16, u16, Color, Color)],
}

impl<'a> Default for Text<'a> {
    fn default() -> (t: Text<'a>)
        ensures
            t.block.is_none(),
            t.color == Color::Reset,
            t.background_color == Color::Reset,
            !t.wrapping,
            t.text@.len() == 0,
            t.colors@.len() == 0,
    {
        let t = Text {
            block: None,
            color: Color::Reset,
            background_color: Color::Reset,
            wrapping: false,
            text: "",
            colors: &[],
        };
        proof {
            reveal_strlit("");
        }
        t
    }
}

impl<'a> Text<'a> {
    pub fn block(&mut self, block: Block<'a>) -> (r: &mut Text<'a>)
        ensures
            *r == (Text { block: Some(block), ..*old(self) }),
            *final(self) == *final(r),
    {
        self.block = Some(block);
        self
    }

    pub fn text(&mut self, text: &'a str) -> (r: &mut Text<'a>)
        ensures
            *r == (Text { text, ..*old(self) }),
            *final(self) == *final(r),
    {
        self.text = text;
        self
    }

    pub fn background_color(&mut self, background_color: Color) -> (r: &mut Text<'a>)
        ensures
            *r == (Text { background_color, ..*old(self) }),
            *final(self) == *final(r),
    {
        self.background_color = background_color;
        self
    }

    pub fn color(&mut self, color: Color) -> (r: &mut Text<'a>)
        ensures
            *r == (Text { color, ..*old(self) }),
            *final(self) == *final(r),
    {
        self.color = color;
        self
    }

    pub fn colors(&mut self, colors: &'a [(u16, u16, u16, Color, Color)]) -> (r: &mut Text<'a>)
        ensures
            *r == (Text { colors, ..*old(self) }),
            *final(self) == *final(r),
    {
        self.colors = colors;
        self
    }

    pub fn wrap(&mut self, flag: bool) -> (r: &mut Text<'a>)
        ensures
            *r == (Text { wrapping: flag, ..*old(self) }),
            *final(self) == *final(r),
    {
        self.wrapping = flag;
        self
    }

    /// The area the text is drawn in: inside the block, if there is one.
    pub open spec fn text_area(self, area: Rect) -> Rect {
        match self.block {
            Some(b) => b.spec_inner(area),
            None => area,
        }
    }

    /// The graphemes to draw, with their colors.
    pub open spec fn items(self) -> Seq<(Seq<char>, Color)> {
        parse_all(parser_start(self.text@, self.color))
    }

    /// The cells, the column and row in the area, and whether the area is full, after the first
    /// `k` graphemes are drawn over `cells` on the area `t`: a newline goes to the start of the
    /// next row; past the right edge graphemes are dropped, or wrap to the next row; below the
    /// last row drawing stops.
    pub open spec fn text_run(self, buf_area: Rect, cells: Seq<(Seq<char>, Style)>, t: Rect, k: int) -> (Seq<(Seq<char>, Style)>, int, int, bool)
        decreases k,
    {
        if k <= 0 {
            (cells, 0, 0, false)
        } else {
            let (c, x, y, full) = self.text_run(buf_area, cells, t, k - 1);
            let (s, color) = self.items()[k - 1];
            if full {
                (c, x, y, true)
            } else if s == seq!['\n'] {
                (c, 0, y + 1, false)
            } else if x >= t.width {
                if self.wrapping { (c, 0, y + 1, false) } else { (c, x, y, false) }
            } else if y > t.height - 1 {
                (c, x, y, true)
            } else {
                let i = index_in(buf_area, t.x + x, t.y + y);
                (c.update(i, (s, Style { fg: color, bg: self.background_color, modifier: c[i].1.modifier })), x + 1, y, false)
            }
        }
    }

    /// The run of cells that entry `j` of the colors recolors.
    pub open spec fn color_run(self, t: Rect, j: int) -> Rect {
        let (x, y, width, fg, bg) = self.colors@[j];
        Rect { x, y: (y + t.y) as u16, width, height: 1 }
    }

    /// The cells after the first `k` entries of the colors are applied over `cells`.
    pub open spec fn colors_run(self, buf_area: Rect, cells: Seq<(Seq<char>, Style)>, t: Rect, k: int) -> Seq<(Seq<char>, Style)>
        decreases k,
    {
        if k <= 0 {
            cells
        } else {
            let (x, y, width, fg, bg) = self.colors@[k - 1];
            restyled_cells(buf_area, self.colors_run(buf_area, cells, t, k - 1), self.color_run(t, k - 1), Restyle::Colors(fg, bg))
        }
    }

    /// Whether the text can be drawn on `area`: the block's inner area computes, what is drawn
    /// lies in the buffer, the rows counted stay below `u16::MAX`, and the runs to recolor lie in
    /// the buffer.
    pub open spec fn drawable(self, buf: Buffer, area: Rect) -> bool {
        let t = self.text_area(area);
        &&& self.block matches Some(b) ==> b.inner_computable(area)
        &&& (self.block is Some && area.width >= 2 && area.height >= 2) ==> region_in(buf, area)
        &&& t.height >= 1 ==> {
            &&& region_in(buf, t)
            &&& self.items().len() < u16::MAX
            &&& forall|j: int| 0 <= j < self.colors@.len() ==> #[trigger] self.colors@[j].1 + t.y <= u16::MAX
                && region_in(buf, self.color_run(t, j))
        }
    }

    /// The cells after the text is drawn on `area` over `cells`: the block, the background
    /// color unless it is `Reset`, the graphemes, then the runs to recolor.
    pub open spec fn drawn_cells(self, buf_area: Rect, cells: Seq<(Seq<char>, Style)>, area: Rect) -> Seq<(Seq<char>, Style)> {
        let t = self.text_area(area);
        let c0 = match self.block {
            Some(b) => b.drawn_cells(buf_area, cells, area),
            None => cells,
        };
        if t.height < 1 {
            c0
        } else {
            let c1 = if self.background_color != Color::Reset { background_cells(buf_area, c0, t, self.background_color) } else { c0 };
            let c2 = self.text_run(buf_area, c1, t, self.items().len() as int).0;
            self.colors_run(buf_area, c2, t, self.colors@.len() as int)
        }
    }

    pub fn draw(&self, area: Rect, buf: &mut Buffer)
        requires
            old(buf).wf(),
            self.drawable(*old(buf), area),
        ensures
            final(buf).wf(),
            final(buf).area == old(buf).area,
            final(buf).cells() == self.drawn_cells(old(buf).area, old(buf).cells(), area),
    {
        let text_area = match &self.block {
            Some(b) => {
                b.draw(area, buf);
                b.inner(area)
            },
            None => area,
        };
        if text_area.height < 1 {
            return;
        }
        if self.background_color != Color::Reset {
            set_region_bg(buf, text_area, self.background_color);
        }
        let ghost c1 = buf.cells();
        let mut parser = Parser::new(self.text, self.color);
        let mut x: u16 = 0;
        let mut y: u16 = 0;
        let ghost mut k: int = 0;
        loop
            invariant_except_break
                (buf.cells(), x as int, y as int, false) == self.text_run(buf.area, c1, text_area, k),
                self.items() == self.items().take(k) + parse_all(parser@),
            invariant
                buf.wf(),
                buf.area == old(buf).area,
                text_area == self.text_area(area),
                text_area.height >= 1,
                region_in(*buf, text_area),
                self.items().len() < u16::MAX,
                0 <= k <= self.items().len(),
                y <= k,
            ensures
                buf.cells() == self.text_run(buf.area, c1, text_area, self.items().len() as int).0,
            decreases parse_all(parser@).len(),
        {
            let ghost p0 = parser@;
            let next = parser.next();
            match next {
                None => {
                    proof {
                        assert(parse_all(p0) =~= Seq::<(Seq<char>, Color)>::empty());
                        assert(self.items().take(k) =~= self.items());
                    }
                    break;
                },
                Some((s, c)) => {
                    proof {
                        assert(parse_all(p0) == seq![(s@, c)] + parse_all(parser@));
                        assert(self.items()[k] == (s@, c));
                        assert(self.items().take(k + 1) =~= self.items().take(k).push((s@, c)));
                    }
                    if is_char(s, '\n') {
                        x = 0;
                        y = y + 1;
                    } else if x >= text_area.width {
                        if self.wrapping {
                            x = 0;
                            y = y + 1;
                        }
                    } else if y > text_area.height - 1 {
                        proof {
                            k = k + 1;
                            lemma_text_run_full(*self, buf.area, c1, text_area, k, self.items().len() as int);
                        }
                        break;
                    } else {
                        let px = text_area.x + x;
                        let py = text_area.y + y;
                        proof {
                            lemma_index_bound(buf.area, px as int, py as int);
                        }
                        let modifier = buf.get(px, py).style.modifier;
                        buf.get_mut(px, py).set_symbol(s).set_style(Style { fg: c, bg: self.background_color, modifier });
                        proof {
                            assert(buf.cells() =~= self.text_run(buf.area, c1, text_area, k).0.update(
                                index_in(buf.area, px as int, py as int),
                                (s@, Style { fg: c, bg: self.background_color, modifier }),
                            ));
                        }
                        x = x + 1;
                    }
                    proof {
                        k = k + 1;
                    }
                },
            }
        }
        let mut j: usize = 0;
        while j < self.colors.len()
            invariant
                buf.wf(),
                buf.area == old(buf).area,
                text_area == self.text_area(area),
                text_area.height >= 1,
                j <= self.colors@.len(),
                forall|i: int| 0 <= i < self.colors@.len() ==> #[trigger] self.colors@[i].1 + text_area.y <= u16::MAX
                    && region_in(*buf, self.color_run(text_area, i)),
                buf.cells() == self.colors_run(buf.area, self.text_run(buf.area, c1, text_area, self.items().len() as int).0, text_area, j as int),
            decreases self.colors@.len() - j,
        {
            let (cx, cy, width, fg, bg) = self.colors[j];
            assert(self.colors@[j as int].1 + text_area.y <= u16::MAX && region_in(*buf, self.color_run(text_area, j as int)));
            restyle_region(buf, Rect { x: cx, y: cy + text_area.y, width, height: 1 }, Restyle::Colors(fg, bg));
            j = j + 1;
        }
    }
}

/// Once the area is full, the later graphemes change nothing.
proof fn lemma_text_run_full(t: Text, buf_area: Rect, cells: Seq<(Seq<char>, Style)>, r: Rect, k: int, n: int)
    requires
        0 <= k <= n,
        t.text_run(buf_area, cells, r, k).3,
    ensures
        t.text_run(buf_area, cells, r, n) == t.text_run(buf_area, cells, r, k),
    decreases n - k,
{
    if k < n {
        lemma_text_run_full(t, buf_area, cells, r, k + 1, n);
    }
}

} // verus!
