//! Text with ANSI escape sequences: the pieces a parser reports, and the styled text they make,
//! the SGR codes of CSI commands setting the style of the data that follows.
use vstd::prelude::*;
use vstd::string::*;

use crate::style::{default_style, Color, Modifier, Style};
use crate::text::{split_lines, Text};

verus! {

/// The kind of a control sequence.
#[derive(Debug, Clone, Copy, PartialEq, Eq, Structural)]
pub enum Ctl {
    /// Control Sequence Introducer
    CSI,
    /// Any other control sequence
    Other,
}

/// A piece of input, as a parser of ANSI sequences reports it.
#[derive(Debug)]
pub enum Ansi {
    /// The raw bytes that are invalid
    Error(Vec<u8>),
    /// Escape - either as part of a sequence or on its own
    Esc,
    /// Normal or unicode characters
    Data(String),
    /// A command: its kind, its final byte, its parameters and its intermediate bytes
    Command(Ctl, u32, String, Vec<u8>),
}

/// The style after the SGR code `code` is applied to `style`: `0` resets it, `1` to `9` add a
/// modifier, `30` to `37` set the foreground color; other codes change nothing.
pub open spec fn sgr_style(code: u8, style: Style) -> Style {
    let with_bits = |bits: u16| Style { modifier: Modifier { bits: style.modifier.bits | bits }, ..style };
    if code == 0 {
        default_style()
    } else if 1 <= code <= 9 {
        with_bits((1u16 << ((code - 1) as u16)) as u16)
    } else if code == 30 {
        Style { fg: Color::Black, ..style }
    } else if code == 31 {
        Style { fg: Color::Red, ..style }
    } else if code == 32 {
        Style { fg: Color::Green, ..style }
    } else if code == 33 {
        Style { fg: Color::Yellow, ..style }
    } else if code == 34 {
        Style { fg: Color::Blue, ..style }
    } else if code == 35 {
        Style { fg: Color::Magenta, ..style }
    } else if code == 36 {
        Style { fg: Color::Cyan, ..style }
    } else if code == 37 {
        Style { fg: Color::White, ..style }
    } else {
        style
    }
}

/// Applies the SGR (Select Graphic Rendition) code to the style.
pub fn apply_sgr(code: u8, style: &mut Style)
    ensures *final(style) == sgr_style(code, *old(style)),
{
    match code {
        0 => style.reset(),
        1 => style.modifier = style.modifier.union(Modifier::BOLD()),
        2 => style.modifier = style.modifier.union(Modifier::DIM()),
        3 => style.modifier = style.modifier.union(Modifier::ITALIC()),
        4 => style.modifier = style.modifier.union(Modifier::UNDERLINED()),
        5 => style.modifier = style.modifier.union(Modifier::SLOW_BLINK()),
        6 => style.modifier = style.modifier.union(Modifier::RAPID_BLINK()),
        7 => style.modifier = style.modifier.union(Modifier::REVERSED()),
        8 => style.modifier = style.modifier.union(Modifier::HIDDEN()),
        9 => style.modifier = style.modifier.union(Modifier::CROSSED_OUT()),
        30 => style.fg = Color::Black,
        31 => style.fg = Color::Red,
        32 => style.fg = Color::Green,
        33 => style.fg = Color::Yellow,
        34 => style.fg = Color::Blue,
        35 => style.fg = Color::Magenta,
        36 => style.fg = Color::Cyan,
        37 => style.fg = Color::White,
        _ => {},
    }
    proof {
        assert(1u16 << 0u16 == 1) by (bit_vector);
        assert(1u16 << 1u16 == 2) by (bit_vector);
        assert(1u16 << 2u16 == 4) by (bit_vector);
        assert(1u16 << 3u16 == 8) by (bit_vector);
        assert(1u16 << 4u16 == 16) by (bit_vector);
        assert(1u16 << 5u16 == 32) by (bit_vector);
        assert(1u16 << 6u16 == 64) by (bit_vector);
        assert(1u16 << 7u16 == 128) by (bit_vector);
        assert(1u16 << 8u16 == 256) by (bit_vector);
    }
}

/// The value of a string of decimal digits.
pub open spec fn digits_value(s: Seq<char>) -> int
    decreases s.len(),
{
    if s.len() == 0 {
        0
    } else {
        digits_value(s.drop_last()) * 10 + (s.last() as int - '0' as int)
    }
}

/// Whether every character is a decimal digit.
pub open spec fn all_digits(s: Seq<char>) -> bool {
    forall|i: int| 0 <= i < s.len() ==> '0' <= #[trigger] s[i] <= '9'
}

/// The `u8` a string stands for, as `str::parse::<u8>` reads it: an optional `+` and at least
/// one decimal digit, for a value up to 255.
pub open spec fn parsed_u8(s: Seq<char>) -> Option<u8> {
    let d = if s.len() > 0 && s[0] == '+' { s.drop_first() } else { s };
    if d.len() > 0 && all_digits(d) && digits_value(d) <= 255 {
        Some(digits_value(d) as u8)
    } else {
        None
    }
}

/// Reads a `u8` from a string, as `str::parse::<u8>` does.
pub fn parse_u8(s: &str) -> (r: Option<u8>)
    ensures r == parsed_u8(s@),
{
    let n = s.unicode_len();
    let start: usize = if n > 0 && s.get_char(0) == '+' { 1 } else { 0 };
    let ghost d = if s@.len() > 0 && s@[0] == '+' { s@.drop_first() } else { s@ };
    assert(d =~= s@.subrange(start as int, n as int));
    if start == n {
        return None;
    }
    let mut value: u32 = 0;
    let mut i = start;
    while i < n
        invariant
            n == s@.len(),
            start <= i <= n,
            d == s@.subrange(start as int, n as int),
            d == (if s@.len() > 0 && s@[0] == '+' { s@.drop_first() } else { s@ }),
            d.len() > 0,
            all_digits(s@.subrange(start as int, i as int)),
            value == digits_value(s@.subrange(start as int, i as int)),
            value <= 255,
        decreases n - i,
    {
        let c = s.get_char(i);
        assert(s@.subrange(start as int, i + 1).drop_last() =~= s@.subrange(start as int, i as int));
        if !('0' <= c && c <= '9') {
            assert(d[i - start] == c);
            assert(!('0' <= d[i - start] <= '9'));
            assert(!all_digits(d));
            return None;
        }
        value = value * 10 + ((c as u32) - ('0' as u32));
        if value > 255 {
            proof {
                assert(d.subrange(0, i - start + 1) =~= s@.subrange(start as int, i + 1));
                if all_digits(d) {
                    lemma_digits_value_grows(d, i - start + 1);
                }
            }
            return None;
        }
        i = i + 1;
    }
    assert(s@.subrange(start as int, n as int) =~= d);
    Some(value as u8)
}

/// A longer prefix of digits has at least the value of a shorter one.
proof fn lemma_digits_value_grows(d: Seq<char>, k: int)
    requires
        0 <= k <= d.len(),
        all_digits(d),
    ensures
        digits_value(d.subrange(0, k)) <= digits_value(d),
    decreases d.len() - k,
{
    if k < d.len() {
        lemma_digits_value_grows(d, k + 1);
        assert(d.subrange(0, k + 1).drop_last() =~= d.subrange(0, k));
        assert(d.subrange(0, k + 1).last() == d[k]);
        assert(all_digits(d.subrange(0, k))) by {
            assert forall|i: int| 0 <= i < k implies '0' <= #[trigger] d.subrange(0, k)[i] <= '9' by {
                assert(d.subrange(0, k)[i] == d[i]);
            }
        }
        lemma_digits_value_nonneg(d.subrange(0, k));
        assert('0' <= d[k] <= '9');
    } else {
        assert(d.subrange(0, k) =~= d);
    }
}

proof fn lemma_digits_value_nonneg(d: Seq<char>)
    requires
        all_digits(d),
    ensures
        digits_value(d) >= 0,
    decreases d.len(),
{
    if d.len() > 0 {
        assert(all_digits(d.drop_last())) by {
            assert forall|i: int| 0 <= i < d.len() - 1 implies '0' <= #[trigger] d.drop_last()[i] <= '9' by {
                assert(d.drop_last()[i] == d[i]);
            }
        }
        lemma_digits_value_nonneg(d.drop_last());
        assert('0' <= d[d.len() - 1] <= '9');
    }
}

/// The style in force after the pieces `0..k`: none until a CSI command; a code `0` goes back to
/// none, any other code is applied to the style in force, or to the default one.
pub open spec fn style_after(items: Seq<Ansi>, k: int) -> Option<Style>
    decreases k,
{
    if k <= 0 {
        None
    } else {
        let prev = style_after(items, k - 1);
        match items[k - 1] {
            Ansi::Command(Ctl::CSI, _, code, _) => {
                let c = parsed_u8(code@).unwrap();
                if c == 0 {
                    None
                } else {
                    Some(sgr_style(c, match prev { Some(s) => s, None => default_style() }))
                }
            },
            _ => prev,
        }
    }
}

/// The data of the pieces `0..k`, each with the style in force before it.
pub open spec fn styled_data(items: Seq<Ansi>, k: int) -> Seq<(Seq<char>, Style)>
    decreases k,
{
    if k <= 0 {
        seq![]
    } else {
        let prev = styled_data(items, k - 1);
        match items[k - 1] {
            Ansi::Data(data) => prev.push((
                data@,
                match style_after(items, k - 1) {
                    Some(s) => s,
                    None => default_style(),
                },
            )),
            _ => prev,
        }
    }
}

/// Whether a text holds the lines of `s`, each as one span with `style`.
pub open spec fn text_of(t: Text, s: Seq<char>, style: Style) -> bool {
    &&& t.lines@.len() == split_lines(s).len()
    &&& forall|i: int| 0 <= i < t.lines@.len() ==> (#[trigger] t.lines@[i]).0@.len() == 1
        && t.lines@[i].0@[0].content@ == split_lines(s)[i]
        && t.lines@[i].0@[0].style == style
}

/// The pieces of an input.
#[derive(Debug)]
pub struct AnsiBuffer {
    pub buf: Vec<Ansi>,
}

impl AnsiBuffer {
    pub fn empty() -> (b: AnsiBuffer)
        ensures b.buf@.len() == 0,
    {
        AnsiBuffer { buf: Vec::new() }
    }

    /// Takes the next piece of the input.
    pub fn handle(&mut self, ansi: Ansi)
        ensures final(self).buf@ == old(self).buf@.push(ansi),
    {
        self.buf.push(ansi);
    }

    /// Whether every CSI command's parameters are a code.
    pub open spec fn codes_valid(&self) -> bool {
        forall|i: int| 0 <= i < self.buf@.len() ==> match #[trigger] self.buf@[i] {
            Ansi::Command(Ctl::CSI, _, code, _) => parsed_u8(code@) is Some,
            _ => true,
        }
    }

    /// The data of the input as styled text, one text for each piece of data, in the style that
    /// the SGR codes before it set.
    pub fn as_text(&self) -> (t: Vec<Text>)
        requires
            self.codes_valid(),
        ensures
            t@.len() == styled_data(self.buf@, self.buf@.len() as int).len(),
            forall|j: int| 0 <= j < t@.len() ==> text_of(
                #[trigger] t@[j],
                styled_data(self.buf@, self.buf@.len() as int)[j].0,
                styled_data(self.buf@, self.buf@.len() as int)[j].1,
            ),
    {
        let mut current: Option<Style> = None;
        let mut t: Vec<Text> = Vec::new();
        for k in 0..self.buf.len()
            invariant
                self.codes_valid(),
                current == style_after(self.buf@, k as int),
                t@.len() == styled_data(self.buf@, k as int).len(),
                forall|j: int| 0 <= j < t@.len() ==> text_of(
                    #[trigger] t@[j],
                    styled_data(self.buf@, k as int)[j].0,
                    styled_data(self.buf@, k as int)[j].1,
                ),
        {
            match &self.buf[k] {
                Ansi::Data(data) => {
                    let style = match current {
                        Some(s) => s,
                        None => Style::new(),
                    };
                    t.push(Text::styled(data.as_str(), style));
                },
                Ansi::Command(Ctl::CSI, _, code, _) => {
                    assert(parsed_u8(code@) is Some);
                    let c = parse_u8(code.as_str()).unwrap();
                    if c == 0 {
                        current = None;
                    } else {
                        let mut s = match current {
                            Some(s) => s,
                            None => Style::new(),
                        };
                        apply_sgr(c, &mut s);
                        current = Some(s);
                    }
                },
                _ => {},
            }
        }
        t
    }
}

/// A piece of input, for comparing: data by its characters, anything else as it is.
pub open spec fn piece_of(a: Ansi) -> (Seq<char>, Option<Ansi>) {
    match a {
        Ansi::Data(s) => (s@, None),
        other => (seq![], Some(other)),
    }
}

/// The pieces of an input once each run of data is joined into one.
pub open spec fn compact_pieces(items: Seq<Ansi>) -> Seq<(Seq<char>, Option<Ansi>)>
    decreases items.len(),
{
    if items.len() == 0 {
        seq![]
    } else {
        let prev = compact_pieces(items.drop_last());
        match items.last() {
            Ansi::Data(s) => if prev.len() > 0 && prev.last().1 is None {
                prev.drop_last().push((prev.last().0 + s@, None))
            } else {
                prev.push((s@, None))
            },
            other => prev.push((seq![], Some(other))),
        }
    }
}

impl AnsiBuffer {
    /// Joins each run of data into one piece.
    pub fn compact(&mut self)
        ensures final(self).buf@.map_values(|a: Ansi| piece_of(a)) == compact_pieces(old(self).buf@),
    {
        let mut items: Vec<Ansi> = Vec::new();
        std::mem::swap(&mut items, &mut self.buf);
        let ghost all = items@;
        let mut rev: Vec<Ansi> = Vec::new();
        while items.len() > 0
            invariant
                items@ + rev@.reverse() == all,
            decreases items@.len(),
        {
            let a = items.pop().unwrap();
            rev.push(a);
            assert(items@ + rev@.reverse() =~= all);
        }
        assert(rev@.reverse() =~= all);
        let mut new_buf: Vec<Ansi> = Vec::new();
        let mut pending: Option<String> = None;
        let ghost mut k: int = 0;
        while rev.len() > 0
            invariant
                0 <= k <= all.len(),
                rev@.reverse() == all.subrange(k, all.len() as int),
                compact_pieces(all.take(k)) == new_buf@.map_values(|a: Ansi| piece_of(a)) + match pending {
                    Some(p) => seq![(p@, None::<Ansi>)],
                    None => Seq::<(Seq<char>, Option<Ansi>)>::empty(),
                },
                new_buf@.len() > 0 ==> !(new_buf@.last() is Data),
            decreases rev@.len(),
        {
            let ghost before = new_buf@.map_values(|a: Ansi| piece_of(a));
            let ghost r0 = rev@;
            let a = rev.pop().unwrap();
            proof {
                assert(r0.reverse().len() == all.len() - k);
                assert(r0.reverse()[0] == r0[r0.len() - 1]);
                assert(all.subrange(k, all.len() as int)[0] == all[k]);
                assert(a == all[k]);
                assert(rev@ =~= r0.drop_last());
                assert(all.take(k + 1).drop_last() =~= all.take(k));
                assert(rev@.reverse() =~= r0.reverse().drop_first());
                assert(r0.reverse().drop_first() =~= all.subrange(k + 1, all.len() as int));
            }
            match a {
                Ansi::Data(s) => {
                    let joined = match pending {
                        Some(p) => p.concat(s.as_str()),
                        None => s,
                    };
                    pending = Some(joined);
                },
                other => {
                    match pending {
                        Some(p) => {
                            new_buf.push(Ansi::Data(p));
                        },
                        None => {},
                    }
                    pending = None;
                    new_buf.push(other);
                },
            }
            proof {
                k = k + 1;
                assert(compact_pieces(all.take(k)) =~= new_buf@.map_values(|a: Ansi| piece_of(a)) + match pending {
                    Some(p) => seq![(p@, None::<Ansi>)],
                    None => Seq::<(Seq<char>, Option<Ansi>)>::empty(),
                });
            }
        }
        match pending {
            Some(p) => {
                new_buf.push(Ansi::Data(p));
            },
            None => {},
        }
        assert(all.take(all.len() as int) =~= all);
        assert(new_buf@.map_values(|a: Ansi| piece_of(a)) =~= compact_pieces(all));
        self.buf = new_buf;
    }
}

/// After compaction no two pieces of data are next to each other.
pub proof fn lemma_compact_no_adjacent_data(items: Seq<Ansi>)
    ensures
        forall|i: int| 0 <= i < compact_pieces(items).len() - 1 ==> !(#[trigger] compact_pieces(items)[i].1 is None
            && compact_pieces(items)[i + 1].1 is None),
    decreases items.len(),
{
    if items.len() > 0 {
        lemma_compact_no_adjacent_data(items.drop_last());
        let prev = compact_pieces(items.drop_last());
        let cur = compact_pieces(items);
        assert forall|i: int| 0 <= i < cur.len() - 1 implies !(#[trigger] cur[i].1 is None && cur[i + 1].1 is None) by {
            match items.last() {
                Ansi::Data(s) => {
                    if prev.len() > 0 && prev.last().1 is None {
                        if i < prev.len() - 2 {
                            assert(cur[i] == prev[i] && cur[i + 1] == prev[i + 1]);
                        } else {
                            assert(cur[i] == prev[i]);
                            assert(i + 1 < prev.len());
                            assert(prev[i].1 is None ==> !(prev[i + 1].1 is None));
                        }
                    } else {
                        if i < prev.len() - 1 {
                            assert(cur[i] == prev[i] && cur[i + 1] == prev[i + 1]);
                        } else {
                            assert(cur[i] == prev.last());
                        }
                    }
                },
                _ => {
                    if i < prev.len() - 1 {
                        assert(cur[i] == prev[i] && cur[i + 1] == prev[i + 1]);
                    }
                },
            }
        }
    }
}

} // verus!
