//! The primitives that control how the user interface looks: colors, text modifiers and styles.
use vstd::prelude::*;

verus! {

/// A terminal color.
#[derive(Debug, Clone, Copy, PartialEq, Eq, Structural)]
pub enum Color {
    Reset,
    Black,
    Red,
    Green,
    Yellow,
    Blue,
    Magenta,
    Cyan,
    Gray,
    DarkGray,
    LightRed,
    LightGreen,
    LightYellow,
    LightBlue,
    LightMagenta,
    LightCyan,
    White,
    Rgb(u8, u8, u8),
    Indexed(u8),
}

/// Changes the way a piece of text is displayed. The flags are the bits of a `u16`, so they
/// compose with `union`.
#[derive(Debug, Clone, Copy, PartialEq, Eq, Structural)]
pub struct Modifier {
    pub bits: u16,
}

/// The bits that name a modifier; any other bit is ignored by the backends.
pub const MODIFIER_ALL_BITS: u16 = 0b0001_1111_1111;

#[allow(non_snake_case)]
impl Modifier {
    pub fn BOLD() -> (m: Modifier)
        ensures m.bits == 0b0000_0000_0001,
    {
        Modifier { bits: 0b0000_0000_0001 }
    }

    pub fn DIM() -> (m: Modifier)
        ensures m.bits == 0b0000_0000_0010,
    {
        Modifier { bits: 0b0000_0000_0010 }
    }

    pub fn ITALIC() -> (m: Modifier)
        ensures m.bits == 0b0000_0000_0100,
    {
        Modifier { bits: 0b0000_0000_0100 }
    }

    pub fn UNDERLINED() -> (m: Modifier)
        ensures m.bits == 0b0000_0000_1000,
    {
        Modifier { bits: 0b0000_0000_1000 }
    }

    pub fn SLOW_BLINK() -> (m: Modifier)
        ensures m.bits == 0b0000_0001_0000,
    {
        Modifier { bits: 0b0000_0001_0000 }
    }

    pub fn RAPID_BLINK() -> (m: Modifier)
        ensures m.bits == 0b0000_0010_0000,
    {
        Modifier { bits: 0b0000_0010_0000 }
    }

    pub fn REVERSED() -> (m: Modifier)
        ensures m.bits == 0b0000_0100_0000,
    {
        Modifier { bits: 0b0000_0100_0000 }
    }

    pub fn HIDDEN() -> (m: Modifier)
        ensures m.bits == 0b0000_1000_0000,
    {
        Modifier { bits: 0b0000_1000_0000 }
    }

    pub fn CROSSED_OUT() -> (m: Modifier)
        ensures m.bits == 0b0001_0000_0000,
    {
        Modifier { bits: 0b0001_0000_0000 }
    }

    /// The modifier with no flag set.
    pub fn empty() -> (m: Modifier)
        ensures m.bits == 0,
    {
        Modifier { bits: 0 }
    }

    /// The modifier with every flag set.
    pub fn all() -> (m: Modifier)
        ensures m.bits == MODIFIER_ALL_BITS,
    {
        Modifier { bits: MODIFIER_ALL_BITS }
    }

    pub open spec fn spec_contains(self, other: Modifier) -> bool {
        self.bits & other.bits == other.bits
    }

    /// Whether every flag of `other` is set in `self`.
    pub fn contains(&self, other: Modifier) -> (r: bool)
        ensures r == self.spec_contains(other),
    {
        self.bits & other.bits == other.bits
    }

    /// Whether `self` and `other` have a flag in common.
    pub fn intersects(&self, other: Modifier) -> (r: bool)
        ensures r == (self.bits & other.bits != 0),
    {
        self.bits & other.bits != 0
    }

    /// Whether no flag is set.
    pub fn is_empty(&self) -> (r: bool)
        ensures r == (self.bits == 0),
    {
        self.bits == 0
    }

    /// The flags set in either modifier.
    pub fn union(self, other: Modifier) -> (m: Modifier)
        ensures m.bits == self.bits | other.bits,
    {
        Modifier { bits: self.bits | other.bits }
    }

    /// The flags set in `self` but not in `other`.
    pub fn difference(self, other: Modifier) -> (m: Modifier)
        ensures m.bits == self.bits & !other.bits,
    {
        Modifier { bits: self.bits & !other.bits }
    }

    /// Sets the flags of `other`.
    pub fn insert(&mut self, other: Modifier)
        ensures final(self).bits == old(self).bits | other.bits,
    {
        self.bits = self.bits | other.bits;
    }

    /// Clears the flags of `other`.
    pub fn remove(&mut self, other: Modifier)
        ensures final(self).bits == old(self).bits & !other.bits,
    {
        self.bits = self.bits & !other.bits;
    }
}

/// Every flag of a union is set in it, and the union keeps both operands' flags.
pub proof fn lemma_union_contains(a: Modifier, b: Modifier)
    ensures
        (a.bits | b.bits) & a.bits == a.bits,
        (a.bits | b.bits) & b.bits == b.bits,
{
    let (x, y) = (a.bits, b.bits);
    assert((x | y) & x == x) by (bit_vector);
    assert((x | y) & y == y) by (bit_vector);
}

/// The difference of two modifiers shares no flag with the one that was taken away.
pub proof fn lemma_difference_disjoint(a: Modifier, b: Modifier)
    ensures
        (a.bits & !b.bits) & b.bits == 0,
        (a.bits | b.bits) & !b.bits == a.bits & !b.bits,
{
    let (x, y) = (a.bits, b.bits);
    assert((x & !y) & y == 0) by (bit_vector);
    assert((x | y) & !y == x & !y) by (bit_vector);
}

/// The foreground color, the background color and the emphasis of displayed elements.
#[derive(Debug, Clone, Copy, PartialEq, Eq, Structural)]
pub struct Style {
    /// The foreground color.
    pub fg: Color,
    /// The background color.
    pub bg: Color,
    /// The emphasis applied to the text graphemes.
    pub modifier: Modifier,
}

/// The style with both colors reset and no modifier.
pub open spec fn default_style() -> Style {
    Style { fg: Color::Reset, bg: Color::Reset, modifier: Modifier { bits: 0 } }
}

impl Default for Style {
    fn default() -> (s: Style)
        ensures s == default_style(),
    {
        Style::new()
    }
}

impl Style {
    pub fn new() -> (s: Style)
        ensures s == default_style(),
    {
        Style { fg: Color::Reset, bg: Color::Reset, modifier: Modifier::empty() }
    }

    /// Puts both colors back to `Color::Reset` and clears every modifier.
    pub fn reset(&mut self)
        ensures *final(self) == default_style(),
    {
        self.fg = Color::Reset;
        self.bg = Color::Reset;
        self.modifier = Modifier::empty();
    }

    /// The style `other` laid over this one: each color of `other` replaces this one's unless
    /// it is `Color::Reset`, which leaves this one's; the modifiers of both are kept.
    pub open spec fn spec_patch(self, other: Style) -> Style {
        Style {
            fg: if other.fg == Color::Reset { self.fg } else { other.fg },
            bg: if other.bg == Color::Reset { self.bg } else { other.bg },
            modifier: Modifier { bits: self.modifier.bits | other.modifier.bits },
        }
    }

    /// Lays `other` over this style: its colors win where set, and the modifiers add up.
    pub fn patch(self, other: Style) -> (s: Style)
        ensures
            s == self.spec_patch(other),
    {
        Style {
            fg: if other.fg == Color::Reset { self.fg } else { other.fg },
            bg: if other.bg == Color::Reset { self.bg } else { other.bg },
            modifier: self.modifier.union(other.modifier),
        }
    }

    /// Changes the foreground color.
    pub fn fg(self, color: Color) -> (s: Style)
        ensures s == (Style { fg: color, ..self }),
    {
        let mut s = self;
        s.fg = color;
        s
    }

    /// Changes the background color.
    pub fn bg(self, color: Color) -> (s: Style)
        ensures s == (Style { bg: color, ..self }),
    {
        let mut s = self;
        s.bg = color;
        s
    }

    /// Changes the emphasis.
    pub fn modifier(self, modifier: Modifier) -> (s: Style)
        ensures s == (Style { modifier, ..self }),
    {
        let mut s = self;
        s.modifier = modifier;
        s
    }
}

} // verus!
