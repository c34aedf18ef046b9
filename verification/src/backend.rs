//! What a terminal backend is told to do, worked out from the cells to draw: the text attributes
//! to switch when the modifiers change, and the commands that draw a run of cells.
use vstd::prelude::*;

use crate::buffer::Cell;
use crate::style::{Color, Modifier};

verus! {

/// A text attribute a terminal switches on or off.
#[derive(Debug, Clone, Copy, PartialEq, Eq, Structural)]
pub enum Attribute {
    NoReverse,
    NormalIntensity,
    Dim,
    NoItalic,
    NoUnderline,
    NotCrossedOut,
    NoBlink,
    Reverse,
    Bold,
    Italic,
    Underlined,
    CrossedOut,
    SlowBlink,
    RapidBlink,
}

/// The modifiers that `from` has and `to` has not.
pub open spec fn removed(from: Modifier, to: Modifier) -> u16 {
    from.bits & !to.bits
}

pub open spec fn has(bits: u16, flag: u16) -> bool {
    bits & flag == flag
}

/// `a` when `cond` holds, else nothing.
pub open spec fn when(cond: bool, a: Attribute) -> Seq<Attribute> {
    if cond { seq![a] } else { seq![] }
}

/// The attributes to switch, in order, to go from the modifiers `from` to the modifiers `to`:
/// first those that end a removed modifier (bold and dim share one, after which dim comes back if
/// it stays), then those that start an added one.
pub open spec fn modifier_diff_spec(from: Modifier, to: Modifier) -> Seq<Attribute> {
    let r = removed(from, to);
    let a = removed(to, from);
    when(has(r, 64), Attribute::NoReverse)
        + when(has(r, 1), Attribute::NormalIntensity)
        + when(has(r, 1) && has(to.bits, 2), Attribute::Dim)
        + when(has(r, 4), Attribute::NoItalic)
        + when(has(r, 8), Attribute::NoUnderline)
        + when(has(r, 2), Attribute::NormalIntensity)
        + when(has(r, 256), Attribute::NotCrossedOut)
        + when(has(r, 16) || has(r, 32), Attribute::NoBlink)
        + when(has(a, 64), Attribute::Reverse)
        + when(has(a, 1), Attribute::Bold)
        + when(has(a, 4), Attribute::Italic)
        + when(has(a, 8), Attribute::Underlined)
        + when(has(a, 2), Attribute::Dim)
        + when(has(a, 256), Attribute::CrossedOut)
        + when(has(a, 16), Attribute::SlowBlink)
        + when(has(a, 32), Attribute::RapidBlink)
}

fn push_when(v: &mut Vec<Attribute>, cond: bool, a: Attribute)
    ensures final(v)@ == old(v)@ + when(cond, a),
{
    if cond {
        v.push(a);
    }
    assert(v@ =~= old(v)@ + when(cond, a));
}

/// The attributes to switch to go from the modifiers `from` to the modifiers `to`.
pub fn modifier_diff(from: Modifier, to: Modifier) -> (attrs: Vec<Attribute>)
    ensures attrs@ == modifier_diff_spec(from, to),
{
    let removed = from.difference(to);
    let added = to.difference(from);
    let mut v: Vec<Attribute> = Vec::new();
    push_when(&mut v, removed.contains(Modifier::REVERSED()), Attribute::NoReverse);
    push_when(&mut v, removed.contains(Modifier::BOLD()), Attribute::NormalIntensity);
    push_when(&mut v, removed.contains(Modifier::BOLD()) && to.contains(Modifier::DIM()), Attribute::Dim);
    push_when(&mut v, removed.contains(Modifier::ITALIC()), Attribute::NoItalic);
    push_when(&mut v, removed.contains(Modifier::UNDERLINED()), Attribute::NoUnderline);
    push_when(&mut v, removed.contains(Modifier::DIM()), Attribute::NormalIntensity);
    push_when(&mut v, removed.contains(Modifier::CROSSED_OUT()), Attribute::NotCrossedOut);
    push_when(
        &mut v,
        removed.contains(Modifier::SLOW_BLINK()) || removed.contains(Modifier::RAPID_BLINK()),
        Attribute::NoBlink,
    );
    push_when(&mut v, added.contains(Modifier::REVERSED()), Attribute::Reverse);
    push_when(&mut v, added.contains(Modifier::BOLD()), Attribute::Bold);
    push_when(&mut v, added.contains(Modifier::ITALIC()), Attribute::Italic);
    push_when(&mut v, added.contains(Modifier::UNDERLINED()), Attribute::Underlined);
    push_when(&mut v, added.contains(Modifier::DIM()), Attribute::Dim);
    push_when(&mut v, added.contains(Modifier::CROSSED_OUT()), Attribute::CrossedOut);
    push_when(&mut v, added.contains(Modifier::SLOW_BLINK()), Attribute::SlowBlink);
    push_when(&mut v, added.contains(Modifier::RAPID_BLINK()), Attribute::RapidBlink);
    assert(v@ =~= modifier_diff_spec(from, to));
    v
}

/// A command for a terminal that draws cells.
#[derive(Debug, Clone, PartialEq, Eq)]
pub enum DrawCommand<'a> {
    MoveTo(u16, u16),
    SetAttribute(Attribute),
    SetForeground(Color),
    SetBackground(Color),
    Print(&'a String),
    /// Puts the colors and the attributes back to the terminal's own.
    ResetStyle,
}

/// What the terminal is set to while cells are drawn: the position of the last cell drawn, the
/// modifiers, and the two colors.
pub type PenState = (Option<(u16, u16)>, Modifier, Color, Color);

/// The commands that draw one cell at `(x, y)` after the pen state `pen`, and the pen state
/// after them: a move unless the cell is just right of the last one, the attributes that change
/// the modifiers, the colors that change, then the symbol.
pub open spec fn cell_commands<'a>(pen: PenState, x: u16, y: u16, cell: &'a Cell) -> (Seq<DrawCommand<'a>>, PenState) {
    let (last, modifier, fg, bg) = pen;
    let moves = match last {
        Some(p) => !(x == p.0 + 1 && y == p.1),
        None => true,
    };
    let c0: Seq<DrawCommand<'a>> = if moves { seq![DrawCommand::MoveTo(x, y)] } else { seq![] };
    let style = cell.style;
    let c1 = if style.modifier != modifier {
        c0 + modifier_diff_spec(modifier, style.modifier).map_values(|a: Attribute| DrawCommand::SetAttribute(a))
    } else {
        c0
    };
    let c2 = if style.fg != fg { c1.push(DrawCommand::SetForeground(style.fg)) } else { c1 };
    let c3 = if style.bg != bg { c2.push(DrawCommand::SetBackground(style.bg)) } else { c2 };
    (c3.push(DrawCommand::Print(&cell.symbol)), (Some((x, y)), style.modifier, style.fg, style.bg))
}

/// The commands that draw the first `k` cells of `content` from the terminal's own style, and the
/// pen state after them.
pub open spec fn content_commands<'a>(content: Seq<(u16, u16, &'a Cell)>, k: int) -> (Seq<DrawCommand<'a>>, PenState)
    decreases k,
{
    if k <= 0 {
        (seq![], (None, Modifier { bits: 0 }, Color::Reset, Color::Reset))
    } else {
        let (before, pen) = content_commands(content, k - 1);
        let (x, y, cell) = content[k - 1];
        let (more, next) = cell_commands(pen, x, y, cell);
        (before + more, next)
    }
}

/// The commands that draw one cell after the pen state `pen`, and the pen state after them.
fn commands_for_cell<'a>(pen: PenState, x: u16, y: u16, cell: &'a Cell) -> (r: (Vec<DrawCommand<'a>>, PenState))
    ensures
        (r.0@, r.1) == cell_commands(pen, x, y, cell),
{
    let (last, modifier, fg, bg) = pen;
    let mut cmds: Vec<DrawCommand<'a>> = Vec::new();
    let moves = match last {
        Some(p) => !(p.0 < u16::MAX && x == p.0 + 1 && y == p.1),
        None => true,
    };
    if moves {
        cmds.push(DrawCommand::MoveTo(x, y));
    }
    let style = cell.style;
    if style.modifier != modifier {
        let attrs = modifier_diff(modifier, style.modifier);
        let ghost before = cmds@;
        let mut k: usize = 0;
        while k < attrs.len()
            invariant
                k <= attrs@.len(),
                cmds@ == before + attrs@.take(k as int).map_values(|a: Attribute| DrawCommand::SetAttribute(a)),
            decreases attrs@.len() - k,
        {
            cmds.push(DrawCommand::SetAttribute(attrs[k]));
            assert(attrs@.take(k + 1) =~= attrs@.take(k as int).push(attrs@[k as int]));
            assert(cmds@ =~= before + attrs@.take(k + 1).map_values(|a: Attribute| DrawCommand::SetAttribute(a)));
            k = k + 1;
        }
        assert(attrs@.take(attrs@.len() as int) =~= attrs@);
    }
    if style.fg != fg {
        cmds.push(DrawCommand::SetForeground(style.fg));
    }
    if style.bg != bg {
        cmds.push(DrawCommand::SetBackground(style.bg));
    }
    cmds.push(DrawCommand::Print(&cell.symbol));
    (cmds, (Some((x, y)), style.modifier, style.fg, style.bg))
}

/// The commands that draw the cells, each at its position, then put the style back.
pub fn draw_commands<'a>(content: &Vec<(u16, u16, &'a Cell)>) -> (cmds: Vec<DrawCommand<'a>>)
    ensures
        cmds@ == content_commands(content@, content@.len() as int).0.push(DrawCommand::ResetStyle),
{
    let mut cmds: Vec<DrawCommand<'a>> = Vec::new();
    let mut pen: PenState = (None, Modifier::empty(), Color::Reset, Color::Reset);
    let mut i: usize = 0;
    while i < content.len()
        invariant
            i <= content@.len(),
            (cmds@, pen) == content_commands(content@, i as int),
        decreases content@.len() - i,
    {
        let (x, y, cell) = content[i];
        let (mut more, next) = commands_for_cell(pen, x, y, cell);
        let ghost before = cmds@;
        let ghost added = more@;
        cmds.append(&mut more);
        assert(cmds@ =~= before + added);
        pen = next;
        i = i + 1;
    }
    cmds.push(DrawCommand::ResetStyle);
    cmds
}

} // verus!
