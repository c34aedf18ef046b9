//! Widgets whose state takes terminal events: the events, as the terminal layer reports them, and
//! what the state answers to each.
use vstd::prelude::*;

verus! {

/// What became of an event handed to a widget's state: it used the event, or passed it on.
#[derive(Debug, PartialEq, Eq, Structural, Clone, Copy)]
pub enum InteractionOutcome {
    Consumed,
    Bubble,
}

impl InteractionOutcome {
    pub fn is_consumed(&self) -> (r: bool)
        ensures r == (*self == InteractionOutcome::Consumed),
    {
        match self {
            InteractionOutcome::Consumed => true,
            InteractionOutcome::Bubble => false,
        }
    }

    pub fn is_bubble(&self) -> (r: bool)
        ensures r == (*self == InteractionOutcome::Bubble),
    {
        match self {
            InteractionOutcome::Consumed => false,
            InteractionOutcome::Bubble => true,
        }
    }
}

/// The modifier keys held with a key, as bits of a `u8`.
#[derive(Debug, PartialEq, Eq, Structural, Clone, Copy, Hash)]
pub struct KeyModifiers {
    pub bits: u8,
}

#[allow(non_snake_case)]
impl KeyModifiers {
    pub fn SHIFT() -> (m: KeyModifiers)
        ensures m.bits == 1,
    {
        KeyModifiers { bits: 0b0000_0001 }
    }

    pub fn CONTROL() -> (m: KeyModifiers)
        ensures m.bits == 2,
    {
        KeyModifiers { bits: 0b0000_0010 }
    }

    pub fn ALT() -> (m: KeyModifiers)
        ensures m.bits == 4,
    {
        KeyModifiers { bits: 0b0000_0100 }
    }

    pub fn NONE() -> (m: KeyModifiers)
        ensures m.bits == 0,
    {
        KeyModifiers { bits: 0b0000_0000 }
    }
}

/// A key.
#[derive(Debug, PartialEq, Eq, Structural, Clone, Copy, Hash)]
pub enum KeyCode {
    Backspace,
    Enter,
    Left,
    Right,
    Up,
    Down,
    Home,
    End,
    PageUp,
    PageDown,
    Tab,
    BackTab,
    Delete,
    Insert,
    F(u8),
    Char(char),
    Null,
    Esc,
}

/// A key press: the key and the modifiers held with it.
#[derive(Debug, PartialEq, Eq, Structural, Clone, Copy, Hash)]
pub struct KeyEvent {
    pub code: KeyCode,
    pub modifiers: KeyModifiers,
}

impl KeyEvent {
    pub fn new(code: KeyCode, modifiers: KeyModifiers) -> (k: KeyEvent)
        ensures k == (KeyEvent { code, modifiers }),
    {
        KeyEvent { code, modifiers }
    }
}

/// A mouse button.
#[derive(Debug, PartialEq, Eq, Structural, Clone, Copy, Hash)]
pub enum MouseButton {
    Left,
    Right,
    Middle,
}

/// What the mouse did.
#[derive(Debug, PartialEq, Eq, Structural, Clone, Copy, Hash)]
pub enum MouseEventKind {
    Down(MouseButton),
    Up(MouseButton),
    Drag(MouseButton),
    Moved,
    ScrollDown,
    ScrollUp,
}

/// A mouse event, at a cell of the terminal.
#[derive(Debug, PartialEq, Eq, Structural, Clone, Copy, Hash)]
pub struct MouseEvent {
    pub kind: MouseEventKind,
    pub column: u16,
    pub row: u16,
    pub modifiers: KeyModifiers,
}

/// A terminal event.
#[derive(Debug, PartialEq, Eq, Structural, Clone, Copy, Hash)]
pub enum Event {
    Key(KeyEvent),
    Mouse(MouseEvent),
    Resize(u16, u16),
}

/// The state of a widget that takes events and focus.
pub trait InteractiveWidgetState: Sized {
    /// Whether the state can handle `event` in its present form.
    spec fn takes_event(&self, event: Event) -> bool;

    /// Whether the state has the focus.
    spec fn focused(&self) -> bool;

    /// Handles an event; by default the event is passed on and the state is left as it is.
    fn handle_event(&mut self, event: Event) -> (r: InteractionOutcome)
        requires
            old(self).takes_event(event),
        default_ensures
            r == InteractionOutcome::Bubble,
            *final(self) == *old(self),
    {
        InteractionOutcome::Bubble
    }

    fn is_focused(&self) -> (r: bool)
        ensures
            r == self.focused(),
    ;

    fn focus(&mut self);

    /// Takes the focus away.
    fn unfocus(&mut self)
        ensures
            !final(self).focused(),
    ;
}

} // verus!
