use itui::widgets::interactive::{Event, InteractionOutcome, InteractiveWidgetState, KeyCode, KeyEvent, KeyModifiers};
use itui::widgets::text_input::TextInputState;

fn ctrl(c: char) -> Event {
    Event::Key(KeyEvent { code: KeyCode::Char(c), modifiers: KeyModifiers::CONTROL() })
}

fn alt(c: char) -> Event {
    Event::Key(KeyEvent { code: KeyCode::Char(c), modifiers: KeyModifiers::ALT() })
}

fn plain(c: char) -> Event {
    Event::Key(KeyEvent { code: KeyCode::Char(c), modifiers: KeyModifiers::NONE() })
}

fn code(code: KeyCode) -> Event {
    Event::Key(KeyEvent { code, modifiers: KeyModifiers::NONE() })
}

fn bksp() -> Event {
    code(KeyCode::Backspace)
}

#[test]
fn test_basics() {
    let mut state = TextInputState::default();

    // don't change when not focused
    assert_eq!(InteractionOutcome::Bubble, state.handle_event(plain('a')));
    assert_eq!("", state.get_value());
    assert_eq!(0, state.cursor_pos);

    state.focus();
    assert_eq!(InteractionOutcome::Consumed, state.handle_event(code(KeyCode::Left)));
    assert_eq!(0, state.cursor_pos);
    assert_eq!(InteractionOutcome::Consumed, state.handle_event(code(KeyCode::Right)));
    assert_eq!(0, state.cursor_pos);

    assert_eq!(InteractionOutcome::Consumed, state.handle_event(plain('a')));
    assert_eq!("a", state.get_value());
    assert_eq!(1, state.cursor_pos);

    // build up a multi-char value
    state.handle_event(plain('s'));
    state.handle_event(plain('d'));
    state.handle_event(plain('f'));
    assert_eq!("asdf", state.get_value());
    assert_eq!(4, state.cursor_pos);

    // remove from end
    state.handle_event(bksp());
    assert_eq!("asd", state.get_value());
    assert_eq!(3, state.cursor_pos);

    // move cursor to middle
    assert_eq!("asd", state.up_to_cursor());
    state.handle_event(code(KeyCode::Left));
    assert_eq!("as", state.up_to_cursor());
    assert_eq!(2, state.cursor_pos);
    assert_eq!("asd", state.get_value());

    // remove from middle
    state.handle_event(bksp());
    assert_eq!(1, state.cursor_pos);
    assert_eq!("ad", state.get_value());
}

#[test]
fn test_ctrl_w_works() {
    let mut state = TextInputState::default();
    state.focus();

    // ctrl+w word removal, from the end of a word
    state.set_value("foo bar baz   smaz");
    state.set_cursor(18);
    assert_eq!(InteractionOutcome::Consumed, state.handle_event(ctrl('w')));
    assert_eq!("foo bar baz   ", state.get_value());
    assert_eq!(14, state.cursor_pos);

    // remove runs of trailing whitespace + word
    state.handle_event(ctrl('w'));
    assert_eq!("foo bar ", state.get_value());
    assert_eq!(8, state.cursor_pos);

    // remove from middle of word
    state.handle_event(code(KeyCode::Left));
    state.handle_event(code(KeyCode::Left));
    assert_eq!("foo ba", state.up_to_cursor());
    state.handle_event(ctrl('w'));
    assert_eq!("foo r ", state.get_value());
    assert_eq!(4, state.cursor_pos);

    // remove at start of word
    state.handle_event(ctrl('w'));
    assert_eq!("r ", state.get_value());
    assert_eq!(0, state.cursor_pos);

    // remove when buffer is empty
    state.set_value("");
    assert_eq!(0, state.cursor_pos);
    assert_eq!(InteractionOutcome::Consumed, state.handle_event(ctrl('w')));
}

#[test]
fn test_cursor_movement() {
    let mut state = TextInputState::default();
    state.focus();
    state.set_value("foo bar baz");
    state.set_cursor(0);

    assert_eq!(InteractionOutcome::Consumed, state.handle_event(ctrl('e')));
    assert_eq!("foo bar baz", state.get_value());
    assert_eq!(11, state.cursor_pos);

    assert_eq!(InteractionOutcome::Consumed, state.handle_event(ctrl('a')));
    assert_eq!("foo bar baz", state.get_value());
    assert_eq!(0, state.cursor_pos);

    assert_eq!(InteractionOutcome::Consumed, state.handle_event(alt('f')));
    assert_eq!("foo bar baz", state.get_value());
    assert_eq!(4, state.cursor_pos);

    state.handle_event(alt('f'));
    assert_eq!("foo bar baz", state.get_value());
    assert_eq!(8, state.cursor_pos);

    state.handle_event(alt('f'));
    assert_eq!("foo bar baz", state.get_value());
    assert_eq!(11, state.cursor_pos);

    assert_eq!(InteractionOutcome::Consumed, state.handle_event(alt('b')));
    assert_eq!("foo bar baz", state.get_value());
    assert_eq!(8, state.cursor_pos);

    state.handle_event(alt('b'));
    assert_eq!("foo bar baz", state.get_value());
    assert_eq!(4, state.cursor_pos);
}

#[test]
fn cursor_counts_bytes_of_the_value() {
    // The cursor is a byte offset: "é" takes two bytes.
    let state = TextInputState::with_value("é");
    assert_eq!(2, state.cursor_pos);
    assert_eq!("é", state.up_to_cursor());

    let mut state = TextInputState::with_value("héllo");
    assert_eq!(6, state.cursor_pos);
    state.set_value("hé");
    assert_eq!(3, state.cursor_pos);
    state.set_cursor(1);
    assert_eq!("h", state.up_to_cursor());

    state.focus();
    assert_eq!(InteractionOutcome::Consumed, state.handle_event(ctrl('e')));
    assert_eq!(3, state.cursor_pos);
    // Right stops at the last byte.
    state.handle_event(code(KeyCode::Right));
    assert_eq!(3, state.cursor_pos);

    // A character typed at the start of a character goes before it; backspace right after
    // removes it again.
    state.set_cursor(1);
    state.handle_event(plain('ü'));
    assert_eq!("hüé", state.get_value());
    assert_eq!(2, state.cursor_pos);
    state.handle_event(bksp());
    assert_eq!("hé", state.get_value());
    assert_eq!(1, state.cursor_pos);
}

#[test]
fn ctrl_w_stops_at_unicode_white_space() {
    let mut state = TextInputState::with_value("foo\u{3000}bar");
    state.focus();
    state.handle_event(ctrl('w'));
    assert_eq!("foo\u{3000}", state.get_value());
    assert_eq!(4, state.cursor_pos);
}
