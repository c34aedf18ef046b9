//! A one-line text input: the widget's look, and the state that edits its value as keys come in.
//!
//! The cursor is a byte offset into the value's UTF-8 encoding where the value is edited, moved
//! and measured; the word jumps and the deletion of a word count it in characters, which is the
//! same on ASCII text.
use vstd::prelude::*;
use vstd::string::*;
use vstd::utf8::{encode_scalar, encode_utf8};

use crate::buffer::char_string;
use crate::style::{default_style, Color, Modifier, Style};
use crate::text::{Span, Spans, Text};
use crate::unicode::{is_whitespace, white_space};
use crate::widgets::block::Block;
use crate::widgets::interactive::{Event, InteractionOutcome, InteractiveWidgetState, KeyCode, KeyEvent, KeyModifiers};

verus! {

/// A text input field.
pub struct TextInput<'a> {
    /// Block to draw the text input inside - default: None
    pub optional_block: Option<Block<'a>>,
    /// What is shown while the value is empty - default: None
    pub placeholder: Option<Text>,
    /// Render as a read-only input, that is never focused - default: false
    pub is_read_only: bool,
    /// Style to render the widget when focused - default: bold
    pub focused_style: Style,
    /// Style of the displayed text, when not focused
    pub text_style: Style,
}

impl<'a> Default for TextInput<'a> {
    fn default() -> (t: TextInput<'a>)
        ensures
            t.optional_block.is_none(),
            t.placeholder.is_none(),
            !t.is_read_only,
            t.focused_style == (Style { modifier: Modifier { bits: 1 }, ..default_style() }),
            t.text_style == default_style(),
    {
        TextInput {
            optional_block: None,
            placeholder: None,
            is_read_only: false,
            focused_style: Style::new().modifier(Modifier::BOLD()),
            text_style: Style::new(),
        }
    }
}

impl<'a> TextInput<'a> {
    pub fn new() -> (t: TextInput<'a>)
        ensures
            t.optional_block.is_none(),
            t.placeholder.is_none(),
            !t.is_read_only,
            t.focused_style == (Style { modifier: Modifier { bits: 1 }, ..default_style() }),
            t.text_style == default_style(),
    {
        TextInput::default()
    }

    pub fn block(self, block: Block<'a>) -> (t: TextInput<'a>)
        ensures
            t.optional_block == Some(block),
            t.placeholder == self.placeholder,
            t.is_read_only == self.is_read_only,
            t.focused_style == self.focused_style,
            t.text_style == self.text_style,
    {
        let mut t = self;
        t.optional_block = Some(block);
        t
    }

    pub fn read_only(self, read_only: bool) -> (t: TextInput<'a>)
        ensures
            t.optional_block == self.optional_block,
            t.placeholder == self.placeholder,
            t.is_read_only == read_only,
            t.focused_style == self.focused_style,
            t.text_style == self.text_style,
    {
        let mut t = self;
        t.is_read_only = read_only;
        t
    }

    /// Shows `placeholder_text` in black italics while the value is empty.
    pub fn placeholder_text(self, placeholder_text: &str) -> (t: TextInput<'a>)
        ensures
            t.optional_block == self.optional_block,
            t.placeholder matches Some(p) && p.lines@.len() == 1 && p.lines@[0].0@.len() == 1
                && p.lines@[0].0@[0].content@ == placeholder_text@
                && p.lines@[0].0@[0].style == (Style { fg: Color::Black, bg: Color::Reset, modifier: Modifier { bits: 4 } }),
            t.is_read_only == self.is_read_only,
            t.focused_style == self.focused_style,
            t.text_style == self.text_style,
    {
        let style = Style::new().fg(Color::Black).modifier(Modifier::ITALIC());
        let span = Span::styled(placeholder_text, style);
        let mut spans: Vec<Span> = Vec::new();
        spans.push(span);
        let mut lines: Vec<Spans> = Vec::new();
        lines.push(Spans(spans));
        let mut t = self;
        t.placeholder = Some(Text { lines });
        t
    }

    /// Shows `placeholder` while the value is empty.
    pub fn placeholder(self, placeholder: Text) -> (t: TextInput<'a>)
        ensures
            t.optional_block == self.optional_block,
            t.placeholder == Some(placeholder),
            t.is_read_only == self.is_read_only,
            t.focused_style == self.focused_style,
            t.text_style == self.text_style,
    {
        let mut t = self;
        t.placeholder = Some(placeholder);
        t
    }

    pub fn focused_style(self, style: Style) -> (t: TextInput<'a>)
        ensures
            t.optional_block == self.optional_block,
            t.placeholder == self.placeholder,
            t.is_read_only == self.is_read_only,
            t.focused_style == style,
            t.text_style == self.text_style,
    {
        let mut t = self;
        t.focused_style = style;
        t
    }

    pub fn text_style(self, style: Style) -> (t: TextInput<'a>)
        ensures
            t.optional_block == self.optional_block,
            t.placeholder == self.placeholder,
            t.is_read_only == self.is_read_only,
            t.focused_style == self.focused_style,
            t.text_style == style,
    {
        let mut t = self;
        t.text_style = style;
        t
    }
}

/// The value of a text input, where the next key goes, and its focus.
pub struct TextInputState {
    /// The value of the field.
    pub value: String,
    /// Where text is inserted and removed: a byte offset into the value's UTF-8 encoding.
    pub cursor_pos: usize,
    /// Whether the input was focused.
    pub is_focused: bool,
    /// Whether the input can take focus.
    pub can_take_focus: bool,
}

impl Default for TextInputState {
    fn default() -> (s: TextInputState)
        ensures
            s.value@ == Seq::<char>::empty(),
            s.cursor_pos == 0,
            !s.is_focused,
            s.can_take_focus,
    {
        TextInputState { value: String::new(), cursor_pos: 0, is_focused: false, can_take_focus: true }
    }
}

/// Whether, in `v`, a run of white space ends at `idx` and a word starts right after it.
pub open spec fn is_word_start(v: Seq<char>, idx: int) -> bool {
    0 <= idx && idx + 1 < v.len() && white_space(v[idx]) && !white_space(v[idx + 1])
}

/// Whether, in `v`, a word ends at `idx` and white space follows it.
pub open spec fn is_word_end(v: Seq<char>, idx: int) -> bool {
    0 <= idx && idx + 1 < v.len() && !white_space(v[idx]) && white_space(v[idx + 1])
}

/// The start of the last word that starts after one of the first `n` characters of `v` (the
/// character after that one); `0` when there is none.
pub open spec fn word_start_before(v: Seq<char>, n: int) -> int
    decreases n,
{
    if n <= 0 {
        0
    } else if is_word_start(v, n - 1) {
        n
    } else {
        word_start_before(v, n - 1)
    }
}

/// Two past the end of the first word that ends at `i` or after it, which puts it after the white
/// space that follows; the value's length in bytes when there is none.
pub open spec fn word_end_from(v: Seq<char>, i: int) -> int
    decreases v.len() - i,
{
    if i < 0 || i + 1 >= v.len() {
        byte_len(v)
    } else if is_word_end(v, i) {
        i + 2
    } else {
        word_end_from(v, i + 1)
    }
}

/// Where the cursor goes when it jumps back a word: the start of the last word that starts
/// strictly before the character just behind the cursor.
pub open spec fn previous_word_start(v: Seq<char>, cursor: int) -> int {
    word_start_before(v, if cursor >= 1 { cursor - 1 } else { 0 })
}

/// What a key without modifiers does to the value and the cursor, and whether the key was used:
/// backspace steps the cursor back a byte and removes the character that starts there; a
/// character is inserted where the cursor's byte offset starts a character, and the cursor steps
/// forward a byte; left and right step the cursor a byte, within the value's bytes.
pub open spec fn plain_effect(v: Seq<char>, c: int, code: KeyCode) -> (Seq<char>, int, bool) {
    match code {
        KeyCode::Backspace => if c > 0 {
            let k = char_at_byte(v, c - 1);
            (v.take(k) + v.skip(k + 1), c - 1, true)
        } else {
            (v, c, true)
        },
        KeyCode::Char(ch) => {
            let k = char_at_byte(v, c);
            (v.take(k).push(ch) + v.skip(k), c + 1, true)
        },
        KeyCode::Left => (v, if c > 0 { c - 1 } else { c }, true),
        KeyCode::Right => (v, if c < byte_len(v) { c + 1 } else { c }, true),
        _ => (v, c, false),
    }
}

/// What a key held with Control or Alt does to the value and the cursor, and whether it was
/// used: Control-W deletes back to the start of the word, Control-E and Control-A jump to the
/// end and the start, Alt-B and Alt-F jump a word back and forward.
pub open spec fn modifier_effect(v: Seq<char>, c: int, modifiers: KeyModifiers, code: KeyCode) -> (Seq<char>, int, bool) {
    let control = modifiers.bits == 2;
    let alt = modifiers.bits == 4;
    match code {
        KeyCode::Char(ch) => if control && ch == 'w' {
            let from = previous_word_start(v, c);
            let to = if c < v.len() { c } else { v.len() as int };
            (v.subrange(0, from) + v.subrange(to, v.len() as int), from, true)
        } else if control && ch == 'e' {
            (v, byte_len(v), true)
        } else if control && ch == 'a' {
            (v, 0, true)
        } else if alt && ch == 'b' {
            (v, previous_word_start(v, c), true)
        } else if alt && ch == 'f' {
            (v, word_end_from(v, c), true)
        } else {
            (v, c, false)
        },
        _ => (v, c, false),
    }
}

/// Whether the modifiers are Alt alone or Control alone.
pub open spec fn alt_or_control(m: KeyModifiers) -> bool {
    m.bits == 4 || m.bits == 2
}

/// What a key does to the value and the cursor, and whether it was used.
pub open spec fn key_effect(v: Seq<char>, c: int, key: KeyEvent) -> (Seq<char>, int, bool) {
    if alt_or_control(key.modifiers) {
        modifier_effect(v, c, key.modifiers, key.code)
    } else {
        plain_effect(v, c, key.code)
    }
}

/// Whether a key edits the value at the cursor: a plain character or backspace.
pub open spec fn edits_at_cursor(key: KeyEvent) -> bool {
    !alt_or_control(key.modifiers) && (key.code is Backspace || key.code is Char)
}

/// Whether a key that edits the value can do so at the cursor: backspace needs a character to
/// start one byte before the cursor, and a character needs the cursor at the start of a character
/// or at the end, below `usize::MAX`.
pub open spec fn edit_fits(v: Seq<char>, c: int, key: KeyEvent) -> bool {
    edits_at_cursor(key) ==> match key.code {
        KeyCode::Backspace => c > 0 ==> exists|k: int| #[trigger] starts_char(v, c - 1, k) && k < v.len(),
        _ => c < usize::MAX && exists|k: int| starts_char(v, c, k),
    }
}

/// The length in bytes of the UTF-8 encoding of `v`.
pub open spec fn byte_len(v: Seq<char>) -> int {
    encode_utf8(v).len() as int
}

/// The byte offset at which the character `k` of `v` starts: the length of the encoding of the
/// characters before it.
pub open spec fn byte_pos(v: Seq<char>, k: int) -> int {
    byte_len(v.take(k))
}

/// Whether the byte offset `b` is where the character `k` of `v` starts (or the end, for
/// `k == v.len()`).
pub open spec fn starts_char(v: Seq<char>, b: int, k: int) -> bool {
    0 <= k <= v.len() && byte_pos(v, k) == b
}

/// The character at whose start the byte offset `b` lies.
pub open spec fn char_at_byte(v: Seq<char>, b: int) -> int {
    choose|k: int| starts_char(v, b, k)
}

/// The encoding of two sequences of characters one after the other is the two encodings one
/// after the other.
proof fn lemma_encode_concat(a: Seq<char>, b: Seq<char>)
    ensures
        encode_utf8(a + b) == encode_utf8(a) + encode_utf8(b),
    decreases a.len(),
{
    if a.len() == 0 {
        assert(a + b =~= b);
        assert(encode_utf8(a) =~= Seq::<u8>::empty());
        assert(encode_utf8(a) + encode_utf8(b) =~= encode_utf8(b));
    } else {
        assert((a + b).drop_first() =~= a.drop_first() + b);
        assert((a + b)[0] == a[0]);
        lemma_encode_concat(a.drop_first(), b);
        assert(encode_utf8(a + b) =~= encode_utf8(a) + encode_utf8(b));
    }
}

/// A character takes one to four bytes.
proof fn lemma_scalar_len(c: char)
    ensures
        1 <= encode_scalar(c as u32).len() <= 4,
{
}

/// The encoding of one character is that of the character.
proof fn lemma_encode_one(c: char)
    ensures
        encode_utf8(seq![c]) == encode_scalar(c as u32),
{
    assert(seq![c].drop_first() =~= Seq::<char>::empty());
    assert(encode_utf8(Seq::<char>::empty()) =~= Seq::<u8>::empty());
    assert(encode_utf8(seq![c]) =~= encode_scalar(c as u32));
}

/// Each character moves the byte offset forward by its length.
proof fn lemma_byte_pos_step(v: Seq<char>, k: int)
    requires
        0 <= k < v.len(),
    ensures
        byte_pos(v, k + 1) == byte_pos(v, k) + encode_scalar(v[k] as u32).len(),
{
    assert(v.take(k + 1) =~= v.take(k) + seq![v[k]]);
    lemma_encode_concat(v.take(k), seq![v[k]]);
    lemma_encode_one(v[k]);
}

/// The byte offsets of the characters grow strictly, and each is at least the character's index.
proof fn lemma_byte_pos_grows(v: Seq<char>, j: int, k: int)
    requires
        0 <= j <= k <= v.len(),
    ensures
        byte_pos(v, j) + (k - j) <= byte_pos(v, k),
        j <= byte_pos(v, j),
    decreases k,
{
    if j < k {
        lemma_byte_pos_grows(v, j, k - 1);
        lemma_byte_pos_step(v, k - 1);
        lemma_scalar_len(v[k - 1]);
    } else {
        lemma_byte_pos_from_start(v, j);
    }
}

/// The character `j` starts at a byte offset of at least `j`.
proof fn lemma_byte_pos_from_start(v: Seq<char>, j: int)
    requires
        0 <= j <= v.len(),
    ensures
        j <= byte_pos(v, j),
    decreases j,
{
    if j == 0 {
        assert(v.take(0) =~= Seq::<char>::empty());
        assert(encode_utf8(Seq::<char>::empty()) =~= Seq::<u8>::empty());
    } else {
        lemma_byte_pos_from_start(v, j - 1);
        lemma_byte_pos_step(v, j - 1);
        lemma_scalar_len(v[j - 1]);
    }
}

/// At most one character starts at a byte offset, and `char_at_byte` finds it.
proof fn lemma_char_at_byte(v: Seq<char>, b: int, k: int)
    requires
        starts_char(v, b, k),
    ensures
        char_at_byte(v, b) == k,
{
    let j = char_at_byte(v, b);
    assert(starts_char(v, b, j));
    if j < k {
        lemma_byte_pos_grows(v, j, k);
    } else if k < j {
        lemma_byte_pos_grows(v, k, j);
    }
}

/// The whole value ends at its byte length, which is at least its length.
proof fn lemma_byte_len(v: Seq<char>)
    ensures
        byte_pos(v, v.len() as int) == byte_len(v),
        v.len() <= byte_len(v),
{
    assert(v.take(v.len() as int) =~= v);
    lemma_byte_pos_grows(v, 0, v.len() as int);
    assert(v.take(0) =~= Seq::<char>::empty());
    assert(encode_utf8(Seq::<char>::empty()) =~= Seq::<u8>::empty());
}

/// The length in bytes of a string's UTF-8 encoding.
fn byte_length(s: &str) -> (n: usize)
    ensures
        n == byte_len(s@),
{
    s.as_bytes().len()
}

/// The number of bytes of a character's UTF-8 encoding.
fn utf8_len(c: char) -> (n: usize)
    ensures
        n == encode_scalar(c as u32).len(),
{
    let u = c as u32;
    if u <= 0x7F {
        1
    } else if u <= 0x7FF {
        2
    } else if u <= 0xFFFF {
        3
    } else {
        4
    }
}

/// The character of `chars` that starts at byte offset `b`, if one does.
fn char_index_at(chars: &Vec<char>, b: usize) -> (r: Option<usize>)
    ensures
        match r {
            Some(k) => starts_char(chars@, b as int, k as int),
            None => !exists|k: int| starts_char(chars@, b as int, k),
        },
{
    let len = chars.len();
    let mut k: usize = 0;
    let mut pos: u128 = 0;
    proof {
        assert(chars@.take(0) =~= Seq::<char>::empty());
        assert(encode_utf8(Seq::<char>::empty()) =~= Seq::<u8>::empty());
    }
    while k < len && pos < b as u128
        invariant
            len == chars@.len(),
            k <= len,
            pos == byte_pos(chars@, k as int),
            k > 0 ==> byte_pos(chars@, k - 1) < b,
        decreases len - k,
    {
        proof {
            lemma_byte_pos_step(chars@, k as int);
        }
        pos = pos + utf8_len(chars[k]) as u128;
        k = k + 1;
    }
    if pos == b as u128 {
        Some(k)
    } else {
        proof {
            assert forall|j: int| !#[trigger] starts_char(chars@, b as int, j) by {
                if 0 <= j <= len {
                    if j < k {
                        lemma_byte_pos_grows(chars@, j, k - 1);
                    } else {
                        lemma_byte_pos_grows(chars@, k as int, j);
                    }
                }
            }
        }
        None
    }
}

impl TextInputState {
    /// A state holding `value`, with the cursor at its end: its length in bytes.
    pub fn with_value(value: &str) -> (s: TextInputState)
        ensures
            s.value@ == value@,
            s.cursor_pos == byte_len(value@),
            !s.is_focused,
            s.can_take_focus,
    {
        TextInputState {
            value: String::from_str(value),
            cursor_pos: byte_length(value),
            is_focused: false,
            can_take_focus: true,
        }
    }

    pub open spec fn spec_is_focused(&self) -> bool {
        self.can_take_focus && self.is_focused
    }

    /// Allows or forbids focus; forbidding it also takes the focus away.
    pub fn can_take_focus(&mut self, can_take_focus: bool)
        ensures
            final(self).value == old(self).value,
            final(self).cursor_pos == old(self).cursor_pos,
            final(self).can_take_focus == can_take_focus,
            final(self).is_focused == (can_take_focus && old(self).is_focused),
    {
        self.can_take_focus = can_take_focus;
        if !can_take_focus {
            self.unfocus();
        }
    }

    pub fn is_focused(&self) -> (r: bool)
        ensures r == self.spec_is_focused(),
    {
        self.can_take_focus && self.is_focused
    }

    /// Takes the focus, if the input can take it.
    pub fn focus(&mut self)
        ensures
            final(self).value == old(self).value,
            final(self).cursor_pos == old(self).cursor_pos,
            final(self).can_take_focus == old(self).can_take_focus,
            final(self).is_focused == (old(self).can_take_focus || old(self).is_focused),
    {
        if self.can_take_focus {
            self.is_focused = true;
        }
    }

    pub fn unfocus(&mut self)
        ensures
            final(self).value == old(self).value,
            final(self).cursor_pos == old(self).cursor_pos,
            final(self).can_take_focus == old(self).can_take_focus,
            !final(self).is_focused,
    {
        self.is_focused = false;
    }

    /// Replaces the value; the cursor moves back to its end, its length in bytes, if it was
    /// beyond it.
    pub fn set_value(&mut self, val: &str)
        ensures
            final(self).value@ == val@,
            final(self).cursor_pos == if old(self).cursor_pos <= byte_len(val@) { old(self).cursor_pos as int } else { byte_len(val@) },
            final(self).is_focused == old(self).is_focused,
            final(self).can_take_focus == old(self).can_take_focus,
    {
        self.value = String::from_str(val);
        let len = byte_length(val);
        if len < self.cursor_pos {
            self.cursor_pos = len;
        }
    }

    /// Puts the cursor at `pos`, which is not checked against the value.
    pub fn set_cursor(&mut self, pos: usize)
        ensures
            final(self).value == old(self).value,
            final(self).cursor_pos == pos,
            final(self).is_focused == old(self).is_focused,
            final(self).can_take_focus == old(self).can_take_focus,
    {
        self.cursor_pos = pos;
    }

    pub fn get_value(&self) -> (v: &String)
        ensures v == &self.value,
    {
        &self.value
    }

    /// The part of the value before the cursor: the characters whose bytes come before it. The
    /// cursor must stand at the start of a character or at the end.
    pub fn up_to_cursor(&self) -> (s: &str)
        requires
            exists|k: int| starts_char(self.value@, self.cursor_pos as int, k),
        ensures
            s@ == self.value@.take(char_at_byte(self.value@, self.cursor_pos as int)),
            byte_len(s@) == self.cursor_pos,
    {
        let chars = self.value_chars();
        let k = match char_index_at(&chars, self.cursor_pos) {
            Some(k) => k,
            None => 0,
        };
        proof {
            lemma_char_at_byte(self.value@, self.cursor_pos as int, k as int);
        }
        let s = self.value.as_str().substring_char(0, k);
        assert(s@ =~= self.value@.take(k as int));
        s
    }

    /// The characters of the value.
    fn value_chars(&self) -> (chars: Vec<char>)
        ensures chars@ == self.value@,
    {
        let s = self.value.as_str();
        let len = s.unicode_len();
        let mut chars: Vec<char> = Vec::new();
        for i in 0..len
            invariant
                len == s@.len(),
                s@ == self.value@,
                chars@ == s@.subrange(0, i as int),
        {
            chars.push(s.get_char(i));
            assert(chars@ =~= s@.subrange(0, i + 1));
        }
        assert(chars@ =~= s@);
        chars
    }

    /// Where a jump over a word lands: backwards, the start of the previous word; forwards, past
    /// the white space that ends the next word.
    fn word_boundary_idx_under_cursor(&self, scan_backwards: bool) -> (idx: usize)
        ensures
            scan_backwards ==> idx == previous_word_start(self.value@, self.cursor_pos as int),
            !scan_backwards ==> idx == word_end_from(self.value@, self.cursor_pos as int),
    {
        let chars = self.value_chars();
        let len = chars.len();
        if scan_backwards {
            let n = if self.cursor_pos >= 1 { self.cursor_pos - 1 } else { 0 };
            let mut k = if n < len { n } else { len };
            proof {
                lemma_word_start_clamped(self.value@, n as int);
            }
            while k > 0
                invariant
                    scan_backwards,
                    n == (if self.cursor_pos >= 1 { self.cursor_pos - 1 } else { 0 }),
                    k <= len,
                    len == chars@.len(),
                    chars@ == self.value@,
                    word_start_before(self.value@, n as int) == word_start_before(self.value@, k as int),
                decreases k,
            {
                let idx = k - 1;
                if idx + 1 < len && is_whitespace(chars[idx]) && !is_whitespace(chars[idx + 1]) {
                    return k;
                }
                k = k - 1;
            }
            0
        } else {
            let mut i = self.cursor_pos;
            while i < len && i + 1 < len
                invariant
                    !scan_backwards,
                    len == chars@.len(),
                    chars@ == self.value@,
                    word_end_from(self.value@, self.cursor_pos as int) == word_end_from(self.value@, i as int),
                decreases len - i,
            {
                if !is_whitespace(chars[i]) && is_whitespace(chars[i + 1]) {
                    return i + 2;
                }
                i = i + 1;
            }
            byte_length(self.value.as_str())
        }
    }

    /// Handles a key held with Alt or Control.
    fn handle_modifiers(&mut self, modifiers: KeyModifiers, code: KeyCode) -> (r: InteractionOutcome)
        ensures
            ({
                let (v, c, used) = modifier_effect(old(self).value@, old(self).cursor_pos as int, modifiers, code);
                &&& final(self).value@ == v
                &&& final(self).cursor_pos == c
                &&& r == if used { InteractionOutcome::Consumed } else { InteractionOutcome::Bubble }
            }),
            final(self).is_focused == old(self).is_focused,
            final(self).can_take_focus == old(self).can_take_focus,
    {
        let control = modifiers.bits == 2;
        let alt = modifiers.bits == 4;
        match code {
            KeyCode::Char(ch) => {
                if control && ch == 'w' {
                    let len = self.value.as_str().unicode_len();
                    let remove_to = if self.cursor_pos < len { self.cursor_pos } else { len };
                    let remove_from = self.word_boundary_idx_under_cursor(true);
                    proof {
                        lemma_word_start_bounds(self.value@, if self.cursor_pos >= 1 { self.cursor_pos - 1 } else { 0 });
                    }
                    let s = self.value.as_str();
                    let value = String::from_str(s.substring_char(0, remove_from)).concat(s.substring_char(remove_to, len));
                    self.cursor_pos = remove_from;
                    self.value = value;
                } else if control && ch == 'e' {
                    self.cursor_pos = byte_length(self.value.as_str());
                } else if control && ch == 'a' {
                    self.cursor_pos = 0;
                } else if alt && ch == 'b' {
                    self.cursor_pos = self.word_boundary_idx_under_cursor(true);
                } else if alt && ch == 'f' {
                    self.cursor_pos = self.word_boundary_idx_under_cursor(false);
                } else {
                    return InteractionOutcome::Bubble;
                }
            },
            _ => {
                return InteractionOutcome::Bubble;
            },
        }
        InteractionOutcome::Consumed
    }

    /// Handles a key without modifiers.
    fn handle_plain(&mut self, code: KeyCode) -> (r: InteractionOutcome)
        requires
            edit_fits(old(self).value@, old(self).cursor_pos as int, KeyEvent { code, modifiers: KeyModifiers { bits: 0 } }),
        ensures
            ({
                let (v, c, used) = plain_effect(old(self).value@, old(self).cursor_pos as int, code);
                &&& final(self).value@ == v
                &&& final(self).cursor_pos == c
                &&& r == if used { InteractionOutcome::Consumed } else { InteractionOutcome::Bubble }
            }),
            final(self).is_focused == old(self).is_focused,
            final(self).can_take_focus == old(self).can_take_focus,
    {
        match code {
            KeyCode::Backspace => {
                if self.cursor_pos > 0 {
                    let c = self.cursor_pos - 1;
                    let chars = self.value_chars();
                    let k = match char_index_at(&chars, c) {
                        Some(k) => k,
                        None => 0,
                    };
                    proof {
                        let w = choose|j: int| starts_char(self.value@, c as int, j) && j < self.value@.len();
                        lemma_char_at_byte(self.value@, c as int, w);
                        lemma_char_at_byte(self.value@, c as int, k as int);
                    }
                    let s = self.value.as_str();
                    let len = s.unicode_len();
                    let value = String::from_str(s.substring_char(0, k)).concat(s.substring_char(k + 1, len));
                    proof {
                        assert(value@ =~= self.value@.take(k as int) + self.value@.skip(k + 1));
                    }
                    self.cursor_pos = c;
                    self.value = value;
                }
            },
            KeyCode::Char(ch) => {
                let c = self.cursor_pos;
                let chars = self.value_chars();
                let k = match char_index_at(&chars, c) {
                    Some(k) => k,
                    None => 0,
                };
                proof {
                    lemma_char_at_byte(self.value@, c as int, k as int);
                }
                let s = self.value.as_str();
                let len = s.unicode_len();
                let inserted = char_string(ch);
                let value = String::from_str(s.substring_char(0, k)).concat(inserted.as_str()).concat(
                    s.substring_char(k, len),
                );
                proof {
                    assert(value@ =~= self.value@.take(k as int).push(ch) + self.value@.skip(k as int));
                }
                self.cursor_pos = c + 1;
                self.value = value;
            },
            KeyCode::Left => {
                if self.cursor_pos > 0 {
                    self.cursor_pos = self.cursor_pos - 1;
                }
            },
            KeyCode::Right => {
                if self.cursor_pos < byte_length(self.value.as_str()) {
                    self.cursor_pos = self.cursor_pos + 1;
                }
            },
            _ => {
                return InteractionOutcome::Bubble;
            },
        }
        InteractionOutcome::Consumed
    }

    /// Handles a key: with Alt or Control alone as modifiers, as a command; else as plain input.
    fn handle_key(&mut self, key: KeyEvent) -> (r: InteractionOutcome)
        requires
            edit_fits(old(self).value@, old(self).cursor_pos as int, key),
        ensures
            ({
                let (v, c, used) = key_effect(old(self).value@, old(self).cursor_pos as int, key);
                &&& final(self).value@ == v
                &&& final(self).cursor_pos == c
                &&& r == if used { InteractionOutcome::Consumed } else { InteractionOutcome::Bubble }
            }),
            final(self).is_focused == old(self).is_focused,
            final(self).can_take_focus == old(self).can_take_focus,
    {
        if key.modifiers == KeyModifiers::ALT() || key.modifiers == KeyModifiers::CONTROL() {
            self.handle_modifiers(key.modifiers, key.code)
        } else {
            self.handle_plain(key.code)
        }
    }
}

/// What an event does to the value and the cursor of a state that has `focused` as its focus, and
/// whether it was used: an unfocused input passes every event on, and a focused one handles keys.
pub open spec fn event_effect(v: Seq<char>, c: int, focused: bool, event: Event) -> (Seq<char>, int, bool) {
    if !focused {
        (v, c, false)
    } else {
        match event {
            Event::Key(key) => key_effect(v, c, key),
            _ => (v, c, false),
        }
    }
}

impl InteractiveWidgetState for TextInputState {
    open spec fn focused(&self) -> bool {
        self.spec_is_focused()
    }

    open spec fn takes_event(&self, event: Event) -> bool {
        self.spec_is_focused() ==> (event matches Event::Key(key) ==> edit_fits(self.value@, self.cursor_pos as int, key))
    }

    fn handle_event(&mut self, event: Event) -> (r: InteractionOutcome)
        ensures
            ({
                let (v, c, used) = event_effect(old(self).value@, old(self).cursor_pos as int, old(self).spec_is_focused(), event);
                &&& final(self).value@ == v
                &&& final(self).cursor_pos == c
                &&& r == if used { InteractionOutcome::Consumed } else { InteractionOutcome::Bubble }
            }),
            final(self).is_focused == old(self).is_focused,
            final(self).can_take_focus == old(self).can_take_focus,
    {
        if !self.is_focused() {
            return InteractionOutcome::Bubble;
        }
        match event {
            Event::Key(key) => self.handle_key(key),
            _ => InteractionOutcome::Bubble,
        }
    }

    fn is_focused(&self) -> (r: bool)
        ensures
            r == self.spec_is_focused(),
    {
        TextInputState::is_focused(self)
    }

    /// Takes the focus, if the input can take it.
    fn focus(&mut self)
        ensures
            final(self).value == old(self).value,
            final(self).cursor_pos == old(self).cursor_pos,
            final(self).can_take_focus == old(self).can_take_focus,
            final(self).is_focused == (old(self).can_take_focus || old(self).is_focused),
    {
        TextInputState::focus(self)
    }

    fn unfocus(&mut self)
        ensures
            final(self).value == old(self).value,
            final(self).cursor_pos == old(self).cursor_pos,
            final(self).can_take_focus == old(self).can_take_focus,
            !final(self).is_focused,
    {
        TextInputState::unfocus(self)
    }
}

/// Past the last pair of characters no word starts, so the search can start there.
proof fn lemma_word_start_clamped(v: Seq<char>, n: int)
    ensures
        word_start_before(v, n) == word_start_before(v, if n < v.len() { n } else { v.len() as int }),
    decreases n,
{
    if n > v.len() {
        lemma_word_start_clamped(v, n - 1);
    }
}

/// A word start found before `n` characters lies between `0` and `n`, and within the value.
proof fn lemma_word_start_bounds(v: Seq<char>, n: int)
    ensures
        0 <= word_start_before(v, n),
        n >= 0 ==> word_start_before(v, n) <= n,
        word_start_before(v, n) <= v.len(),
    decreases n,
{
    if n > 0 && !is_word_start(v, n - 1) {
        lemma_word_start_bounds(v, n - 1);
    }
}

/// A forward word jump lands at or after the cursor, and within the value's bytes.
proof fn lemma_word_end_bounds(v: Seq<char>, i: int)
    requires
        0 <= i,
    ensures
        word_end_from(v, i) <= byte_len(v),
        i <= v.len() ==> i <= word_end_from(v, i),
    decreases v.len() - i,
{
    lemma_byte_len(v);
    if i + 1 < v.len() && !is_word_end(v, i) {
        lemma_word_end_bounds(v, i + 1);
    }
}

/// Every event leaves the cursor of a text input within the bytes of its value, when it was
/// there before and the event's edit fits the cursor.
pub proof fn lemma_event_keeps_cursor_in_value(v: Seq<char>, c: int, focused: bool, event: Event)
    requires
        0 <= c <= byte_len(v),
        event matches Event::Key(key) ==> edit_fits(v, c, key),
    ensures
        0 <= event_effect(v, c, focused, event).1 <= byte_len(event_effect(v, c, focused, event).0),
{
    lemma_word_start_bounds(v, if c >= 1 { c - 1 } else { 0 });
    lemma_word_end_bounds(v, c);
    lemma_byte_len(v);
    let (v2, c2, _) = event_effect(v, c, focused, event);
    lemma_byte_len(v2);
    if focused && event is Key {
        let key = event->Key_0;
        if !alt_or_control(key.modifiers) {
            match key.code {
                KeyCode::Backspace => {
                    if c > 0 {
                        let w = choose|j: int| #[trigger] starts_char(v, c - 1, j) && j < v.len();
                        lemma_char_at_byte(v, c - 1, w);
                        let k = w;
                        lemma_encode_concat(v.take(k), v.skip(k + 1));
                        assert(v2 == v.take(k) + v.skip(k + 1));
                    }
                },
                KeyCode::Char(ch) => {
                    let w = choose|j: int| starts_char(v, c, j);
                    lemma_char_at_byte(v, c, w);
                    let k = w;
                    lemma_encode_concat(v.take(k).push(ch), v.skip(k));
                    assert(v.take(k).push(ch) =~= v.take(k) + seq![ch]);
                    lemma_encode_concat(v.take(k), seq![ch]);
                    lemma_encode_one(ch);
                    lemma_scalar_len(ch);
                },
                _ => {},
            }
        }
    }
}

/// Backspace right after typing a character gives back the value and the cursor from before,
/// wherever a character can be typed.
pub proof fn lemma_backspace_undoes_char(v: Seq<char>, c: int, ch: char)
    requires
        exists|k: int| starts_char(v, c, k),
    ensures
        ({
            let (v1, c1, _) = plain_effect(v, c, KeyCode::Char(ch));
            let (v2, c2, _) = plain_effect(v1, c1, KeyCode::Backspace);
            v2 == v && c2 == c
        }),
{
    let w = choose|j: int| starts_char(v, c, j);
    lemma_char_at_byte(v, c, w);
    let k = w;
    let (v1, c1, _) = plain_effect(v, c, KeyCode::Char(ch));
    assert(v1 == v.take(k).push(ch) + v.skip(k));
    assert(v1.take(k) =~= v.take(k));
    assert(starts_char(v1, c, k));
    lemma_char_at_byte(v1, c, k);
    assert(v1.take(k) + v1.skip(k + 1) =~= v);
}

} // verus!
