//! Keys and the mouse, the line that is typed, and what a key asks for.

use vstd::prelude::*;
use vstd::utf8::{encode_scalar, encode_utf8};

use crate::text::{chars_of, skip_chars, string_of, take_chars};
use crate::tui::routes::{hint_key, Focus, UiAction};

verus! {

#[derive(Clone, Copy, Debug, PartialEq, Eq, Structural)]
pub enum KeyCode {
    Backspace,
    Enter,
    Left,
    Right,
    Up,
    Down,
    Home,
    End,
    PageUp,
    PageDown,
    Tab,
    BackTab,
    Delete,
    Esc,
    F(u8),
    Char(char),
    /// Any other key.
    Other,
}

#[derive(Clone, Copy, Debug, PartialEq, Eq, Structural)]
pub struct KeyModifiers {
    pub shift: bool,
    pub control: bool,
    pub alt: bool,
}

#[derive(Clone, Copy, Debug, PartialEq, Eq, Structural)]
pub struct KeyEvent {
    pub code: KeyCode,
    pub modifiers: KeyModifiers,
}

impl KeyEvent {
    pub fn new(code: KeyCode, modifiers: KeyModifiers) -> (r: KeyEvent)
        ensures
            r.code == code,
            r.modifiers == modifiers,
    {
        KeyEvent { code, modifiers }
    }

    /// A key without a modifier.
    pub fn plain(code: KeyCode) -> (r: KeyEvent)
        ensures
            r == plain_key(code),
    {
        KeyEvent { code, modifiers: KeyModifiers { shift: false, control: false, alt: false } }
    }
}

pub open spec fn plain_key(code: KeyCode) -> KeyEvent {
    KeyEvent { code, modifiers: KeyModifiers { shift: false, control: false, alt: false } }
}

#[derive(Clone, Copy, Debug, PartialEq, Eq, Structural)]
pub enum MouseEventKind {
    /// The left button goes down.
    Press,
    ScrollUp,
    ScrollDown,
    /// Anything else.
    Other,
}

#[derive(Clone, Copy, Debug, PartialEq, Eq, Structural)]
pub struct MouseEvent {
    pub kind: MouseEventKind,
    pub column: u16,
    pub row: u16,
}

// The line that is typed.

#[derive(Clone, Copy, Debug, PartialEq, Eq, Structural)]
pub enum InputEdit {
    Continue,
    Submit,
}

/// The bytes that a text takes.
pub open spec fn byte_len(s: Seq<char>) -> nat {
    encode_utf8(s).len()
}

/// The bytes that a character takes.
pub open spec fn char_bytes(c: char) -> nat {
    encode_scalar(c as u32).len()
}

/// How many characters of a text stand before a position that is counted in
/// bytes.
pub open spec fn chars_before(s: Seq<char>, cursor: nat) -> int
    decreases s.len(),
{
    if s.len() == 0 || char_bytes(s[0]) > cursor {
        0
    } else {
        1 + chars_before(s.drop_first(), (cursor - char_bytes(s[0])) as nat)
    }
}

/// Whether a position that is counted in bytes stands between two characters
/// of a text, or at one of its ends.
pub open spec fn is_boundary(s: Seq<char>, cursor: nat) -> bool {
    byte_len(s.take(chars_before(s, cursor))) == cursor
}

/// A line and the position in it, counted in bytes. A position within a
/// character stands for the one before it, and one behind the line for its end.
#[verifier::ext_equal]
pub struct Line {
    pub text: Seq<char>,
    pub cursor: nat,
}

/// The position one character before.
pub open spec fn previous_of(text: Seq<char>, cursor: nat) -> nat {
    let k = chars_before(text, cursor);
    if k > 0 {
        byte_len(text.take(k - 1))
    } else {
        0
    }
}

/// The position one character on.
pub open spec fn next_of(text: Seq<char>, cursor: nat) -> nat {
    let k = chars_before(text, cursor);
    if k < text.len() {
        byte_len(text.take(k + 1))
    } else {
        byte_len(text)
    }
}

impl Line {
    /// The line after a key: only plain keys and those with shift change it.
    pub open spec fn edited(self, key: KeyEvent) -> Line {
        let k = chars_before(self.text, self.cursor);
        if key.modifiers.control || key.modifiers.alt {
            self
        } else {
            match key.code {
                KeyCode::Left => Line { cursor: previous_of(self.text, self.cursor), ..self },
                KeyCode::Right => Line { cursor: next_of(self.text, self.cursor), ..self },
                KeyCode::Home => Line { cursor: 0, ..self },
                KeyCode::End => Line { cursor: byte_len(self.text), ..self },
                KeyCode::Backspace => if k > 0 {
                    Line { text: self.text.remove(k - 1), cursor: previous_of(self.text, self.cursor) }
                } else {
                    self
                },
                KeyCode::Delete => if k < self.text.len() {
                    Line { text: self.text.remove(k), ..self }
                } else {
                    self
                },
                KeyCode::Char(c) => Line {
                    text: self.text.insert(k, c),
                    cursor: byte_len(self.text.take(k)) + char_bytes(c),
                },
                _ => self,
            }
        }
    }
}

proof fn lemma_byte_len_concat(a: Seq<char>, b: Seq<char>)
    ensures
        byte_len(a + b) == byte_len(a) + byte_len(b),
    decreases a.len(),
{
    if a.len() == 0 {
        assert(a + b =~= b);
    } else {
        lemma_byte_len_concat(a.drop_first(), b);
        assert((a + b).drop_first() =~= a.drop_first() + b);
    }
}

proof fn lemma_byte_len_push(a: Seq<char>, c: char)
    ensures
        byte_len(a.push(c)) == byte_len(a) + char_bytes(c),
{
    lemma_byte_len_concat(a, seq![c]);
    assert(a + seq![c] =~= a.push(c));
    assert(seq![c].drop_first() =~= Seq::empty());
    assert(encode_utf8(seq![c]) =~= encode_scalar(c as u32) + encode_utf8(seq![c].drop_first()));
}

proof fn lemma_chars_before(s: Seq<char>, cursor: nat)
    ensures
        0 <= chars_before(s, cursor) <= s.len(),
        byte_len(s.take(chars_before(s, cursor))) <= cursor,
    decreases s.len(),
{
    assert(s.take(0) =~= Seq::empty());
    if s.len() > 0 && char_bytes(s[0]) <= cursor {
        let rest = s.drop_first();
        let left = (cursor - char_bytes(s[0])) as nat;
        let k = chars_before(rest, left);
        lemma_chars_before(rest, left);
        assert(s.take(k + 1).drop_first() =~= rest.take(k));
    }
}

/// As many characters stand before a position as were counted up to it.
proof fn lemma_chars_before_place(s: Seq<char>, k: int)
    requires
        0 <= k <= s.len(),
    ensures
        chars_before(s, byte_len(s.take(k))) == k,
        is_boundary(s, byte_len(s.take(k))),
    decreases k,
{
    if k == 0 {
        assert(s.take(0) =~= Seq::empty());
    } else {
        let rest = s.drop_first();
        lemma_chars_before_place(rest, k - 1);
        assert(s.take(k).drop_first() =~= rest.take(k - 1));
    }
}

/// A line starts and ends at a boundary.
pub proof fn lemma_ends_are_boundaries(s: Seq<char>)
    ensures
        is_boundary(s, 0),
        is_boundary(s, byte_len(s)),
{
    lemma_chars_before_place(s, 0);
    lemma_chars_before_place(s, s.len() as int);
    assert(s.take(0) =~= Seq::empty());
    assert(s.take(s.len() as int) =~= s);
}

fn bytes_in_char(c: char) -> (r: usize)
    ensures
        r == char_bytes(c),
{
    let scalar: u32 = c as u32;
    if scalar <= 0x7f {
        1
    } else if scalar <= 0x7ff {
        2
    } else if scalar <= 0xffff {
        3
    } else {
        4
    }
}

/// The bytes that a text takes.
pub fn byte_length(s: &str) -> (r: usize)
    ensures
        r == byte_len(s@),
{
    s.as_bytes().len()
}

/// How many characters of a text stand before a position that is counted in
/// bytes.
pub fn char_position(s: &[char], cursor: usize) -> (r: usize)
    ensures
        r == chars_before(s@, cursor as nat),
        r <= s@.len(),
{
    let mut i: usize = 0;
    let mut left: usize = cursor;
    proof {
        assert(s@.skip(0) =~= s@);
    }
    while i < s.len() && bytes_in_char(s[i]) <= left
        invariant
            i <= s@.len(),
            chars_before(s@, cursor as nat) == i + chars_before(s@.skip(i as int), left as nat),
        decreases s@.len() - i,
    {
        proof {
            assert(s@.skip(i as int).drop_first() =~= s@.skip(i + 1));
        }
        left -= bytes_in_char(s[i]);
        i += 1;
    }
    i
}

/// Whether a key hands the line in.
pub open spec fn submits(key: KeyEvent) -> bool {
    !key.modifiers.control && !key.modifiers.alt && key.code == KeyCode::Enter
}

pub fn previous_char_boundary(value: &str, cursor: usize) -> (r: usize)
    ensures
        r == previous_of(value@, cursor as nat),
{
    let chars = chars_of(value);
    let at: usize = char_position(chars.as_slice(), cursor);
    if at > 0 {
        byte_length(string_of(take_chars(chars.as_slice(), at - 1)).as_str())
    } else {
        0
    }
}

pub fn next_char_boundary(value: &str, cursor: usize) -> (r: usize)
    ensures
        r == next_of(value@, cursor as nat),
{
    let chars = chars_of(value);
    let at: usize = char_position(chars.as_slice(), cursor);
    if at < chars.len() {
        byte_length(string_of(take_chars(chars.as_slice(), at + 1)).as_str())
    } else {
        byte_length(value)
    }
}

/// The line without the character at `at`.
fn without_char(input: &str, at: usize) -> (r: String)
    requires
        at < input@.len(),
    ensures
        r@ == input@.remove(at as int),
{
    let chars = chars_of(input);
    let length: usize = chars.len();
    proof {
        assert(at < length);
    }
    let mut out: String = string_of(take_chars(chars.as_slice(), at));
    out.append(string_of(skip_chars(chars.as_slice(), at + 1)).as_str());
    proof {
        assert(out@ =~= input@.remove(at as int));
    }
    out
}

/// The line with a character at `at`.
fn with_char(input: &str, at: usize, c: char) -> (r: String)
    requires
        at <= input@.len(),
    ensures
        r@ == input@.insert(at as int, c),
{
    let chars = chars_of(input);
    let mut out: String = string_of(take_chars(chars.as_slice(), at));
    out.push(c);
    out.append(string_of(skip_chars(chars.as_slice(), at)).as_str());
    proof {
        assert(out@ =~= input@.insert(at as int, c));
    }
    out
}

/// Edits the line by a key, and says whether the key hands it in.
pub fn edit_input(input: &mut String, cursor: &mut usize, key: KeyEvent) -> (r: InputEdit)
    ensures
        (Line { text: final(input)@, cursor: *final(cursor) as nat }) == (Line {
            text: old(input)@,
            cursor: *old(cursor) as nat,
        }).edited(key),
        r == if submits(key) {
            InputEdit::Submit
        } else {
            InputEdit::Continue
        },
{
    if key.modifiers.control || key.modifiers.alt {
        return InputEdit::Continue;
    }
    let chars = chars_of(input.as_str());
    let at: usize = char_position(chars.as_slice(), *cursor);
    match key.code {
        KeyCode::Left => {
            *cursor = previous_char_boundary(input.as_str(), *cursor);
        },
        KeyCode::Right => {
            *cursor = next_char_boundary(input.as_str(), *cursor);
        },
        KeyCode::Home => {
            *cursor = 0;
        },
        KeyCode::End => {
            *cursor = byte_length(input.as_str());
        },
        KeyCode::Backspace => {
            if at > 0 {
                *cursor = previous_char_boundary(input.as_str(), *cursor);
                *input = without_char(input.as_str(), at - 1);
            }
        },
        KeyCode::Delete => {
            if at < chars.len() {
                *input = without_char(input.as_str(), at);
            }
        },
        KeyCode::Char(c) => {
            let mut head: String = string_of(take_chars(chars.as_slice(), at));
            head.push(c);
            proof {
                lemma_byte_len_push(chars@.take(at as int), c);
            }
            *cursor = byte_length(head.as_str());
            *input = with_char(input.as_str(), at, c);
        },
        KeyCode::Enter => {
            return InputEdit::Submit;
        },
        _ => {},
    }
    InputEdit::Continue
}

/// The cursor stays within the line, between two of its characters or at one
/// of its ends.
pub proof fn lemma_cursor_stays_inside(line: Line, key: KeyEvent)
    requires
        is_boundary(line.text, line.cursor),
    ensures
        is_boundary(line.edited(key).text, line.edited(key).cursor),
        line.edited(key).cursor <= byte_len(line.edited(key).text),
{
    let s = line.text;
    let k = chars_before(s, line.cursor);
    let after = line.edited(key);
    lemma_chars_before(s, line.cursor);
    assert(s.take(0) =~= Seq::empty());
    assert(s.take(s.len() as int) =~= s);
    let place = if after == line {
        k
    } else {
        match key.code {
            KeyCode::Left => if k > 0 { k - 1 } else { 0 },
            KeyCode::Right => if k < s.len() { k + 1 } else { k },
            KeyCode::Home => 0,
            KeyCode::End => s.len() as int,
            KeyCode::Backspace => k - 1,
            KeyCode::Char(c) => k + 1,
            _ => k,
        }
    };
    if after != line {
        match key.code {
            KeyCode::Backspace => {
                assert(after.text.take(place) =~= s.take(place));
            },
            KeyCode::Delete => {
                assert(after.text.take(place) =~= s.take(place));
            },
            KeyCode::Char(c) => {
                lemma_byte_len_push(s.take(k), c);
                assert(after.text.take(place) =~= s.take(k).push(c));
            },
            _ => {},
        }
    }
    assert(after.cursor == byte_len(after.text.take(place)));
    lemma_chars_before_place(after.text, place);
    lemma_byte_len_concat(after.text.take(place), after.text.skip(place));
    assert(after.text.take(place) + after.text.skip(place) =~= after.text);
}

/// Backspace takes back the character that was just typed.
pub proof fn lemma_backspace_undoes_typing(line: Line, c: char, modifiers: KeyModifiers)
    requires
        is_boundary(line.text, line.cursor),
        !modifiers.control,
        !modifiers.alt,
    ensures
        line.edited(KeyEvent { code: KeyCode::Char(c), modifiers }).edited(KeyEvent { code: KeyCode::Backspace, modifiers })
            == line,
{
    let typed = line.edited(KeyEvent { code: KeyCode::Char(c), modifiers });
    let k = chars_before(line.text, line.cursor);
    lemma_chars_before(line.text, line.cursor);
    lemma_byte_len_push(line.text.take(k), c);
    assert(typed.text.take(k + 1) =~= line.text.take(k).push(c));
    lemma_chars_before_place(typed.text, k + 1);
    assert(typed.text.take(k) =~= line.text.take(k));
    assert(typed.text.remove(k) =~= line.text);
}

// What a key asks for.

/// What a key asks for while no line is typed.
pub open spec fn action_of(playback_active: bool, key: KeyEvent) -> Option<UiAction> {
    if key.modifiers.control || key.modifiers.alt {
        None
    } else {
        match key.code {
            KeyCode::Tab => Some(if key.modifiers.shift { UiAction::FocusPrevious } else { UiAction::FocusNext }),
            KeyCode::BackTab | KeyCode::Left => Some(UiAction::FocusPrevious),
            KeyCode::Right => Some(UiAction::FocusNext),
            KeyCode::Down => Some(UiAction::SelectNext),
            KeyCode::Up => Some(UiAction::SelectPrevious),
            KeyCode::Home => Some(UiAction::SelectFirst),
            KeyCode::End => Some(UiAction::SelectLast),
            KeyCode::PageDown => Some(UiAction::PageNext),
            KeyCode::PageUp => Some(UiAction::PagePrevious),
            KeyCode::Enter => Some(UiAction::Activate),
            KeyCode::Char(c) => match c {
                'q' => Some(UiAction::Quit),
                'j' => Some(UiAction::SelectNext),
                'k' => Some(UiAction::SelectPrevious),
                'g' => Some(UiAction::SelectFirst),
                'G' => Some(UiAction::SelectLast),
                'L' => Some(UiAction::Login),
                'l' => Some(UiAction::ToggleLyrics),
                'h' => Some(UiAction::ToggleLyricsPanel),
                '/' => Some(UiAction::Search),
                'D' => Some(UiAction::Download),
                ' ' => Some(UiAction::TogglePause),
                'n' => Some(UiAction::NextTrack),
                'p' => Some(UiAction::PreviousTrack),
                '[' => if playback_active { Some(UiAction::SeekBackward) } else { None },
                ']' => if playback_active { Some(UiAction::SeekForward) } else { None },
                '+' => Some(UiAction::VolumeUp),
                '=' => Some(UiAction::VolumeUp),
                '-' => Some(UiAction::VolumeDown),
                'm' => Some(UiAction::CycleMode),
                'a' => Some(UiAction::Enqueue),
                'd' => Some(UiAction::Dequeue),
                'f' => Some(UiAction::ToggleFavorite),
                'o' => Some(UiAction::Organize),
                'i' => Some(UiAction::Details),
                'I' => Some(UiAction::Import),
                'r' => Some(UiAction::Refresh),
                _ => None,
            },
            _ => None,
        }
    }
}

/// What a key asks for while no line is typed. It is the same in every pane.
pub fn normal_action(_focus: Focus, playback_active: bool, key: KeyEvent) -> (r: Option<UiAction>)
    ensures
        r == action_of(playback_active, key),
{
    if key.modifiers.control || key.modifiers.alt {
        return None;
    }
    match key.code {
        KeyCode::Tab => if key.modifiers.shift {
            Some(UiAction::FocusPrevious)
        } else {
            Some(UiAction::FocusNext)
        },
        KeyCode::BackTab => Some(UiAction::FocusPrevious),
        KeyCode::Left => Some(UiAction::FocusPrevious),
        KeyCode::Right => Some(UiAction::FocusNext),
        KeyCode::Down => Some(UiAction::SelectNext),
        KeyCode::Up => Some(UiAction::SelectPrevious),
        KeyCode::Home => Some(UiAction::SelectFirst),
        KeyCode::End => Some(UiAction::SelectLast),
        KeyCode::PageDown => Some(UiAction::PageNext),
        KeyCode::PageUp => Some(UiAction::PagePrevious),
        KeyCode::Enter => Some(UiAction::Activate),
        KeyCode::Char(c) => match c {
            'q' => Some(UiAction::Quit),
            'j' => Some(UiAction::SelectNext),
            'k' => Some(UiAction::SelectPrevious),
            'g' => Some(UiAction::SelectFirst),
            'G' => Some(UiAction::SelectLast),
            'L' => Some(UiAction::Login),
            'l' => Some(UiAction::ToggleLyrics),
            'h' => Some(UiAction::ToggleLyricsPanel),
            '/' => Some(UiAction::Search),
            'D' => Some(UiAction::Download),
            ' ' => Some(UiAction::TogglePause),
            'n' => Some(UiAction::NextTrack),
            'p' => Some(UiAction::PreviousTrack),
            '[' => if playback_active {
                Some(UiAction::SeekBackward)
            } else {
                None
            },
            ']' => if playback_active {
                Some(UiAction::SeekForward)
            } else {
                None
            },
            '+' => Some(UiAction::VolumeUp),
            '=' => Some(UiAction::VolumeUp),
            '-' => Some(UiAction::VolumeDown),
            'm' => Some(UiAction::CycleMode),
            'a' => Some(UiAction::Enqueue),
            'd' => Some(UiAction::Dequeue),
            'f' => Some(UiAction::ToggleFavorite),
            'o' => Some(UiAction::Organize),
            'i' => Some(UiAction::Details),
            'I' => Some(UiAction::Import),
            'r' => Some(UiAction::Refresh),
            _ => None,
        },
        _ => None,
    }
}

/// With control or alt held, a key asks for nothing.
pub proof fn lemma_modified_keys_do_nothing(playback_active: bool, key: KeyEvent)
    requires
        key.modifiers.control || key.modifiers.alt,
    ensures
        action_of(playback_active, key) is None,
{
}

/// Seeking takes a track that plays.
pub proof fn lemma_seeking_needs_playback(key: KeyEvent)
    ensures
        action_of(false, key) != Some(UiAction::SeekBackward),
        action_of(false, key) != Some(UiAction::SeekForward),
{
}

/// The key that an action is shown with asks for that action.
pub proof fn lemma_hints_name_keys(action: UiAction, c: char, shift: bool)
    requires
        hint_key(action) == seq![c],
        action != UiAction::ToggleHelp && action != UiAction::EditCacheSize && action != UiAction::ClearCache,
    ensures
        action_of(
            true,
            KeyEvent { code: KeyCode::Char(c), modifiers: KeyModifiers { control: false, alt: false, shift } },
        ) == Some(action),
{
    reveal_strlit("q");
    reveal_strlit("?");
    reveal_strlit("Esc");
    reveal_strlit("Tab");
    reveal_strlit("Shift+Tab");
    reveal_strlit("↑↓/jk");
    reveal_strlit("g/G");
    reveal_strlit("Enter");
    reveal_strlit("/");
    reveal_strlit("L");
    reveal_strlit("D");
    reveal_strlit("l");
    reveal_strlit("h");
    reveal_strlit("Space");
    reveal_strlit("p");
    reveal_strlit("n");
    reveal_strlit("[/]");
    reveal_strlit("+/-");
    reveal_strlit("m");
    reveal_strlit("a");
    reveal_strlit("d");
    reveal_strlit("f");
    reveal_strlit("o");
    reveal_strlit("i");
    reveal_strlit("r");
    reveal_strlit("I");
    reveal_strlit("s");
    reveal_strlit("X");
    reveal_strlit("PgUp/PgDn");
    reveal_strlit("鼠标");
    assert(hint_key(action).len() == 1);
    assert(hint_key(action)[0] == c);
}

/// The letters that move the selection do what the arrows do, those for the
/// ends what the keys for the ends do, and opposite keys ask for opposite
/// things.
pub proof fn lemma_moving_keys(playback_active: bool, modifiers: KeyModifiers)
    requires
        !modifiers.control && !modifiers.alt,
    ensures
        action_of(playback_active, KeyEvent { code: KeyCode::Up, modifiers }) == Some(UiAction::SelectPrevious),
        action_of(playback_active, KeyEvent { code: KeyCode::Char('k'), modifiers }) == Some(UiAction::SelectPrevious),
        action_of(playback_active, KeyEvent { code: KeyCode::Down, modifiers }) == Some(UiAction::SelectNext),
        action_of(playback_active, KeyEvent { code: KeyCode::Char('j'), modifiers }) == Some(UiAction::SelectNext),
        action_of(playback_active, KeyEvent { code: KeyCode::Home, modifiers }) == Some(UiAction::SelectFirst),
        action_of(playback_active, KeyEvent { code: KeyCode::Char('g'), modifiers }) == Some(UiAction::SelectFirst),
        action_of(playback_active, KeyEvent { code: KeyCode::End, modifiers }) == Some(UiAction::SelectLast),
        action_of(playback_active, KeyEvent { code: KeyCode::Char('G'), modifiers }) == Some(UiAction::SelectLast),
        action_of(playback_active, KeyEvent { code: KeyCode::PageUp, modifiers }) == Some(UiAction::PagePrevious),
        action_of(playback_active, KeyEvent { code: KeyCode::PageDown, modifiers }) == Some(UiAction::PageNext),
        action_of(playback_active, KeyEvent { code: KeyCode::Left, modifiers }) == Some(UiAction::FocusPrevious),
        action_of(playback_active, KeyEvent { code: KeyCode::Right, modifiers }) == Some(UiAction::FocusNext),
        action_of(playback_active, KeyEvent { code: KeyCode::BackTab, modifiers }) == Some(UiAction::FocusPrevious),
        modifiers.shift ==> action_of(playback_active, KeyEvent { code: KeyCode::Tab, modifiers }) == Some(
            UiAction::FocusPrevious,
        ),
        !modifiers.shift ==> action_of(playback_active, KeyEvent { code: KeyCode::Tab, modifiers }) == Some(
            UiAction::FocusNext,
        ),
        action_of(playback_active, KeyEvent { code: KeyCode::Enter, modifiers }) == Some(UiAction::Activate),
        action_of(playback_active, KeyEvent { code: KeyCode::Char(' '), modifiers }) == Some(UiAction::TogglePause),
        action_of(playback_active, KeyEvent { code: KeyCode::Char('+'), modifiers }) == Some(UiAction::VolumeUp),
        action_of(playback_active, KeyEvent { code: KeyCode::Char('='), modifiers }) == Some(UiAction::VolumeUp),
        action_of(playback_active, KeyEvent { code: KeyCode::Char('-'), modifiers }) == Some(UiAction::VolumeDown),
        action_of(true, KeyEvent { code: KeyCode::Char('['), modifiers }) == Some(UiAction::SeekBackward),
        action_of(true, KeyEvent { code: KeyCode::Char(']'), modifiers }) == Some(UiAction::SeekForward),
{
}

} // verus!
