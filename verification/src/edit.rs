//! Keys, and what they do to an edited text.

use vstd::prelude::*;

use crate::node::{FieldState, FieldView, SecureState, SecureView};
use crate::text::{chars_of, string_of};

verus! {

/// A key on the keyboard.
#[derive(Clone, Copy, Debug, PartialEq, Eq, Structural)]
pub enum KeyCode {
    Backspace,
    Delete,
    Enter,
    Left,
    Right,
    Up,
    Down,
    Home,
    End,
    PageUp,
    PageDown,
    Tab,
    BackTab,
    Esc,
    /// A key that types a character.
    Char(char),
    /// Any other key.
    Other,
}

/// A key press.
#[derive(Clone, Copy, Debug, PartialEq, Eq, Structural)]
pub struct Key {
    /// The key.
    pub code: KeyCode,
    /// Whether the control key is held.
    pub control: bool,
}

impl Key {
    /// A press without any other key held.
    pub fn plain(code: KeyCode) -> (r: Key)
        ensures
            r == (Key { code, control: false }),
    {
        Key { code, control: false }
    }

    /// Whether the key activates a control.
    pub open spec fn activates(self) -> bool {
        self.code == KeyCode::Enter || self.code == KeyCode::Char(' ')
    }

    /// Whether the key activates a control.
    pub fn is_activation(&self) -> (r: bool)
        ensures
            r == self.activates(),
    {
        match self.code {
            KeyCode::Enter => true,
            KeyCode::Char(c) => c == ' ',
            _ => false,
        }
    }
}

/// A cursor held inside a text.
pub open spec fn cursor_in(text: Seq<char>, cursor: usize) -> int {
    if cursor <= text.len() {
        cursor as int
    } else {
        text.len() as int
    }
}

/// What a key makes of a text and of the cursor in it, where it handles them at all:
/// keys that type insert, backspace and delete take one character out, and the others
/// move the cursor.
pub open spec fn edited(text: Seq<char>, cursor: usize, key: Key) -> Option<(Seq<char>, int)> {
    let at = cursor_in(text, cursor);
    match key.code {
        KeyCode::Char(c) => if key.control {
            None
        } else {
            Some((text.insert(at, c), at + 1))
        },
        KeyCode::Backspace => if at > 0 {
            Some((text.remove(at - 1), at - 1))
        } else {
            None
        },
        KeyCode::Delete => if at < text.len() {
            Some((text.remove(at), at))
        } else {
            None
        },
        KeyCode::Left => Some((text, if at > 0 { at - 1 } else { 0 })),
        KeyCode::Right => Some((text, if at < text.len() { at + 1 } else { at })),
        KeyCode::Home => Some((text, 0)),
        KeyCode::End => Some((text, text.len() as int)),
        _ => None,
    }
}

/// Applies a key to a text and to the cursor in it; `true` where the key was handled.
/// The cursor is held inside the text either way.
pub fn edit_chars(chars: &mut Vec<char>, cursor: &mut usize, key: &Key) -> (r: bool)
    ensures
        match edited(old(chars)@, *old(cursor), *key) {
            Some((text, at)) => r && final(chars)@ == text && *final(cursor) == at,
            None => !r && final(chars)@ == old(chars)@ && *final(cursor) == cursor_in(
                old(chars)@,
                *old(cursor),
            ),
        },
{
    if *cursor > chars.len() {
        *cursor = chars.len();
    }
    match key.code {
        KeyCode::Char(c) => {
            if key.control {
                false
            } else {
                chars.insert(*cursor, c);
                assert(chars.len() == chars@.len());
                *cursor += 1;
                true
            }
        },
        KeyCode::Backspace => {
            if *cursor > 0 {
                chars.remove(*cursor - 1);
                *cursor -= 1;
                true
            } else {
                false
            }
        },
        KeyCode::Delete => {
            if *cursor < chars.len() {
                chars.remove(*cursor);
                true
            } else {
                false
            }
        },
        KeyCode::Left => {
            if *cursor > 0 {
                *cursor -= 1;
            }
            true
        },
        KeyCode::Right => {
            if *cursor < chars.len() {
                *cursor += 1;
            }
            true
        },
        KeyCode::Home => {
            *cursor = 0;
            true
        },
        KeyCode::End => {
            *cursor = chars.len();
            true
        },
        _ => false,
    }
}

impl FieldView {
    /// This field after a key, where the key edits it or moves its cursor.
    pub open spec fn typed(self, key: Key) -> Option<FieldView> {
        match edited(self.value, self.cursor, key) {
            Some((value, at)) => Some(FieldView { value, cursor: at as usize, ..self }),
            None => None,
        }
    }
}

impl SecureView {
    /// This field after a key, where the key edits it or moves its cursor.
    pub open spec fn typed(self, key: Key) -> Option<SecureView> {
        match edited(self.value, self.cursor, key) {
            Some((value, at)) => Some(SecureView { value, cursor: at as usize, ..self }),
            None => None,
        }
    }
}

/// Applies a key to a text field; `true` where it was handled.
pub fn field_key(field: &mut FieldState, key: &Key) -> (r: bool)
    ensures
        match old(field)@.typed(*key) {
            Some(after) => r && final(field)@ == after,
            None => !r && *final(field) == *old(field),
        },
{
    let mut chars = chars_of(field.value.as_str());
    let mut cursor: usize = field.cursor;
    if edit_chars(&mut chars, &mut cursor, key) {
        field.value = string_of(&chars);
        field.cursor = cursor;
        true
    } else {
        false
    }
}

/// Applies a key to a masked text field; `true` where it was handled.
pub fn secure_key(state: &mut SecureState, key: &Key) -> (r: bool)
    ensures
        match old(state)@.typed(*key) {
            Some(after) => r && final(state)@ == after,
            None => !r && *final(state) == *old(state),
        },
{
    let mut chars = chars_of(state.value.as_str());
    let mut cursor: usize = state.cursor;
    if edit_chars(&mut chars, &mut cursor, key) {
        state.value = string_of(&chars);
        state.cursor = cursor;
        true
    } else {
        false
    }
}

/// The cursor stays inside the text, whatever is typed.
pub proof fn law_cursor_stays_inside(text: Seq<char>, cursor: usize, key: Key)
    ensures
        edited(text, cursor, key) matches Some((after, at)) ==> 0 <= at <= after.len(),
{
}

/// Backspace takes back what was typed last.
pub proof fn law_backspace_undoes_typing(text: Seq<char>, cursor: usize, c: char)
    requires
        cursor <= text.len() < usize::MAX,
    ensures
        ({
            let (typed, at) = edited(text, cursor, Key { code: KeyCode::Char(c), control: false })->0;
            edited(typed, at as usize, Key { code: KeyCode::Backspace, control: false }) == Some(
                (text, cursor as int),
            )
        }),
{
    let at = cursor as int;
    assert(text.insert(at, c).remove(at) =~= text);
}

/// Delete does what moving right and backspace do.
pub proof fn law_delete_is_right_and_backspace(text: Seq<char>, cursor: usize)
    requires
        cursor < text.len() <= usize::MAX,
    ensures
        ({
            let (moved, at) = edited(text, cursor, Key { code: KeyCode::Right, control: false })->0;
            edited(moved, at as usize, Key { code: KeyCode::Backspace, control: false }) == edited(
                text,
                cursor,
                Key { code: KeyCode::Delete, control: false },
            )
        }),
{
}

} // verus!
