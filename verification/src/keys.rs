//! Key presses, and the list that they move through.
use vstd::prelude::*;

use crate::text::chars_of;

verus! {

/// A key press.
#[derive(Debug, Clone, Copy, PartialEq, Eq, Structural)]
pub enum Key {
    /// A character.
    Char(char),
    /// The arrow up.
    Up,
    /// The arrow down.
    Down,
    /// The enter key.
    Enter,
    /// The escape key.
    Esc,
    /// Any other key.
    Other,
}

/// What a key asks of a list.
#[derive(Debug, Clone, Copy, PartialEq, Eq, Structural)]
pub enum ListAction {
    /// Leave the list.
    Quit,
    /// Go to the next row.
    Next,
    /// Go to the row before.
    Previous,
    /// Take the highlighted row.
    Confirm,
    /// Nothing.
    Nothing,
}

/// What a key asks of a list.
pub open spec fn action_of(key: Key) -> ListAction {
    match key {
        Key::Esc => ListAction::Quit,
        Key::Down => ListAction::Next,
        Key::Up => ListAction::Previous,
        Key::Enter => ListAction::Confirm,
        Key::Char(c) => if c == 'q' {
            ListAction::Quit
        } else if c == 'j' {
            ListAction::Next
        } else if c == 'k' {
            ListAction::Previous
        } else {
            ListAction::Nothing
        },
        Key::Other => ListAction::Nothing,
    }
}

/// Tells what a key asks of a list.
pub fn list_action(key: Key) -> (r: ListAction)
    ensures
        r == action_of(key),
{
    match key {
        Key::Esc => ListAction::Quit,
        Key::Down => ListAction::Next,
        Key::Up => ListAction::Previous,
        Key::Enter => ListAction::Confirm,
        Key::Char(c) => if c == 'q' {
            ListAction::Quit
        } else if c == 'j' {
            ListAction::Next
        } else if c == 'k' {
            ListAction::Previous
        } else {
            ListAction::Nothing
        },
        Key::Other => ListAction::Nothing,
    }
}

/// The row below row `selected` of `len` rows, if there is one.
pub open spec fn below(selected: int, len: int) -> int {
    if selected + 1 < len {
        selected + 1
    } else {
        selected
    }
}

/// The row above row `selected`, if there is one.
pub open spec fn above(selected: int) -> int {
    if selected > 0 {
        selected - 1
    } else {
        selected
    }
}

/// Row `selected` of `len` rows, or the last one.
pub open spec fn clamped(selected: int, len: int) -> int {
    if selected < len {
        selected
    } else if len > 0 {
        len - 1
    } else {
        0
    }
}

/// Goes to the row below.
pub fn row_below(selected: usize, len: usize) -> (r: usize)
    ensures
        r == below(selected as int, len as int),
{
    if len > 0 && selected < len - 1 {
        selected + 1
    } else {
        selected
    }
}

/// Goes to the row above.
pub fn row_above(selected: usize) -> (r: usize)
    ensures
        r == above(selected as int),
{
    if selected > 0 {
        selected - 1
    } else {
        selected
    }
}

/// Stays on a row, or goes to the last one.
pub fn clamp_row(selected: usize, len: usize) -> (r: usize)
    ensures
        r == clamped(selected as int, len as int),
{
    if selected < len {
        selected
    } else if len > 0 {
        len - 1
    } else {
        0
    }
}

/// `s` in at most `width` characters, with an ellipsis for what is left out.
pub open spec fn clipped(s: Seq<char>, width: nat) -> Seq<char> {
    if s.len() <= width {
        s
    } else if width == 0 {
        seq!['…']
    } else {
        s.take(width - 1).push('…')
    }
}

/// Clips a text.
pub fn truncate(s: &str, width: usize) -> (out: String)
    ensures
        out@ == clipped(s@, width as nat),
{
    let v = chars_of(s);
    if v.len() <= width {
        return s.to_owned();
    }
    let keep: usize = if width > 0 {
        width - 1
    } else {
        0
    };
    let mut out: String = crate::text::substring(&v, 0, keep);
    out.push('…');
    proof {
        assert(out@ =~= clipped(s@, width as nat));
    }
    out
}

/// A clipped text is no wider than asked, unless there is no room even for the
/// ellipsis.
pub proof fn clipped_texts_fit(s: Seq<char>, width: nat)
    requires
        width > 0,
    ensures
        clipped(s, width).len() <= width,
        s.len() <= width ==> clipped(s, width) == s,
{
}

/// Going down stands one row further on while there is one, going up one row back; one undoes
/// the other, and neither leaves the list.
pub proof fn steps_undo_each_other(selected: int, len: int)
    requires
        0 <= selected < len,
    ensures
        selected < len - 1 ==> below(selected, len) == selected + 1 && above(below(selected, len))
            == selected,
        selected == len - 1 ==> below(selected, len) == selected,
        selected > 0 ==> above(selected) == selected - 1 && below(above(selected), len) == selected,
        above(0) == 0,
        clamped(selected, len) == selected,
        clamped(len, len) == len - 1,
{
}

/// The letters do what the arrows do, `q` what escape does, and no other letter does
/// anything.
pub proof fn letters_stand_for_keys(c: char)
    ensures
        action_of(Key::Char('j')) == action_of(Key::Down) && action_of(Key::Down) is Next,
        action_of(Key::Char('k')) == action_of(Key::Up) && action_of(Key::Up) is Previous,
        action_of(Key::Char('q')) == action_of(Key::Esc) && action_of(Key::Esc) is Quit,
        action_of(Key::Enter) is Confirm,
        c != 'j' && c != 'k' && c != 'q' ==> action_of(Key::Char(c)) is Nothing,
        action_of(Key::Other) is Nothing,
{
}

/// A text that is clipped keeps its beginning.
pub proof fn clipped_texts_keep_their_beginning(s: Seq<char>, width: nat, i: int)
    requires
        0 <= i < width - 1,
        i < s.len(),
    ensures
        clipped(s, width)[i] == s[i],
        s.len() > width ==> clipped(s, width).len() == width && clipped(s, width)[width - 1] == '…',
{
}

} // verus!
