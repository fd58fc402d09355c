//! Keyboard shortcuts: the primary modifier with `s`, `o` or `n`.
use vstd::prelude::*;
use vstd::string::StrSliceExecFns;

verus! {

/// A document lifecycle operation.
#[derive(Clone, Copy, Debug, PartialEq, Eq, Structural)]
pub enum Command {
    New,
    Open,
    Save,
}

/// A key as the keyboard reports it: the text of a character key, or any other key.
#[derive(Clone, Debug)]
pub enum Key {
    Character(String),
    Other,
}

/// The command for a key pressed with (`command`) or without the primary modifier.
pub open spec fn shortcut(key: Key, command: bool) -> Option<Command> {
    match key {
        Key::Character(c) => if !command {
            None
        } else if c@ == seq!['s'] {
            Some(Command::Save)
        } else if c@ == seq!['o'] {
            Some(Command::Open)
        } else if c@ == seq!['n'] {
            Some(Command::New)
        } else {
            None
        },
        Key::Other => None,
    }
}

/// Maps a key press to its command; every other press gives none and is
/// left to text input.
pub fn route_shortcut(key: &Key, command: bool) -> (r: Option<Command>)
    ensures
        r == shortcut(*key, command),
{
    match key {
        Key::Character(c) => {
            if !command {
                return None;
            }
            let s = c.as_str();
            if s.unicode_len() != 1 {
                assert(c@ != seq!['s'] && c@ != seq!['o'] && c@ != seq!['n']);
                return None;
            }
            let ch = s.get_char(0);
            assert(c@ =~= seq![ch]);
            if ch == 's' {
                Some(Command::Save)
            } else if ch == 'o' {
                Some(Command::Open)
            } else if ch == 'n' {
                Some(Command::New)
            } else {
                assert(c@ != seq!['s'] && c@ != seq!['o'] && c@ != seq!['n']) by {
                    assert(c@[0] == ch);
                }
                None
            }
        },
        Key::Other => None,
    }
}

} // verus!
