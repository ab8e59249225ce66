//! From key presses to commands.

use vstd::prelude::*;
use crate::model::Command;

verus! {

/// The key of a key event, as far as the editor tells keys apart.
#[derive(Clone, Copy, Debug, PartialEq, Eq, Structural)]
pub enum Key {
    /// A key that types a character.
    Char(char),
    Backspace,
    Enter,
    Escape,
    Left,
    Right,
    Up,
    Down,
    /// Any other key.
    Other,
}

/// A key event: the key, the modifier keys held with it, and whether the
/// key went down or up.
#[derive(Clone, Copy, Debug, PartialEq, Eq, Structural)]
pub struct KeyPress {
    pub key: Key,
    /// Shift is held.
    pub shift: bool,
    /// Control is held.
    pub control: bool,
    /// A modifier other than shift and control is held.
    pub other_modifier: bool,
    /// The key was released, not pressed.
    pub released: bool,
}

impl KeyPress {
    /// No modifier is held.
    pub open spec fn plain(self) -> bool {
        !self.shift && !self.control && !self.other_modifier
    }

    /// Shift is held and no other modifier.
    pub open spec fn shifted(self) -> bool {
        self.shift && !self.control && !self.other_modifier
    }

    /// Control is held and no other modifier.
    pub open spec fn controlled(self) -> bool {
        !self.shift && self.control && !self.other_modifier
    }
}

/// The command that a key event asks for, if any.
///
/// A released key asks for nothing. A character typed plain or with shift
/// is typed into the text; control with `c` saves. Backspace, enter, escape
/// and the arrows to the left and to the right do their work whatever
/// modifiers are held; the arrows up and down only without any.
pub open spec fn command_for(press: KeyPress) -> Option<Command> {
    if press.released {
        None
    } else {
        match press.key {
            Key::Char(c) => {
                if press.plain() || press.shifted() {
                    Some(Command::InsertChar(c))
                } else if c == 'c' && press.controlled() {
                    Some(Command::Save)
                } else {
                    None
                }
            },
            Key::Backspace => Some(Command::Backspace),
            Key::Enter => Some(Command::InsertNewline),
            Key::Escape => Some(Command::Discard),
            Key::Left => Some(Command::MoveLeft),
            Key::Right => Some(Command::MoveRight),
            Key::Up => if press.plain() {
                Some(Command::MoveUp)
            } else {
                None
            },
            Key::Down => if press.plain() {
                Some(Command::MoveDown)
            } else {
                None
            },
            Key::Other => None,
        }
    }
}

/// The command that `press` asks for, if any.
pub fn decode_key(press: KeyPress) -> (command: Option<Command>)
    ensures
        command == command_for(press),
{
    if press.released {
        return None;
    }
    let plain = !press.shift && !press.control && !press.other_modifier;
    let shifted = press.shift && !press.control && !press.other_modifier;
    let controlled = !press.shift && press.control && !press.other_modifier;
    match press.key {
        Key::Char(c) => {
            if plain || shifted {
                Some(Command::InsertChar(c))
            } else if c == 'c' && controlled {
                Some(Command::Save)
            } else {
                None
            }
        },
        Key::Backspace => Some(Command::Backspace),
        Key::Enter => Some(Command::InsertNewline),
        Key::Escape => Some(Command::Discard),
        Key::Left => Some(Command::MoveLeft),
        Key::Right => Some(Command::MoveRight),
        Key::Up => if plain {
            Some(Command::MoveUp)
        } else {
            None
        },
        Key::Down => if plain {
            Some(Command::MoveDown)
        } else {
            None
        },
        Key::Other => None,
    }
}

} // verus!
