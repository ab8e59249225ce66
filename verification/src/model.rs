//! What an editing session is and what its commands do, as mathematics.
//!
//! The state of a session is a text and a cursor. Each command takes a state
//! to the next one. The functions here say which; the session itself, which
//! holds a `String` and a cursor of two `u16`, is held to them.

use vstd::prelude::*;
use crate::address::{
    in_text, lemma_cursor_place, lemma_offset_positive, lemma_position_offset, position_offset,
};
use crate::encoding::{
    char_width, chars_before, lemma_byte_offset_plain, lemma_chars_before,
    lemma_chars_before_offset,
};
use crate::lines::{
    lemma_insert_in_line, lemma_insert_line_feed, lemma_line_feed_before_line,
    lemma_newlines_within_line, lemma_remove_in_line, lemma_remove_line_feed, line_count,
    line_len, line_start,
};

verus! {

/// What the user of a session may ask of it.
#[derive(Clone, Copy, Debug, PartialEq, Eq, Structural)]
pub enum Command {
    /// Put a character into the text at the cursor.
    InsertChar(char),
    /// Break the line at the cursor.
    InsertNewline,
    /// Take out the character in front of the cursor.
    Backspace,
    /// Move the cursor one character back.
    MoveLeft,
    /// Move the cursor one character on.
    MoveRight,
    /// Move the cursor one row up.
    MoveUp,
    /// Move the cursor one row down.
    MoveDown,
    /// Write the text out and end the session.
    Save,
    /// End the session without writing.
    Discard,
}

/// What is to happen after a command.
#[derive(Clone, Copy, Debug, PartialEq, Eq, Structural)]
pub enum Outcome {
    /// The session goes on.
    Continue,
    /// The text is to be written out as it stands, and the session ends.
    Save,
    /// The session ends; nothing is written.
    Discard,
}

/// The state of a session: the text, and the cursor as column and row.
pub struct SessionState {
    pub text: Seq<char>,
    pub column: nat,
    pub row: nat,
}

impl SessionState {
    /// Whether the cursor points into the text: the row is one of the text's
    /// lines, and the column lies within that line or right behind it.
    pub open spec fn valid(self) -> bool {
        in_text(self.text, self.column, self.row)
    }

    /// Whether the cursor can be held in a pair of `u16`.
    pub open spec fn fits(self) -> bool {
        self.column <= u16::MAX && self.row <= u16::MAX
    }

    /// The offset in the text that the cursor stands for.
    pub open spec fn offset(self) -> nat {
        position_offset(self.text, self.column, self.row)
    }

    /// The number of characters that begin in front of the cursor's offset:
    /// the index at which a character typed at the cursor goes into the
    /// text. The character in front of the cursor is the one before that.
    pub open spec fn place(self) -> nat {
        chars_before(self.text, self.offset())
    }

    /// Whether the characters of the cursor's row in front of the cursor
    /// take one byte each, as those of ASCII do.
    pub open spec fn plain_before_cursor(self) -> bool {
        forall|i: int|
            line_start(self.text, self.row) <= i < line_start(self.text, self.row) + self.column
                ==> char_width(#[trigger] self.text[i]) == 1
    }

    /// The state with the cursor elsewhere.
    pub open spec fn at(self, column: nat, row: nat) -> SessionState {
        SessionState { text: self.text, column, row }
    }

    /// A character is typed: it goes into the text at the cursor, and the
    /// cursor moves one column on.
    pub open spec fn insert_char(self, c: char) -> SessionState {
        SessionState {
            text: self.text.insert(self.place() as int, c),
            column: self.column + 1,
            row: self.row,
        }
    }

    /// The line is broken: a line feed goes into the text at the cursor, and
    /// the cursor moves to the beginning of the next row.
    pub open spec fn insert_newline(self) -> SessionState {
        SessionState {
            text: self.text.insert(self.place() as int, '\n'),
            column: 0,
            row: self.row + 1,
        }
    }

    /// Whether there is something in front of the cursor to take out.
    pub open spec fn can_delete(self) -> bool {
        self.text.len() > 0 && (self.column > 0 || self.row > 0)
    }

    /// The character in front of the cursor is taken out, and the cursor
    /// moves back: by one column, or from the beginning of a row to the end
    /// of the row above as it then is. At the very beginning, and in an
    /// empty text, nothing happens.
    pub open spec fn backspace(self) -> SessionState {
        if self.can_delete() {
            let text = self.text.remove(self.place() - 1);
            if self.column > 0 {
                SessionState { text, column: (self.column - 1) as nat, row: self.row }
            } else {
                SessionState {
                    text,
                    column: line_len(text, (self.row - 1) as nat),
                    row: (self.row - 1) as nat,
                }
            }
        } else {
            self
        }
    }

    /// The cursor moves back by one column, or from the beginning of a row
    /// to the end of the row above.
    pub open spec fn move_left(self) -> SessionState {
        if self.column > 0 {
            self.at((self.column - 1) as nat, self.row)
        } else if self.row > 0 {
            self.at(line_len(self.text, (self.row - 1) as nat), (self.row - 1) as nat)
        } else {
            self
        }
    }

    /// The cursor moves on by one column, or from the end of a row to the
    /// beginning of the row below. Where the row ends is decided by the
    /// length of that row alone.
    pub open spec fn move_right(self) -> SessionState {
        if self.column < line_len(self.text, self.row) {
            self.at(self.column + 1, self.row)
        } else if self.row + 1 < line_count(self.text) {
            self.at(0, self.row + 1)
        } else {
            self
        }
    }

    /// The cursor in row `row`, in its column or at the end of that row
    /// where the row is shorter.
    pub open spec fn in_row(self, row: nat) -> SessionState {
        if self.column <= line_len(self.text, row) {
            self.at(self.column, row)
        } else {
            self.at(line_len(self.text, row), row)
        }
    }

    /// The cursor moves to the row above, if there is one.
    pub open spec fn move_up(self) -> SessionState {
        if self.row > 0 {
            self.in_row((self.row - 1) as nat)
        } else {
            self
        }
    }

    /// The cursor moves to the row below, if there is one.
    pub open spec fn move_down(self) -> SessionState {
        if self.row + 1 < line_count(self.text) {
            self.in_row(self.row + 1)
        } else {
            self
        }
    }

    /// The state after a command. Saving and discarding leave it as it is.
    pub open spec fn apply(self, command: Command) -> SessionState {
        match command {
            Command::InsertChar(c) => self.insert_char(c),
            Command::InsertNewline => self.insert_newline(),
            Command::Backspace => self.backspace(),
            Command::MoveLeft => self.move_left(),
            Command::MoveRight => self.move_right(),
            Command::MoveUp => self.move_up(),
            Command::MoveDown => self.move_down(),
            Command::Save => self,
            Command::Discard => self,
        }
    }
}

/// What is to happen after a command: the session goes on, unless the
/// command ends it.
pub open spec fn outcome_of(command: Command) -> Outcome {
    match command {
        Command::Save => Outcome::Save,
        Command::Discard => Outcome::Discard,
        _ => Outcome::Continue,
    }
}

/// Where something can be taken out, some character begins in front of the
/// cursor.
pub proof fn lemma_place_when_deleting(state: SessionState)
    requires
        state.can_delete(),
    ensures
        1 <= state.place() <= state.text.len(),
{
    lemma_chars_before(state.text, state.offset());
    lemma_offset_positive(state.text, state.column, state.row);
}

/// A typed character other than a line feed leaves the cursor in the text.
pub proof fn law_insert_char_keeps_cursor(state: SessionState, c: char)
    requires
        state.valid(),
        c != '\n',
    ensures
        state.insert_char(c).valid(),
{
    lemma_cursor_place(state.text, state.column, state.row);
    lemma_insert_in_line(state.text, state.row, state.place(), c);
}

/// Breaking the line leaves the cursor in the text.
pub proof fn law_insert_newline_keeps_cursor(state: SessionState)
    requires
        state.valid(),
    ensures
        state.insert_newline().valid(),
{
    lemma_cursor_place(state.text, state.column, state.row);
    lemma_insert_line_feed(state.text, state.place());
}

/// Taking a character out leaves the cursor in the text.
pub proof fn law_backspace_keeps_cursor(state: SessionState)
    requires
        state.valid(),
    ensures
        state.backspace().valid(),
{
    if state.can_delete() {
        lemma_cursor_place(state.text, state.column, state.row);
        let j = (state.place() - 1) as nat;
        if state.column > 0 {
            lemma_remove_in_line(state.text, state.row, j);
        } else {
            lemma_position_offset(state.text, state.column, state.row);
            lemma_line_feed_before_line(state.text, state.row);
            lemma_remove_line_feed(state.text, j);
        }
    }
}

/// Moving the cursor leaves it in the text.
pub proof fn law_moves_keep_cursor(state: SessionState)
    requires
        state.valid(),
    ensures
        state.move_left().valid(),
        state.move_right().valid(),
        state.move_up().valid(),
        state.move_down().valid(),
        state.move_left().text == state.text,
        state.move_right().text == state.text,
        state.move_up().text == state.text,
        state.move_down().text == state.text,
{
}

/// Where the characters in front of the cursor in its row take one byte
/// each, a typed character goes to the cursor's column in its row.
pub proof fn law_place_at_cursor(state: SessionState)
    requires
        state.valid(),
        state.plain_before_cursor(),
    ensures
        state.place() == line_start(state.text, state.row) + state.column,
{
    let begin = line_start(state.text, state.row);
    lemma_position_offset(state.text, state.column, state.row);
    lemma_newlines_within_line(state.text, state.row, begin + state.column);
    lemma_byte_offset_plain(state.text, begin, state.column);
    lemma_chars_before_offset(state.text, begin + state.column);
}

/// A character of one byte that is typed and taken out again leaves the
/// session as it was, where the characters in front of the cursor in its
/// row take one byte each.
pub proof fn law_backspace_undoes_typing(state: SessionState, c: char)
    requires
        state.valid(),
        state.plain_before_cursor(),
        char_width(c) == 1,
        c != '\n',
    ensures
        state.insert_char(c).backspace() == state,
{
    let begin = line_start(state.text, state.row);
    let k = begin + state.column;
    let typed = state.insert_char(c);
    law_place_at_cursor(state);
    law_insert_char_keeps_cursor(state, c);
    lemma_newlines_within_line(state.text, state.row, k);
    lemma_insert_in_line(state.text, state.row, k, c);
    assert(typed.plain_before_cursor()) by {
        assert forall|i: int| begin <= i < begin + typed.column implies char_width(
            #[trigger] typed.text[i],
        ) == 1 by {
            if i < k {
                assert(typed.text[i] == state.text[i]);
            }
        }
    }
    law_place_at_cursor(typed);
    assert(typed.text.remove(k as int) == state.text);
}

/// Every command leaves the cursor in the text, but for a line feed that
/// is typed as a character: it breaks the line, and the cursor stays in its
/// row.
pub proof fn law_commands_keep_cursor(state: SessionState, command: Command)
    requires
        state.valid(),
        command != Command::InsertChar('\n'),
    ensures
        state.apply(command).valid(),
{
    match command {
        Command::InsertChar(c) => law_insert_char_keeps_cursor(state, c),
        Command::InsertNewline => law_insert_newline_keeps_cursor(state),
        Command::Backspace => law_backspace_keeps_cursor(state),
        _ => law_moves_keep_cursor(state),
    }
}

/// An offset in front of which nothing begins: at the very beginning of a
/// text nothing can be taken out.
pub proof fn law_backspace_at_beginning(state: SessionState)
    requires
        state.column == 0,
        state.row == 0,
    ensures
        state.backspace() == state,
{
}

} // verus!
