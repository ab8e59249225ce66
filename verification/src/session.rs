//! An editing session: a text buffer and a cursor, and the commands that
//! change them.

use vstd::prelude::*;
use crate::address::{count_newlines, line_chars, line_length, position_to_index};
use crate::buffer::{insert_at, remove_before};
use crate::lines::{lemma_last_line_ends_text, line_len, line_start, newline_count};
use crate::model::{
    law_backspace_keeps_cursor, law_insert_char_keeps_cursor, law_insert_newline_keeps_cursor,
    law_moves_keep_cursor, lemma_place_when_deleting, outcome_of, Command, Outcome,
    SessionState,
};

verus! {

/// A session: the text that is edited, and the cursor as column and row.
pub struct EditSession {
    buffer: String,
    cursor: (u16, u16),
}

impl View for EditSession {
    type V = SessionState;

    closed spec fn view(&self) -> SessionState {
        SessionState {
            text: self.buffer@,
            column: self.cursor.0 as nat,
            row: self.cursor.1 as nat,
        }
    }
}

/// The state in which a session on `text` begins: the cursor stands at the
/// end of the last line.
pub open spec fn initial_state(text: Seq<char>) -> SessionState {
    SessionState {
        text,
        column: line_len(text, newline_count(text)),
        row: newline_count(text),
    }
}

/// A session begins with the cursor in the text, behind its last character.
pub proof fn law_initial_cursor(text: Seq<char>)
    ensures
        initial_state(text).valid(),
        line_start(text, initial_state(text).row) + initial_state(text).column == text.len(),
{
    lemma_last_line_ends_text(text);
}

/// Whether a session on `content` can begin: whether the end of the text,
/// as column and row, fits into a pair of `u16`.
pub fn can_initialize(content: &str) -> (possible: bool)
    ensures
        possible == initial_state(content@).fits(),
{
    let row = count_newlines(content);
    row <= u16::MAX as usize && line_chars(content, row) <= u16::MAX as usize
}

/// Begins a session on `content`, with the cursor at the end of the text.
/// The cursor has to fit into a pair of `u16`.
pub fn initialize_text_buffer(content: String) -> (session: EditSession)
    requires
        initial_state(content@).fits(),
    ensures
        session@ == initial_state(content@),
        session@.valid(),
{
    let row = count_newlines(content.as_str());
    let column = line_chars(content.as_str(), row);
    EditSession { buffer: content, cursor: (column as u16, row as u16) }
}

impl EditSession {
    /// A session on the empty text.
    pub fn new() -> (session: EditSession)
        ensures
            session@ == (SessionState { text: Seq::empty(), column: 0, row: 0 }),
            session@.valid(),
    {
        let session = EditSession { buffer: String::new(), cursor: (0, 0) };
        assert(session@.text.skip(0).len() == 0);
        session
    }

    /// The cursor of a session fits into its pair of `u16`.
    pub proof fn lemma_fits(&self)
        ensures
            self@.fits(),
    {
    }

    /// The text as it stands.
    pub fn text(&self) -> (text: &str)
        ensures
            text@ == self@.text,
    {
        self.buffer.as_str()
    }

    /// The cursor, as column and row.
    pub fn cursor(&self) -> (cursor: (u16, u16))
        ensures
            cursor.0 == self@.column,
            cursor.1 == self@.row,
    {
        self.cursor
    }

    /// Types `c` at the cursor.
    pub fn insert_char(&mut self, c: char)
        requires
            old(self)@.insert_char(c).fits(),
        ensures
            final(self)@ == old(self)@.insert_char(c),
            old(self)@.valid() && c != '\n' ==> final(self)@.valid(),
    {
        proof {
            if self@.valid() && c != '\n' {
                law_insert_char_keeps_cursor(self@, c);
            }
        }
        let index = position_to_index(self.buffer.as_str(), self.cursor);
        insert_at(&mut self.buffer, index, c);
        self.cursor.0 += 1;
    }

    /// Breaks the line at the cursor.
    pub fn insert_newline(&mut self)
        requires
            old(self)@.insert_newline().fits(),
        ensures
            final(self)@ == old(self)@.insert_newline(),
            old(self)@.valid() ==> final(self)@.valid(),
    {
        proof {
            if self@.valid() {
                law_insert_newline_keeps_cursor(self@);
            }
        }
        let index = position_to_index(self.buffer.as_str(), self.cursor);
        insert_at(&mut self.buffer, index, '\n');
        self.cursor.0 = 0;
        self.cursor.1 += 1;
    }

    /// Takes out the character in front of the cursor.
    pub fn backspace(&mut self)
        requires
            old(self)@.backspace().fits(),
        ensures
            final(self)@ == old(self)@.backspace(),
            old(self)@.valid() ==> final(self)@.valid(),
    {
        proof {
            if self@.valid() {
                law_backspace_keeps_cursor(self@);
            }
        }
        if !self.buffer.as_str().is_empty() && (self.cursor.0 > 0 || self.cursor.1 > 0) {
            proof {
                lemma_place_when_deleting(self@);
            }
            let index = position_to_index(self.buffer.as_str(), self.cursor);
            remove_before(&mut self.buffer, index);
            if self.cursor.0 > 0 {
                self.cursor.0 -= 1;
            } else {
                self.cursor.1 -= 1;
                self.cursor.0 = line_length(self.buffer.as_str(), self.cursor.1 as usize);
            }
        }
    }

    /// Moves the cursor one character back.
    pub fn move_left(&mut self)
        requires
            old(self)@.move_left().fits(),
        ensures
            final(self)@ == old(self)@.move_left(),
            old(self)@.valid() ==> final(self)@.valid(),
    {
        proof {
            if self@.valid() {
                law_moves_keep_cursor(self@);
            }
        }
        if self.cursor.0 > 0 {
            self.cursor.0 -= 1;
        } else if self.cursor.1 > 0 {
            self.cursor.1 -= 1;
            self.cursor.0 = line_length(self.buffer.as_str(), self.cursor.1 as usize);
        }
    }

    /// Moves the cursor one character on.
    pub fn move_right(&mut self)
        requires
            old(self)@.move_right().fits(),
        ensures
            final(self)@ == old(self)@.move_right(),
            old(self)@.valid() ==> final(self)@.valid(),
    {
        proof {
            if self@.valid() {
                law_moves_keep_cursor(self@);
            }
        }
        if (self.cursor.0 as usize) < line_chars(self.buffer.as_str(), self.cursor.1 as usize) {
            self.cursor.0 += 1;
        } else if (self.cursor.1 as usize) < count_newlines(self.buffer.as_str()) {
            self.cursor.1 += 1;
            self.cursor.0 = 0;
        }
    }

    /// Puts the cursor into row `row`, in its column or at the end of the
    /// row where the row is shorter.
    fn enter_row(&mut self, row: u16)
        ensures
            final(self)@ == old(self)@.in_row(row as nat),
    {
        let length = line_chars(self.buffer.as_str(), row as usize);
        if self.cursor.0 as usize > length {
            self.cursor.0 = length as u16;
        }
        self.cursor.1 = row;
    }

    /// Moves the cursor one row up.
    pub fn move_up(&mut self)
        ensures
            final(self)@ == old(self)@.move_up(),
            old(self)@.valid() ==> final(self)@.valid(),
    {
        proof {
            if self@.valid() {
                law_moves_keep_cursor(self@);
            }
        }
        if self.cursor.1 > 0 {
            let row = self.cursor.1 - 1;
            self.enter_row(row);
        }
    }

    /// Moves the cursor one row down.
    pub fn move_down(&mut self)
        requires
            old(self)@.move_down().fits(),
        ensures
            final(self)@ == old(self)@.move_down(),
            old(self)@.valid() ==> final(self)@.valid(),
    {
        proof {
            if self@.valid() {
                law_moves_keep_cursor(self@);
            }
        }
        if (self.cursor.1 as usize) < count_newlines(self.buffer.as_str()) {
            let row = self.cursor.1 + 1;
            self.enter_row(row);
        }
    }

    /// Whether `command` leaves the cursor within what a pair of `u16`
    /// holds, so that the session can carry it out.
    pub fn can_apply(&self, command: Command) -> (possible: bool)
        ensures
            possible == self@.apply(command).fits(),
    {
        match command {
            Command::InsertChar(_) => self.cursor.0 < u16::MAX,
            Command::InsertNewline => self.cursor.1 < u16::MAX,
            Command::Backspace => {
                if self.cursor.0 == 0 && self.cursor.1 > 0 && !self.buffer.as_str().is_empty() {
                    proof {
                        lemma_place_when_deleting(self@);
                    }
                    let mut probe = self.buffer.clone();
                    let index = position_to_index(probe.as_str(), self.cursor);
                    remove_before(&mut probe, index);
                    line_chars(probe.as_str(), (self.cursor.1 - 1) as usize) <= u16::MAX as usize
                } else {
                    true
                }
            },
            Command::MoveLeft => {
                if self.cursor.0 == 0 && self.cursor.1 > 0 {
                    line_chars(self.buffer.as_str(), (self.cursor.1 - 1) as usize)
                        <= u16::MAX as usize
                } else {
                    true
                }
            },
            Command::MoveRight => {
                if (self.cursor.0 as usize) < line_chars(
                    self.buffer.as_str(),
                    self.cursor.1 as usize,
                ) {
                    self.cursor.0 < u16::MAX
                } else if (self.cursor.1 as usize) < count_newlines(self.buffer.as_str()) {
                    self.cursor.1 < u16::MAX
                } else {
                    true
                }
            },
            Command::MoveDown => {
                if (self.cursor.1 as usize) < count_newlines(self.buffer.as_str()) {
                    self.cursor.1 < u16::MAX
                } else {
                    true
                }
            },
            Command::MoveUp => true,
            Command::Save => true,
            Command::Discard => true,
        }
    }

    /// Carries out `command` and says what is to happen next. The text is
    /// written out by the caller, where the outcome asks for it.
    pub fn apply(&mut self, command: Command) -> (outcome: Outcome)
        requires
            old(self)@.apply(command).fits(),
        ensures
            final(self)@ == old(self)@.apply(command),
            outcome == outcome_of(command),
            old(self)@.valid() && command != Command::InsertChar('\n') ==> final(self)@.valid(),
    {
        match command {
            Command::InsertChar(c) => {
                self.insert_char(c);
                Outcome::Continue
            },
            Command::InsertNewline => {
                self.insert_newline();
                Outcome::Continue
            },
            Command::Backspace => {
                self.backspace();
                Outcome::Continue
            },
            Command::MoveLeft => {
                self.move_left();
                Outcome::Continue
            },
            Command::MoveRight => {
                self.move_right();
                Outcome::Continue
            },
            Command::MoveUp => {
                self.move_up();
                Outcome::Continue
            },
            Command::MoveDown => {
                self.move_down();
                Outcome::Continue
            },
            Command::Save => Outcome::Save,
            Command::Discard => Outcome::Discard,
        }
    }
}

} // verus!
