//! Positions in a text, as cursors and as offsets.
//!
//! A cursor is a column and a row, both counted from zero. An offset is a
//! place in the text as `str` counts it, in bytes of UTF-8. The functions
//! here take the one to the other by scanning the text; nothing is kept
//! between calls.

use vstd::prelude::*;
use vstd::std_specs::iter::IteratorSpec;
use crate::encoding::{
    byte_len, byte_length, byte_offset, char_width, chars_before, lemma_byte_len_first,
    lemma_byte_offset_ends, lemma_byte_offset_first, lemma_byte_offset_grows,
    lemma_byte_offset_next, lemma_char_width_range, lemma_chars_before,
    lemma_chars_before_offset, lemma_chars_before_unique, lemma_chars_le_bytes,
};
use crate::lines::{
    first_line_len, lemma_first_line, lemma_first_line_whole, lemma_line_len_first,
    lemma_line_len_past_last, lemma_line_start_behind_line_feed, lemma_line_start_bound,
    lemma_line_start_past_last, lemma_newline_count_bound, lemma_newline_count_take,
    lemma_newlines_before_line, line_count, line_len, line_start, newline_count, row_after,
};

verus! {

broadcast use vstd::string::group_string_axioms;

/// The offset at which line `row` of `s` begins; the length of the encoding
/// where `s` has no such line.
pub open spec fn row_offset(s: Seq<char>, row: nat) -> nat {
    byte_offset(s, line_start(s, row))
}

/// The offset that a cursor stands for: the column is added to the offset at
/// which the row begins, whatever the length of the row, and the sum is cut
/// off at the end of the text.
pub open spec fn position_offset(s: Seq<char>, column: nat, row: nat) -> nat {
    if row_offset(s, row) + column <= byte_len(s) {
        row_offset(s, row) + column
    } else {
        byte_len(s)
    }
}

/// The row that holds offset `o`: as many rows as line feeds begin in front
/// of `o`.
pub open spec fn offset_row(s: Seq<char>, o: nat) -> nat {
    newline_count(s.take(chars_before(s, o) as int))
}

/// The cursor, as column and row, that offset `o` is found at by scanning
/// `s`: its row, and its distance from where that row begins.
pub open spec fn offset_position(s: Seq<char>, o: nat) -> (nat, nat) {
    ((o - row_offset(s, offset_row(s, o))) as nat, offset_row(s, o))
}

/// Whether a cursor points into `s`: at one of the characters of an existing
/// row, or behind the last of them.
pub open spec fn in_text(s: Seq<char>, column: nat, row: nat) -> bool {
    row < line_count(s) && column <= line_len(s, row)
}

/// Counts the line feeds of `text`.
pub fn count_newlines(text: &str) -> (n: usize)
    ensures
        n == newline_count(text@),
{
    let total = byte_length(text);
    proof {
        lemma_newline_count_bound(text@);
        lemma_chars_le_bytes(text@);
    }
    let mut n: usize = 0;
    let mut rest = text.chars();
    loop
        invariant_except_break
            n + newline_count(rest.remaining()) == newline_count(text@),
            newline_count(text@) <= total,
            rest.obeys_prophetic_iter_laws(),
            rest.decrease() is Some,
        ensures
            n == newline_count(text@),
        decreases rest.decrease()->0,
    {
        match rest.next() {
            Some(ch) => {
                if ch == '\n' {
                    n += 1;
                }
            },
            None => {
                break;
            },
        }
    }
    n
}

/// The number of lines of `text`: one more than it has line feeds. The
/// number has to fit into a `usize`; `count_newlines` counts in any text.
pub fn total_lines(text: &str) -> (n: usize)
    requires
        line_count(text@) <= usize::MAX,
    ensures
        n == line_count(text@),
        n == newline_count(text@) + 1,
        n >= 1,
{
    count_newlines(text) + 1
}

/// The offset in `text` that `cursor`, a column and a row, stands for.
///
/// The scan stops where the row begins and adds the column without looking
/// at the row's length, so a column beyond the row's end reaches into the
/// rows that follow. No offset lies beyond the end of the text: a sum that
/// would, and a row that the text does not have, give the text's length.
pub fn position_to_index(text: &str, cursor: (u16, u16)) -> (index: usize)
    ensures
        index == position_offset(text@, cursor.0 as nat, cursor.1 as nat),
        index <= byte_len(text@),
        cursor.1 >= line_count(text@) ==> index == byte_len(text@),
        in_text(text@, cursor.0 as nat, cursor.1 as nat) ==> index == row_offset(
            text@,
            cursor.1 as nat,
        ) + cursor.0,
{
    let (x, y) = cursor;
    let total = byte_length(text);
    let mut line: u16 = 0;
    let mut index: usize = 0;
    let mut rest = text.chars();
    let ghost mut seen: int = 0;
    assert(text@.skip(0) == text@);
    loop
        invariant_except_break
            (x, y) == cursor,
            line <= y,
            0 <= seen <= text@.len(),
            rest.remaining() == text@.skip(seen),
            index + row_offset(text@.skip(seen), (y - line) as nat) == row_offset(text@, y as nat),
            index + byte_len(text@.skip(seen)) == total,
            total == byte_len(text@),
            rest.obeys_prophetic_iter_laws(),
            rest.decrease() is Some,
        ensures
            (x, y) == cursor,
            index == total,
            index == row_offset(text@, y as nat),
            total == byte_len(text@),
        decreases rest.decrease()->0,
    {
        proof {
            let tail = text@.skip(seen);
            lemma_row_offset_first(tail, (y - line) as nat);
            if tail.len() > 0 {
                lemma_byte_len_first(tail);
                assert(tail.drop_first() == text@.skip(seen + 1));
            }
        }
        match rest.next() {
            Some(ch) => {
                if line == y {
                    proof {
                        lemma_position_offset(text@, x as nat, y as nat);
                    }
                    return if x as usize <= total - index {
                        index + x as usize
                    } else {
                        total
                    };
                }
                index += ch.len_utf8();
                if ch == '\n' {
                    line += 1;
                }
                proof {
                    seen = seen + 1;
                }
            },
            None => {
                break;
            },
        }
    }
    proof {
        lemma_position_offset(text@, x as nat, y as nat);
    }
    index
}

/// The number of characters of line `y` of `text`, its line feed not
/// counted; zero where the text has no such line.
pub fn line_chars(text: &str, y: usize) -> (length: usize)
    ensures
        length == line_len(text@, y as nat),
        y >= line_count(text@) ==> length == 0,
{
    let total = byte_length(text);
    let mut line: usize = 0;
    let mut length: usize = 0;
    let mut rest = text.chars();
    let ghost mut seen: int = 0;
    proof {
        assert(text@.skip(0) == text@);
        lemma_line_within_text(text@, y as nat);
        lemma_chars_le_bytes(text@);
        lemma_line_len_past_last(text@, y as nat);
    }
    loop
        invariant_except_break
            line <= y,
            0 <= seen <= text@.len(),
            rest.remaining() == text@.skip(seen),
            line < y ==> length == 0 && line_len(text@.skip(seen), (y - line) as nat) == line_len(
                text@,
                y as nat,
            ),
            line == y ==> length + first_line_len(text@.skip(seen)) == line_len(text@, y as nat),
            line_len(text@, y as nat) <= total,
            rest.obeys_prophetic_iter_laws(),
            rest.decrease() is Some,
        ensures
            length == line_len(text@, y as nat),
        decreases rest.decrease()->0,
    {
        proof {
            let tail = text@.skip(seen);
            lemma_line_len_first(tail, (y - line) as nat);
            if tail.len() > 0 {
                assert(tail.drop_first() == text@.skip(seen + 1));
                lemma_line_len_first(tail.drop_first(), 0);
            }
        }
        match rest.next() {
            Some(ch) => {
                if line == y {
                    if ch == '\n' {
                        break;
                    }
                    length += 1;
                } else if ch == '\n' {
                    line += 1;
                }
                proof {
                    seen = seen + 1;
                }
            },
            None => {
                break;
            },
        }
    }
    length
}

/// The length of line `y` of `text` in characters, its line feed not
/// counted; zero where the text has no such line. The length has to fit
/// into a `u16`; `line_chars` counts any line.
pub fn line_length(text: &str, y: usize) -> (length: u16)
    requires
        line_len(text@, y as nat) <= u16::MAX,
    ensures
        length == line_len(text@, y as nat),
        y >= line_count(text@) ==> length == 0,
{
    line_chars(text, y) as u16
}

/// The cursor, as column and row, at which offset `index` of `text` is
/// found by scanning: the row counts the line feeds that begin in front of
/// the offset, the column the bytes between the row's beginning and the
/// offset.
pub fn index_to_position(text: &str, index: usize) -> (position: (usize, usize))
    ensures
        (position.0 as nat, position.1 as nat) == offset_position(text@, index as nat),
{
    let mut row: usize = 0;
    let mut row_begin: usize = 0;
    let mut offset: usize = 0;
    let mut rest = text.chars();
    let total = byte_length(text);
    let ghost mut seen: nat = 0;
    proof {
        assert(text@.skip(0) == text@);
        assert(text@.take(0).len() == 0);
        lemma_byte_offset_ends(text@);
    }
    loop
        invariant_except_break
            seen <= text@.len(),
            rest.remaining() == text@.skip(seen as int),
            offset == byte_offset(text@, seen),
            row == newline_count(text@.take(seen as int)),
            row_begin == row_offset(text@, row as nat),
            row_begin <= index,
            row_begin <= offset,
            seen > 0 ==> byte_offset(text@, (seen - 1) as nat) < index,
            total == byte_len(text@),
            rest.obeys_prophetic_iter_laws(),
            rest.decrease() is Some,
        ensures
            row == offset_row(text@, index as nat),
            row_begin == row_offset(text@, row as nat),
            row_begin <= index,
        decreases rest.decrease()->0,
    {
        if offset >= index {
            proof {
                lemma_chars_before_unique(text@, index as nat, seen);
            }
            break;
        }
        match rest.next() {
            Some(ch) => {
                proof {
                    lemma_byte_offset_next(text@, seen);
                    lemma_byte_offset_grows(text@, seen + 1, text@.len());
                    lemma_byte_offset_ends(text@);
                    lemma_newline_count_take(text@, seen, seen + 1);
                    let one = text@.subrange(seen as int, seen as int + 1);
                    assert(one[0] == ch);
                    assert(newline_count(one.drop_first()) == 0);
                    lemma_newline_count_bound(text@.take(seen as int + 1));
                    lemma_chars_le_bytes(text@);
                    assert(text@.skip(seen as int).drop_first() == text@.skip(seen as int + 1));
                    if ch == '\n' {
                        lemma_line_start_behind_line_feed(text@, seen);
                    }
                }
                offset += ch.len_utf8();
                if ch == '\n' {
                    row += 1;
                    row_begin = offset;
                }
                proof {
                    seen = seen + 1;
                }
            },
            None => {
                proof {
                    lemma_chars_before_unique(text@, index as nat, seen);
                }
                break;
            },
        }
    }
    (index - row_begin, row)
}

/// An offset, taken back to a cursor by scanning, is found at the cursor it
/// was made from, wherever that cursor points into the text.
pub proof fn law_position_round_trip(s: Seq<char>, column: nat, row: nat)
    requires
        row < line_count(s),
        column <= line_len(s, row),
    ensures
        offset_position(s, position_offset(s, column, row)) == (column, row),
{
    lemma_cursor_place(s, column, row);
    lemma_position_offset(s, column, row);
}

/// A cursor, taken from an offset within the text by scanning, stands for
/// that offset.
pub proof fn law_offset_round_trip(s: Seq<char>, o: nat)
    requires
        o <= byte_len(s),
    ensures
        position_offset(s, offset_position(s, o).0, offset_position(s, o).1) == o,
{
    lemma_row_begins_before(s, o);
}

/// A probe beyond the text gives the end of the text: a cursor whose row
/// the text does not have, or whose column is no less than the text's
/// length, stands for the offset at which the text ends.
pub proof fn law_probe_past_end(s: Seq<char>, column: nat, row: nat)
    requires
        row >= line_count(s) || column >= byte_len(s),
    ensures
        position_offset(s, column, row) == byte_len(s),
{
    lemma_position_offset(s, column, row);
}

/// A row that the text does not have has length zero.
pub proof fn law_missing_line_is_empty(s: Seq<char>, row: nat)
    requires
        row >= line_count(s),
    ensures
        line_len(s, row) == 0,
{
    lemma_line_len_past_last(s, row);
}

/// A text has one line more than it has line feeds, and so at least one.
pub proof fn law_line_count(s: Seq<char>)
    ensures
        line_count(s) == newline_count(s) + 1,
        line_count(s) >= 1,
{
}

/// The first row begins at offset zero; a later row begins where it begins
/// in the text without its first character, moved by that character's width.
pub proof fn lemma_row_offset_first(s: Seq<char>, row: nat)
    ensures
        row == 0 || s.len() == 0 ==> row_offset(s, row) == 0,
        row != 0 && s.len() != 0 ==> row_offset(s, row) == char_width(s[0]) + row_offset(
            s.drop_first(),
            row_after(s[0], row),
        ),
{
    lemma_byte_offset_ends(s);
    if row != 0 && s.len() != 0 {
        let next = row_after(s[0], row);
        lemma_line_start_bound(s.drop_first(), next);
        lemma_byte_offset_first(s, line_start(s.drop_first(), next));
    }
}

/// What the offset of a cursor is where the row is missing, and where the
/// cursor points into the text.
pub proof fn lemma_position_offset(s: Seq<char>, column: nat, row: nat)
    ensures
        position_offset(s, column, row) <= byte_len(s),
        row >= line_count(s) ==> position_offset(s, column, row) == byte_len(s),
        in_text(s, column, row) ==> position_offset(s, column, row) == row_offset(s, row) + column,
{
    lemma_byte_offset_ends(s);
    if row >= line_count(s) {
        lemma_line_start_past_last(s, row);
    }
    if in_text(s, column, row) {
        lemma_line_within_text(s, row);
    }
}

/// Where a cursor that points into the text stands among its characters:
/// the characters that begin in front of its offset are those in front of
/// its row and some of the row's own, and they hold the line feeds in front
/// of the row and no more.
pub proof fn lemma_cursor_place(s: Seq<char>, column: nat, row: nat)
    requires
        in_text(s, column, row),
    ensures
        line_start(s, row) <= chars_before(s, position_offset(s, column, row)) <= line_start(
            s,
            row,
        ) + line_len(s, row),
        column > 0 ==> line_start(s, row) < chars_before(s, position_offset(s, column, row)),
        line_start(s, row) + line_len(s, row) <= s.len(),
        offset_row(s, position_offset(s, column, row)) == row,
        chars_before(s, row_offset(s, row)) == line_start(s, row),
{
    let o = position_offset(s, column, row);
    let k = chars_before(s, o);
    let begin = line_start(s, row);
    let end = begin + line_len(s, row);
    lemma_position_offset(s, column, row);
    lemma_line_within_text(s, row);
    lemma_chars_before(s, o);
    lemma_chars_before_offset(s, begin);
    if k < begin {
        lemma_byte_offset_grows(s, k, begin);
        lemma_byte_offset_grows(s, k, k + 1);
    }
    if k > end {
        lemma_byte_offset_grows(s, end, (k - 1) as nat);
    }
    if column > 0 && k == begin {
        lemma_byte_offset_grows(s, begin, s.len());
        lemma_byte_offset_ends(s);
    }
    lemma_newlines_before_line(s, row);
    lemma_newline_count_take(s, begin, k);
    let run = s.subrange(begin as int, k as int);
    let tail = s.skip(begin as int);
    lemma_first_line(tail);
    assert forall|i: int| 0 <= i < run.len() implies run[i] != '\n' by {
        assert(run[i] == tail[i]);
    }
    lemma_first_line_whole(run);
}

/// The row of an offset begins at that offset or in front of it.
pub proof fn lemma_row_begins_before(s: Seq<char>, o: nat)
    ensures
        row_offset(s, offset_row(s, o)) <= o,
        offset_row(s, o) < line_count(s),
    decreases chars_before(s, o),
{
    let k = chars_before(s, o);
    lemma_chars_before(s, o);
    lemma_byte_offset_ends(s);
    lemma_newline_count_take(s, k, s.len());
    assert(s.take(s.len() as int) == s);
    if k == 0 {
        assert(s.take(0).len() == 0);
    } else {
        let j = (k - 1) as nat;
        lemma_newline_count_take(s, j, k);
        let one = s.subrange(j as int, k as int);
        assert(one[0] == s[j as int]);
        assert(newline_count(one.drop_first()) == 0);
        lemma_byte_offset_next(s, j);
        if s[j as int] == '\n' {
            lemma_line_start_behind_line_feed(s, j);
        } else {
            let p = byte_offset(s, j);
            lemma_chars_before_offset(s, j);
            lemma_row_begins_before(s, p);
        }
    }
}

/// A cursor behind the very beginning stands for an offset behind the
/// beginning, unless the text is empty.
pub proof fn lemma_offset_positive(s: Seq<char>, column: nat, row: nat)
    requires
        s.len() > 0,
        column > 0 || row > 0,
    ensures
        position_offset(s, column, row) > 0,
{
    lemma_chars_le_bytes(s);
    if row > 0 {
        lemma_row_offset_first(s, row);
        lemma_char_width_range(s[0]);
    }
}

/// A line lies within the text: it ends no later than the text does, and
/// its characters take at least a byte each.
pub proof fn lemma_line_within_text(s: Seq<char>, row: nat)
    ensures
        line_start(s, row) + line_len(s, row) <= s.len(),
        row_offset(s, row) + line_len(s, row) <= byte_offset(
            s,
            line_start(s, row) + line_len(s, row),
        ),
        byte_offset(s, line_start(s, row) + line_len(s, row)) <= byte_len(s),
{
    lemma_line_start_bound(s, row);
    let k = line_start(s, row);
    lemma_first_line(s.skip(k as int));
    lemma_byte_offset_grows(s, k, k + line_len(s, row));
    lemma_byte_offset_grows(s, k + line_len(s, row), s.len());
    lemma_byte_offset_ends(s);
}

} // verus!
