//! Changes to a `String` at an offset.
//!
//! `String` puts characters in and takes them out at byte offsets that are
//! character boundaries. An offset that a cursor stands for need not be one,
//! where the text holds characters of more than one byte. The functions here
//! take any offset: they find the characters that begin in front of it, and
//! work at the boundary behind the last of them.

use vstd::prelude::*;
use vstd::std_specs::iter::IteratorSpec;
use crate::encoding::{
    byte_len, byte_length, byte_offset, chars_before, lemma_byte_offset_ends,
    lemma_byte_offset_grows, lemma_byte_offset_next, lemma_chars_before,
    lemma_chars_before_unique, lemma_insert_by_bytes, lemma_offset_is_boundary,
    lemma_remove_by_bytes,
};

verus! {

broadcast use vstd::string::group_string_axioms;

/// The two character boundaries of `text` at the characters that begin in
/// front of `offset`: where the last of them begins, and where it ends. The
/// first is zero where no character begins in front of `offset`.
pub fn char_bounds(text: &str, offset: usize) -> (bounds: (usize, usize))
    ensures
        bounds.1 == byte_offset(text@, chars_before(text@, offset as nat)),
        bounds.0 == if chars_before(text@, offset as nat) > 0 {
            byte_offset(text@, (chars_before(text@, offset as nat) - 1) as nat)
        } else {
            0
        },
        bounds.0 <= bounds.1 <= byte_len(text@),
{
    let total = byte_length(text);
    let mut begin: usize = 0;
    let mut end: usize = 0;
    let mut rest = text.chars();
    let ghost mut seen: nat = 0;
    proof {
        assert(text@.skip(0) == text@);
        lemma_byte_offset_ends(text@);
    }
    loop
        invariant_except_break
            seen <= text@.len(),
            rest.remaining() == text@.skip(seen as int),
            end == byte_offset(text@, seen),
            begin == if seen > 0 {
                byte_offset(text@, (seen - 1) as nat)
            } else {
                0
            },
            seen > 0 ==> begin < offset,
            begin <= end <= total,
            total == byte_len(text@),
            rest.obeys_prophetic_iter_laws(),
            rest.decrease() is Some,
        ensures
            seen == chars_before(text@, offset as nat),
            end == byte_offset(text@, seen),
            begin == if seen > 0 {
                byte_offset(text@, (seen - 1) as nat)
            } else {
                0
            },
            begin <= end <= total,
            total == byte_len(text@),
        decreases rest.decrease()->0,
    {
        if end >= offset {
            proof {
                lemma_chars_before_unique(text@, offset as nat, seen);
            }
            break;
        }
        match rest.next() {
            Some(ch) => {
                proof {
                    lemma_byte_offset_next(text@, seen);
                    lemma_byte_offset_grows(text@, seen + 1, text@.len());
                    lemma_byte_offset_ends(text@);
                    assert(text@.skip(seen as int).drop_first() == text@.skip(seen as int + 1));
                }
                begin = end;
                end += ch.len_utf8();
                proof {
                    seen = seen + 1;
                }
            },
            None => {
                proof {
                    lemma_chars_before_unique(text@, offset as nat, seen);
                }
                break;
            },
        }
    }
    (begin, end)
}

/// Puts `c` into `buffer` behind the characters that begin in front of
/// `offset`.
pub fn insert_at(buffer: &mut String, offset: usize, c: char)
    ensures
        final(buffer)@ == old(buffer)@.insert(chars_before(old(buffer)@, offset as nat) as int, c),
{
    let (_, at) = char_bounds(buffer.as_str(), offset);
    proof {
        lemma_chars_before(buffer@, offset as nat);
        lemma_offset_is_boundary(buffer@, chars_before(buffer@, offset as nat));
    }
    buffer.insert(at, c);
    proof {
        lemma_insert_by_bytes(old(buffer)@, buffer@, chars_before(old(buffer)@, offset as nat), c);
    }
}

/// Takes the last character that begins in front of `offset` out of
/// `buffer` and returns it, if there is one.
pub fn remove_before(buffer: &mut String, offset: usize) -> (removed: Option<char>)
    ensures
        chars_before(old(buffer)@, offset as nat) == 0 ==> removed is None && final(buffer)@ == old(
            buffer,
        )@,
        chars_before(old(buffer)@, offset as nat) > 0 ==> removed == Some(
            old(buffer)@[chars_before(old(buffer)@, offset as nat) - 1],
        ) && final(buffer)@ == old(buffer)@.remove(chars_before(old(buffer)@, offset as nat) - 1),
{
    let (at, end) = char_bounds(buffer.as_str(), offset);
    if at == end {
        proof {
            let n = chars_before(buffer@, offset as nat);
            lemma_chars_before(buffer@, offset as nat);
            if n > 0 {
                lemma_byte_offset_grows(buffer@, (n - 1) as nat, n);
            }
        }
        return None;
    }
    let ghost n = chars_before(buffer@, offset as nat);
    proof {
        lemma_chars_before(buffer@, offset as nat);
        lemma_byte_offset_ends(buffer@);
        lemma_offset_is_boundary(buffer@, (n - 1) as nat);
    }
    let c = buffer.remove(at);
    proof {
        lemma_remove_by_bytes(old(buffer)@, buffer@, (n - 1) as nat, c);
    }
    Some(c)
}

} // verus!
