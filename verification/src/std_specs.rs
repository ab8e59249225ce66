//! What is taken on trust of the standard library: the functions on
//! characters and strings that this crate calls and `vstd` does not specify.
//! Each is stated in bytes of UTF-8, as its documentation states it.

use vstd::prelude::*;
use vstd::utf8::{encode_scalar, encode_utf8, is_char_boundary};

verus! {

/// `char::len_utf8` gives the number of bytes that the character needs when
/// it is encoded in UTF-8.
pub assume_specification[ char::len_utf8 ](c: char) -> (n: usize)
    ensures
        n == encode_scalar(c as u32).len(),
;

/// `String::insert` puts the bytes of `ch` into the string at byte offset
/// `idx`, in front of the bytes that were there. The offset has to be a
/// character boundary of the string; it may be the string's end.
pub assume_specification[ String::insert ](s: &mut String, idx: usize, ch: char)
    requires
        is_char_boundary(encode_utf8(old(s)@), idx as int),
    ensures
        encode_utf8(final(s)@) == encode_utf8(old(s)@).subrange(0, idx as int) + encode_scalar(
            ch as u32,
        ) + encode_utf8(old(s)@).subrange(idx as int, encode_utf8(old(s)@).len() as int),
;

/// `String::remove` takes the character that begins at byte offset `idx` out
/// of the string and returns it: putting its bytes back in at `idx` gives the
/// string as it was. The offset has to be a character boundary in front of
/// the string's end.
pub assume_specification[ String::remove ](s: &mut String, idx: usize) -> (ch: char)
    requires
        idx < encode_utf8(old(s)@).len(),
        is_char_boundary(encode_utf8(old(s)@), idx as int),
    ensures
        idx <= encode_utf8(final(s)@).len(),
        encode_utf8(old(s)@) == encode_utf8(final(s)@).subrange(0, idx as int) + encode_scalar(
            ch as u32,
        ) + encode_utf8(final(s)@).subrange(idx as int, encode_utf8(final(s)@).len() as int),
;

} // verus!
