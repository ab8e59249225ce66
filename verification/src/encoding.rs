//! The bytes that the characters of a text take in UTF-8.
//!
//! A text is viewed as its sequence of characters; offsets into it count
//! bytes of its UTF-8 encoding, as `str` and `String` do. The encoding
//! itself is the one that `vstd::utf8` defines.

use vstd::prelude::*;
use vstd::utf8::*;

verus! {

/// The number of bytes that `c` takes in UTF-8.
pub open spec fn char_width(c: char) -> nat {
    encode_scalar(c as u32).len()
}

/// The number of bytes that `s` takes in UTF-8.
pub open spec fn byte_len(s: Seq<char>) -> nat {
    encode_utf8(s).len()
}

/// The byte offset at which the character of index `k` begins in the
/// encoding of `s`; for the length of `s`, the length of the encoding.
pub open spec fn byte_offset(s: Seq<char>, k: nat) -> nat {
    byte_len(s.take(k as int))
}

/// How many characters of `s` begin in front of byte offset `o`.
pub open spec fn chars_before(s: Seq<char>, o: nat) -> nat
    decreases s.len(),
{
    if s.len() == 0 || o == 0 {
        0
    } else if o <= char_width(s[0]) {
        1
    } else {
        1 + chars_before(s.drop_first(), (o - char_width(s[0])) as nat)
    }
}

/// The number of bytes of `text`.
pub fn byte_length(text: &str) -> (n: usize)
    ensures
        n == byte_len(text@),
{
    text.as_bytes().len()
}

/// A character takes between one and four bytes.
pub proof fn lemma_char_width_range(c: char)
    ensures
        1 <= char_width(c) <= 4,
{
}

/// The bytes of a text are those of its first character and those of the rest.
pub proof fn lemma_byte_len_first(s: Seq<char>)
    requires
        s.len() > 0,
    ensures
        byte_len(s) == char_width(s[0]) + byte_len(s.drop_first()),
{
}

/// A text of one character takes the bytes of that character.
pub proof fn lemma_byte_len_single(c: char)
    ensures
        encode_utf8(seq![c]) == encode_scalar(c as u32),
        byte_len(seq![c]) == char_width(c),
{
    let one = seq![c];
    assert(one.drop_first().len() == 0);
    assert(encode_utf8(one.drop_first()).len() == 0);
    assert(encode_utf8(one) == encode_scalar(one[0] as u32) + encode_utf8(one.drop_first()));
}

/// The encoding of two texts in a row is the two encodings in a row.
pub proof fn lemma_encode_concat(a: Seq<char>, b: Seq<char>)
    ensures
        encode_utf8(a + b) == encode_utf8(a) + encode_utf8(b),
    decreases a.len(),
{
    if a.len() == 0 {
        assert(a + b == b);
        assert(encode_utf8(a) + encode_utf8(b) == encode_utf8(b));
    } else {
        assert((a + b).drop_first() == a.drop_first() + b);
        lemma_encode_concat(a.drop_first(), b);
    }
}

/// Byte lengths add up over concatenation.
pub proof fn lemma_byte_len_concat(a: Seq<char>, b: Seq<char>)
    ensures
        byte_len(a + b) == byte_len(a) + byte_len(b),
{
    lemma_encode_concat(a, b);
}

/// A text has no more characters than bytes.
pub proof fn lemma_chars_le_bytes(s: Seq<char>)
    ensures
        s.len() <= byte_len(s),
    decreases s.len(),
{
    if s.len() > 0 {
        lemma_char_width_range(s[0]);
        lemma_chars_le_bytes(s.drop_first());
    }
}

/// The offset of a character behind the first is the width of the first and
/// the character's offset in the rest.
pub proof fn lemma_byte_offset_first(s: Seq<char>, k: nat)
    requires
        k < s.len(),
    ensures
        byte_offset(s, k + 1) == char_width(s[0]) + byte_offset(s.drop_first(), k),
{
    let head = s.take(k as int + 1);
    assert(head[0] == s[0]);
    assert(head.drop_first() == s.drop_first().take(k as int));
    lemma_byte_len_first(head);
}

/// A character ends where the next begins.
pub proof fn lemma_byte_offset_next(s: Seq<char>, k: nat)
    requires
        k < s.len(),
    ensures
        byte_offset(s, k + 1) == byte_offset(s, k) + char_width(s[k as int]),
{
    let head = s.take(k as int);
    let one = seq![s[k as int]];
    assert(s.take(k as int + 1) == head + one);
    lemma_byte_len_concat(head, one);
    lemma_byte_len_single(s[k as int]);
}

/// The first character begins at offset zero, and the encoding ends where
/// the last character does.
pub proof fn lemma_byte_offset_ends(s: Seq<char>)
    ensures
        byte_offset(s, 0) == 0,
        byte_offset(s, s.len()) == byte_len(s),
{
    assert(s.take(0).len() == 0);
    assert(s.take(s.len() as int) == s);
}

/// Later characters begin at later offsets: each character in between takes
/// a byte at least.
pub proof fn lemma_byte_offset_grows(s: Seq<char>, i: nat, j: nat)
    requires
        i <= j <= s.len(),
    ensures
        byte_offset(s, i) + (j - i) <= byte_offset(s, j),
    decreases j - i,
{
    if i < j {
        lemma_byte_offset_grows(s, i, (j - 1) as nat);
        lemma_byte_offset_next(s, (j - 1) as nat);
        lemma_char_width_range(s[j - 1]);
    }
}

/// Characters of one byte each take as many bytes as they are.
pub proof fn lemma_byte_offset_plain(s: Seq<char>, i: nat, n: nat)
    requires
        i + n <= s.len(),
        forall|j: int| i <= j < i + n ==> char_width(#[trigger] s[j]) == 1,
    ensures
        byte_offset(s, i + n) == byte_offset(s, i) + n,
    decreases n,
{
    if n > 0 {
        lemma_byte_offset_plain(s, i, (n - 1) as nat);
        lemma_byte_offset_next(s, (i + n - 1) as nat);
    }
}

/// What `chars_before` counts: every character in front of the one it names
/// begins before the offset, and that one, if there is one, does not.
pub proof fn lemma_chars_before(s: Seq<char>, o: nat)
    ensures
        chars_before(s, o) <= s.len(),
        chars_before(s, o) < s.len() ==> byte_offset(s, chars_before(s, o)) >= o,
        chars_before(s, o) > 0 ==> byte_offset(s, (chars_before(s, o) - 1) as nat) < o,
    decreases s.len(),
{
    lemma_byte_offset_ends(s);
    if s.len() != 0 && o != 0 {
        let w = char_width(s[0]);
        let rest = s.drop_first();
        if o <= w {
            if 1 < s.len() {
                lemma_byte_offset_first(s, 0);
                lemma_byte_offset_ends(rest);
            }
        } else {
            let p = (o - w) as nat;
            let k = chars_before(rest, p);
            lemma_chars_before(rest, p);
            if k < rest.len() {
                lemma_byte_offset_first(s, k);
            }
            if k > 0 {
                lemma_byte_offset_first(s, (k - 1) as nat);
            }
        }
    }
}

/// The count of `chars_before` is the only one with its two properties.
pub proof fn lemma_chars_before_unique(s: Seq<char>, o: nat, k: nat)
    requires
        k <= s.len(),
        k < s.len() ==> byte_offset(s, k) >= o,
        k > 0 ==> byte_offset(s, (k - 1) as nat) < o,
    ensures
        chars_before(s, o) == k,
{
    let n = chars_before(s, o);
    lemma_chars_before(s, o);
    if n < k {
        lemma_byte_offset_grows(s, n, (k - 1) as nat);
    } else if k < n {
        lemma_byte_offset_grows(s, k, (n - 1) as nat);
    }
}

/// In front of the offset at which a character begins, the characters
/// before it begin, and no others.
pub proof fn lemma_chars_before_offset(s: Seq<char>, k: nat)
    requires
        k <= s.len(),
    ensures
        chars_before(s, byte_offset(s, k)) == k,
{
    if k > 0 {
        lemma_byte_offset_grows(s, (k - 1) as nat, k);
    }
    lemma_chars_before_unique(s, byte_offset(s, k), k);
}

/// Texts with the same encoding are the same text.
pub proof fn lemma_encode_injective(a: Seq<char>, b: Seq<char>)
    requires
        encode_utf8(a) == encode_utf8(b),
    ensures
        a == b,
{
    encode_utf8_decode_utf8(a);
    encode_utf8_decode_utf8(b);
}

/// The encoding of a text falls into the encodings of its two parts at the
/// offset at which the second part begins.
pub proof fn lemma_encode_split(s: Seq<char>, k: nat)
    requires
        k <= s.len(),
    ensures
        byte_offset(s, k) <= byte_len(s),
        encode_utf8(s).subrange(0, byte_offset(s, k) as int) == encode_utf8(s.take(k as int)),
        encode_utf8(s).subrange(byte_offset(s, k) as int, byte_len(s) as int) == encode_utf8(
            s.skip(k as int),
        ),
{
    assert(s.take(k as int) + s.skip(k as int) == s);
    lemma_encode_concat(s.take(k as int), s.skip(k as int));
}

/// A character of a text begins at a character boundary of the encoding,
/// and so does the end of the text.
pub proof fn lemma_offset_is_boundary(s: Seq<char>, k: nat)
    requires
        k <= s.len(),
    ensures
        is_char_boundary(encode_utf8(s), byte_offset(s, k) as int),
    decreases s.len(),
{
    let bytes = encode_utf8(s);
    encode_utf8_valid_utf8(s);
    lemma_byte_offset_ends(s);
    if k > 0 {
        let rest = s.drop_first();
        encode_utf8_first_scalar(s);
        assert(pop_first_scalar(bytes) == encode_utf8(rest));
        lemma_byte_offset_first(s, (k - 1) as nat);
        lemma_char_width_range(s[0]);
        lemma_encode_split(s, k);
        lemma_offset_is_boundary(rest, (k - 1) as nat);
    }
}

/// A text whose encoding is that of `s` with the bytes of `c` put in where
/// the character of index `k` begins is `s` with `c` put in at index `k`.
pub proof fn lemma_insert_by_bytes(s: Seq<char>, t: Seq<char>, k: nat, c: char)
    requires
        k <= s.len(),
        encode_utf8(t) == encode_utf8(s).subrange(0, byte_offset(s, k) as int) + encode_scalar(
            c as u32,
        ) + encode_utf8(s).subrange(byte_offset(s, k) as int, byte_len(s) as int),
    ensures
        t == s.insert(k as int, c),
{
    let head = s.take(k as int);
    let tail = s.skip(k as int);
    lemma_encode_split(s, k);
    lemma_byte_len_single(c);
    lemma_encode_concat(head, seq![c]);
    lemma_encode_concat(head + seq![c], tail);
    assert(s.insert(k as int, c) == head + seq![c] + tail);
    lemma_encode_injective(t, s.insert(k as int, c));
}

/// A text into whose encoding the bytes of `c` are put, where the character
/// of index `k` of `s` begins, to give the encoding of `s`, is `s` without
/// that character, which is `c`.
pub proof fn lemma_remove_by_bytes(s: Seq<char>, t: Seq<char>, k: nat, c: char)
    requires
        k < s.len(),
        byte_offset(s, k) <= byte_len(t),
        encode_utf8(s) == encode_utf8(t).subrange(0, byte_offset(s, k) as int) + encode_scalar(
            c as u32,
        ) + encode_utf8(t).subrange(byte_offset(s, k) as int, byte_len(t) as int),
    ensures
        t == s.remove(k as int),
        c == s[k as int],
{
    let b = byte_offset(s, k) as int;
    let new = encode_utf8(t);
    let front = new.subrange(0, b);
    let back = new.subrange(b, new.len() as int);
    let head = s.take(k as int);
    let tail = s.skip(k as int);
    lemma_encode_split(s, k);
    assert(front == encode_utf8(head)) by {
        assert(front == encode_utf8(s).subrange(0, b));
    }
    assert(encode_scalar(c as u32) + back == encode_utf8(tail)) by {
        assert(encode_scalar(c as u32) + back == encode_utf8(s).subrange(b, byte_len(s) as int));
    }
    encode_utf8_valid_utf8(t);
    encode_utf8_valid_utf8(head);
    assert(valid_utf8(back)) by {
        if !valid_utf8(back) {
            partial_valid_partial_invalid_utf8(new, b);
        }
    }
    let rest = decode_utf8(back);
    decode_utf8_encode_utf8(back);
    lemma_byte_len_single(c);
    lemma_encode_concat(seq![c], rest);
    lemma_encode_injective(seq![c] + rest, tail);
    assert(tail[0] == c);
    assert(rest == s.skip(k as int + 1)) by {
        assert(rest == tail.drop_first());
    }
    assert(new == front + back);
    lemma_encode_concat(head, rest);
    lemma_encode_injective(t, head + rest);
    assert(s.remove(k as int) == head + rest);
}

} // verus!
