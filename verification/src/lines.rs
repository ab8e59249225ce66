//! The line structure of a text.
//!
//! A text is a sequence of characters. Line feeds are characters of the text
//! like any other; they also delimit its lines, which are found by scanning
//! and numbered from zero.

use vstd::prelude::*;

verus! {

/// How many of the characters of `s` are line feeds.
pub open spec fn newline_count(s: Seq<char>) -> nat
    decreases s.len(),
{
    if s.len() == 0 {
        0
    } else if s[0] == '\n' {
        1 + newline_count(s.drop_first())
    } else {
        newline_count(s.drop_first())
    }
}

/// The number of lines of `s`: a line feed ends a line and begins the next,
/// so that the empty text has one line, which is empty.
pub open spec fn line_count(s: Seq<char>) -> nat {
    newline_count(s) + 1
}

/// The index in `s` at which line `row` begins: the place behind the
/// `row`-th line feed. It is the length of `s` where `s` has no such line.
pub open spec fn line_start(s: Seq<char>, row: nat) -> nat
    decreases s.len(),
{
    if row == 0 || s.len() == 0 {
        0
    } else if s[0] == '\n' {
        1 + line_start(s.drop_first(), (row - 1) as nat)
    } else {
        1 + line_start(s.drop_first(), row)
    }
}

/// The number of characters of `s` in front of its first line feed, or all
/// of them where it has none.
pub open spec fn first_line_len(s: Seq<char>) -> nat
    decreases s.len(),
{
    if s.len() == 0 || s[0] == '\n' {
        0
    } else {
        1 + first_line_len(s.drop_first())
    }
}

/// The number of characters of line `row` of `s`, its line feed not counted.
/// It is zero where `s` has no such line.
pub open spec fn line_len(s: Seq<char>, row: nat) -> nat {
    first_line_len(s.skip(line_start(s, row) as int))
}

/// The number that line `row` of a text has in the text without its first
/// character `c`: one less where `c` ends a line in front of it.
pub open spec fn row_after(c: char, row: nat) -> nat {
    if c == '\n' && row > 0 {
        (row - 1) as nat
    } else {
        row
    }
}

/// The text has no more line feeds than characters.
pub proof fn lemma_newline_count_bound(s: Seq<char>)
    ensures
        newline_count(s) <= s.len(),
    decreases s.len(),
{
    if s.len() > 0 {
        lemma_newline_count_bound(s.drop_first());
    }
}

/// Line feeds add up over concatenation.
pub proof fn lemma_newline_count_concat(a: Seq<char>, b: Seq<char>)
    ensures
        newline_count(a + b) == newline_count(a) + newline_count(b),
    decreases a.len(),
{
    if a.len() == 0 {
        assert(a + b == b);
    } else {
        assert((a + b).drop_first() == a.drop_first() + b);
        lemma_newline_count_concat(a.drop_first(), b);
    }
}

/// A line begins inside the text or at its end.
pub proof fn lemma_line_start_bound(s: Seq<char>, row: nat)
    ensures
        line_start(s, row) <= s.len(),
    decreases s.len(),
{
    if row != 0 && s.len() != 0 {
        lemma_line_start_bound(s.drop_first(), row_after(s[0], row));
    }
}

/// A line that the text does not have begins at the text's end.
pub proof fn lemma_line_start_past_last(s: Seq<char>, row: nat)
    requires
        row >= line_count(s),
    ensures
        line_start(s, row) == s.len(),
    decreases s.len(),
{
    if s.len() != 0 {
        lemma_line_start_past_last(s.drop_first(), row_after(s[0], row));
    }
}

/// In front of line `row` stand exactly `row` line feeds.
pub proof fn lemma_newlines_before_line(s: Seq<char>, row: nat)
    requires
        row < line_count(s),
    ensures
        newline_count(s.take(line_start(s, row) as int)) == row,
    decreases s.len(),
{
    if row == 0 || s.len() == 0 {
        assert(s.take(0).len() == 0);
    } else {
        let rest = s.drop_first();
        let next = row_after(s[0], row);
        lemma_newlines_before_line(rest, next);
        lemma_line_start_bound(rest, next);
        let k = line_start(rest, next) as int;
        assert(s.take(1 + k).drop_first() == rest.take(k));
        assert(s.take(1 + k)[0] == s[0]);
    }
}

/// Every line but the first begins right behind a line feed.
pub proof fn lemma_line_feed_before_line(s: Seq<char>, row: nat)
    requires
        0 < row < line_count(s),
    ensures
        0 < line_start(s, row) <= s.len(),
        s[line_start(s, row) - 1] == '\n',
    decreases s.len(),
{
    let rest = s.drop_first();
    let next = row_after(s[0], row);
    lemma_line_start_bound(rest, next);
    if next > 0 {
        lemma_line_feed_before_line(rest, next);
    }
}

/// Behind a line feed the next line begins: the one whose number is the
/// number of line feeds up to there.
pub proof fn lemma_line_start_behind_line_feed(s: Seq<char>, j: nat)
    requires
        j < s.len(),
        s[j as int] == '\n',
    ensures
        line_start(s, newline_count(s.take(j as int)) + 1) == j + 1,
    decreases s.len(),
{
    let rest = s.drop_first();
    if j == 0 {
        assert(s.take(0).len() == 0);
        assert(line_start(rest, 0) == 0);
    } else {
        let head = s.take(j as int);
        assert(head.drop_first() == rest.take(j - 1));
        assert(head[0] == s[0]);
        lemma_line_start_behind_line_feed(rest, (j - 1) as nat);
        assert(row_after(s[0], newline_count(head) + 1) == newline_count(rest.take(j - 1)) + 1);
    }
}

/// The line feeds in front of an index are those in front of a smaller
/// index and those between the two.
pub proof fn lemma_newline_count_take(s: Seq<char>, i: nat, j: nat)
    requires
        i <= j <= s.len(),
    ensures
        newline_count(s.take(j as int)) == newline_count(s.take(i as int)) + newline_count(
            s.subrange(i as int, j as int),
        ),
{
    assert(s.take(j as int) == s.take(i as int) + s.subrange(i as int, j as int));
    lemma_newline_count_concat(s.take(i as int), s.subrange(i as int, j as int));
}

/// The head of a text up to its first line feed: it holds no line feed, and
/// ends at a line feed or with the text.
pub proof fn lemma_first_line(s: Seq<char>)
    ensures
        first_line_len(s) <= s.len(),
        forall|i: int| 0 <= i < first_line_len(s) ==> s[i] != '\n',
        first_line_len(s) < s.len() ==> s[first_line_len(s) as int] == '\n',
    decreases s.len(),
{
    if s.len() != 0 && s[0] != '\n' {
        let rest = s.drop_first();
        lemma_first_line(rest);
        assert forall|i: int| 0 <= i < first_line_len(s) implies s[i] != '\n' by {
            if i > 0 {
                assert(s[i] == rest[i - 1]);
            }
        }
    }
}

/// A text without line feeds is one line.
pub proof fn lemma_first_line_whole(s: Seq<char>)
    requires
        forall|i: int| 0 <= i < s.len() ==> s[i] != '\n',
    ensures
        first_line_len(s) == s.len(),
        newline_count(s) == 0,
    decreases s.len(),
{
    if s.len() != 0 {
        let rest = s.drop_first();
        assert forall|i: int| 0 <= i < rest.len() implies rest[i] != '\n' by {
            assert(rest[i] == s[i + 1]);
        }
        lemma_first_line_whole(rest);
    }
}

/// A text that holds no line feed is its own first line.
pub proof fn lemma_first_line_without_newline(s: Seq<char>)
    requires
        newline_count(s) == 0,
    ensures
        first_line_len(s) == s.len(),
    decreases s.len(),
{
    if s.len() != 0 {
        lemma_first_line_without_newline(s.drop_first());
    }
}

/// The first line of two texts in a row ends in the first text where that
/// holds a line feed, and runs on into the second where it holds none.
pub proof fn lemma_first_line_concat(a: Seq<char>, b: Seq<char>)
    ensures
        first_line_len(a + b) == if newline_count(a) > 0 {
            first_line_len(a)
        } else {
            a.len() + first_line_len(b)
        },
    decreases a.len(),
{
    if a.len() == 0 {
        assert(a + b == b);
    } else {
        assert((a + b).drop_first() == a.drop_first() + b);
        lemma_first_line_concat(a.drop_first(), b);
    }
}

/// Where the lines of two texts in a row begin: those that the first text
/// has begin where they did; the later ones begin in the second text.
pub proof fn lemma_line_start_concat(a: Seq<char>, b: Seq<char>, row: nat)
    ensures
        line_start(a + b, row) == if row <= newline_count(a) {
            line_start(a, row)
        } else {
            a.len() + line_start(b, (row - newline_count(a)) as nat)
        },
    decreases a.len(),
{
    if a.len() == 0 {
        assert(a + b == b);
    } else if row != 0 {
        assert((a + b).drop_first() == a.drop_first() + b);
        lemma_line_start_concat(a.drop_first(), b, row_after(a[0], row));
    }
}

/// The lengths of the lines of two texts in a row: the last line of the
/// first text runs on into the first line of the second.
pub proof fn lemma_line_len_concat(a: Seq<char>, b: Seq<char>, row: nat)
    ensures
        line_len(a + b, row) == if row < newline_count(a) {
            line_len(a, row)
        } else if row == newline_count(a) {
            line_len(a, row) + first_line_len(b)
        } else {
            line_len(b, (row - newline_count(a)) as nat)
        },
{
    let n = newline_count(a);
    lemma_line_start_concat(a, b, row);
    lemma_line_start_bound(a, row);
    if row <= n {
        let k = line_start(a, row) as int;
        let tail = a.skip(k);
        assert((a + b).skip(k) == tail + b);
        lemma_first_line_concat(tail, b);
        lemma_newlines_before_line(a, row);
        lemma_newline_count_concat(a.take(k), tail);
        assert(a.take(k) + tail == a);
        if row == n {
            lemma_first_line_without_newline(tail);
        }
    } else {
        let m = (row - n) as nat;
        lemma_line_start_bound(b, m);
        let k = line_start(b, m) as int;
        assert((a + b).skip(a.len() + k) == b.skip(k));
        lemma_line_start_past_last(a, row);
        assert(a.skip(a.len() as int).len() == 0);
    }
}

/// A line has the length that it has in the text without its first
/// character, unless that character is one of its own.
pub proof fn lemma_line_len_first(s: Seq<char>, row: nat)
    ensures
        line_len(s, 0) == first_line_len(s),
        row != 0 && s.len() != 0 ==> line_len(s, row) == line_len(
            s.drop_first(),
            row_after(s[0], row),
        ),
        s.len() == 0 ==> line_len(s, row) == 0,
{
    assert(s.skip(0) == s);
    if row != 0 && s.len() != 0 {
        let rest = s.drop_first();
        let next = row_after(s[0], row);
        lemma_line_start_bound(rest, next);
        let k = line_start(rest, next) as int;
        assert(s.skip(1 + k) == rest.skip(k));
    }
}

/// A line that the text does not have is empty.
pub proof fn lemma_line_len_past_last(s: Seq<char>, row: nat)
    ensures
        row >= line_count(s) ==> line_len(s, row) == 0,
{
    if row >= line_count(s) {
        lemma_line_start_past_last(s, row);
        assert(s.skip(s.len() as int).len() == 0);
    }
}

/// The last line ends where the text ends.
pub proof fn lemma_last_line_ends_text(s: Seq<char>)
    ensures
        line_start(s, newline_count(s)) + line_len(s, newline_count(s)) == s.len(),
    decreases s.len(),
{
    let last = newline_count(s);
    lemma_line_len_first(s, last);
    if s.len() != 0 {
        lemma_last_line_ends_text(s.drop_first());
        if last == 0 {
            lemma_first_line_without_newline(s);
        }
    }
}

/// Up to any place in a line, the text holds the line feeds in front of the
/// line and no others.
pub proof fn lemma_newlines_within_line(s: Seq<char>, row: nat, k: nat)
    requires
        row < line_count(s),
        line_start(s, row) <= k <= line_start(s, row) + line_len(s, row),
    ensures
        k <= line_start(s, row) + line_len(s, row) <= s.len(),
        newline_count(s.take(k as int)) == row,
        k < line_start(s, row) + line_len(s, row) ==> s[k as int] != '\n',
{
    let begin = line_start(s, row);
    let tail = s.skip(begin as int);
    let run = s.subrange(begin as int, k as int);
    lemma_line_start_bound(s, row);
    lemma_first_line(tail);
    lemma_newlines_before_line(s, row);
    lemma_newline_count_take(s, begin, k);
    assert forall|i: int| 0 <= i < run.len() implies run[i] != '\n' by {
        assert(run[i] == tail[i]);
    }
    lemma_first_line_whole(run);
    if k < begin + line_len(s, row) {
        assert(s[k as int] == tail[k - begin]);
    }
}

/// A character other than a line feed, put into a line, makes that line
/// longer by one and leaves the number of lines as it is.
pub proof fn lemma_insert_in_line(s: Seq<char>, row: nat, k: nat, c: char)
    requires
        row < line_count(s),
        line_start(s, row) <= k <= line_start(s, row) + line_len(s, row),
        c != '\n',
    ensures
        line_count(s.insert(k as int, c)) == line_count(s),
        line_start(s.insert(k as int, c), row) == line_start(s, row),
        line_len(s.insert(k as int, c), row) == line_len(s, row) + 1,
{
    lemma_newlines_within_line(s, row, k);
    let head = s.take(k as int);
    let tail = s.skip(k as int);
    let one = seq![c];
    assert(newline_count(one.drop_first()) == 0);
    assert(first_line_len(one.drop_first()) == 0);
    assert(s == head + tail);
    assert(s.insert(k as int, c) == (head + one) + tail);
    lemma_newline_count_concat(head, one);
    lemma_newline_count_concat(head, tail);
    lemma_newline_count_concat(head + one, tail);
    lemma_line_len_concat(head, one, row);
    lemma_line_len_concat(head, tail, row);
    lemma_line_len_concat(head + one, tail, row);
    lemma_line_start_concat(head, one, row);
    lemma_line_start_concat(head, tail, row);
    lemma_line_start_concat(head + one, tail, row);
}

/// A line feed put into a text adds a line.
pub proof fn lemma_insert_line_feed(s: Seq<char>, k: nat)
    requires
        k <= s.len(),
    ensures
        line_count(s.insert(k as int, '\n')) == line_count(s) + 1,
{
    let head = s.take(k as int);
    let tail = s.skip(k as int);
    let one = seq!['\n'];
    assert(newline_count(one.drop_first()) == 0);
    assert(s == head + tail);
    assert(s.insert(k as int, '\n') == (head + one) + tail);
    lemma_newline_count_concat(head, one);
    lemma_newline_count_concat(head, tail);
    lemma_newline_count_concat(head + one, tail);
}

/// A character taken out of a line makes that line shorter by one and
/// leaves the number of lines as it is.
pub proof fn lemma_remove_in_line(s: Seq<char>, row: nat, j: nat)
    requires
        row < line_count(s),
        line_start(s, row) <= j < line_start(s, row) + line_len(s, row),
    ensures
        line_count(s.remove(j as int)) == line_count(s),
        line_len(s.remove(j as int), row) + 1 == line_len(s, row),
{
    lemma_newlines_within_line(s, row, j);
    let head = s.take(j as int);
    let tail = s.skip(j as int + 1);
    let one = seq![s[j as int]];
    assert(newline_count(one.drop_first()) == 0);
    assert(first_line_len(one.drop_first()) == 0);
    assert(s == (head + one) + tail);
    assert(s.remove(j as int) == head + tail);
    lemma_newline_count_concat(head, one);
    lemma_newline_count_concat(head, tail);
    lemma_newline_count_concat(head + one, tail);
    lemma_line_len_concat(head, one, row);
    lemma_line_len_concat(head, tail, row);
    lemma_line_len_concat(head + one, tail, row);
}

/// A line feed taken out of a text takes a line away.
pub proof fn lemma_remove_line_feed(s: Seq<char>, j: nat)
    requires
        j < s.len(),
        s[j as int] == '\n',
    ensures
        line_count(s.remove(j as int)) + 1 == line_count(s),
{
    let head = s.take(j as int);
    let tail = s.skip(j as int + 1);
    let one = seq![s[j as int]];
    assert(newline_count(one.drop_first()) == 0);
    assert(s == (head + one) + tail);
    assert(s.remove(j as int) == head + tail);
    lemma_newline_count_concat(head, one);
    lemma_newline_count_concat(head, tail);
    lemma_newline_count_concat(head + one, tail);
}

} // verus!
