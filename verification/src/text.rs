//! The mathematical model of a text: how it divides into lines, what it
//! means for one text to occur inside another, and the three operations
//! on `str` that the search is built from.

use vstd::prelude::*;

verus! {

/// The number of characters before the first line feed of `text`, or
/// the length of `text` where it holds none.
pub open spec fn first_line_len(text: Seq<char>) -> int
    decreases text.len(),
{
    if text.len() == 0 || text[0] == '\n' {
        0
    } else {
        1 + first_line_len(text.drop_first())
    }
}

/// `first_line_len` stays inside the text, passes over no line feed and
/// stops at one unless the text ends first.
pub proof fn first_line_len_bounds(text: Seq<char>)
    ensures
        0 <= first_line_len(text) <= text.len(),
        forall|i: int| 0 <= i < first_line_len(text) ==> text[i] != '\n',
        first_line_len(text) < text.len() ==> text[first_line_len(text)] == '\n',
    decreases text.len(),
{
    if text.len() != 0 && text[0] != '\n' {
        let rest = text.drop_first();
        first_line_len_bounds(rest);
        assert forall|i: int| 0 <= i < first_line_len(text) implies text[i] != '\n' by {
            if i > 0 {
                assert(text[i] == rest[i - 1]);
            }
        }
        if first_line_len(text) < text.len() {
            assert(text[first_line_len(text)] == rest[first_line_len(rest)]);
        }
    }
}

/// A line without the carriage return that may stand before its line feed.
pub open spec fn strip_carriage_return(line: Seq<char>) -> Seq<char> {
    if line.len() > 0 && line.last() == '\r' {
        line.drop_last()
    } else {
        line
    }
}

/// The lines of a text. A line ends at a line feed, or at a carriage
/// return directly followed by a line feed; neither belongs to the line.
/// The last line needs no terminator, so a text that ends in one has no
/// empty line after it, and the empty text has no lines at all. A
/// carriage return that no line feed follows is an ordinary character.
pub open spec fn split_lines(text: Seq<char>) -> Seq<Seq<char>>
    decreases text.len(),
{
    if text.len() == 0 {
        Seq::empty()
    } else {
        let n = first_line_len(text);
        if n == text.len() {
            seq![text]
        } else {
            proof {
                first_line_len_bounds(text);
            }
            seq![strip_carriage_return(text.take(n))] + split_lines(text.skip(n + 1))
        }
    }
}

/// Whether `end` is one of the two line terminators: a line feed, or a
/// carriage return and a line feed.
pub open spec fn is_line_terminator(end: Seq<char>) -> bool {
    end == seq!['\n'] || end == seq!['\r', '\n']
}

/// Where the first line of `a + b` ends: in `a` where `a` holds a line
/// feed, else as far behind `a` as the first line of `b` reaches.
proof fn first_line_len_of_concat(a: Seq<char>, b: Seq<char>)
    ensures
        first_line_len(a + b) == if first_line_len(a) < a.len() {
            first_line_len(a)
        } else {
            a.len() + first_line_len(b)
        },
    decreases a.len(),
{
    first_line_len_bounds(a);
    if a.len() == 0 {
        assert(a + b =~= b);
    } else {
        assert((a + b)[0] == a[0]);
        if a[0] != '\n' {
            assert((a + b).drop_first() =~= a.drop_first() + b);
            first_line_len_of_concat(a.drop_first(), b);
        }
    }
}

/// The final line terminator is optional: a text that ends in the
/// middle of a line has the same lines with a terminator behind it as
/// without. (After a carriage return a line feed would take that
/// character into the terminator, and after a line feed a terminator
/// would end one more, empty line: so the text ends in neither.)
pub proof fn final_terminator_adds_no_line(text: Seq<char>, end: Seq<char>)
    requires
        text.len() > 0,
        text.last() != '\n',
        text.last() != '\r',
        is_line_terminator(end),
    ensures
        split_lines(text + end) == split_lines(text),
    decreases text.len(),
{
    let whole = text + end;
    let n = first_line_len(text);
    first_line_len_bounds(text);
    first_line_len_of_concat(text, end);
    assert(first_line_len(end) == end.len() - 1) by {
        reveal_with_fuel(first_line_len, 3);
        if end.len() == 2 {
            assert(end.drop_first() =~= seq!['\n']);
        }
    }
    if n == text.len() {
        let m = first_line_len(whole);
        assert(whole.take(m) =~= text + end.drop_last());
        assert(strip_carriage_return(whole.take(m)) =~= text) by {
            if end.len() == 2 {
                assert(whole.take(m).last() == '\r');
            } else {
                assert(whole.take(m).last() == text.last());
            }
        }
        assert(whole.skip(m + 1) =~= Seq::<char>::empty());
        assert(split_lines(whole.skip(m + 1)) =~= Seq::<Seq<char>>::empty());
        assert(split_lines(whole) =~= seq![text]);
    } else {
        let rest = text.skip(n + 1);
        assert(whole.take(n) =~= text.take(n));
        assert(whole.skip(n + 1) =~= rest + end);
        assert(rest.last() == text.last());
        final_terminator_adds_no_line(rest, end);
    }
}

/// No line holds a line feed.
pub proof fn lines_hold_no_line_feed(text: Seq<char>, k: int)
    requires
        0 <= k < split_lines(text).len(),
    ensures
        !split_lines(text)[k].contains('\n'),
    decreases text.len(),
{
    let n = first_line_len(text);
    first_line_len_bounds(text);
    if n < text.len() && k > 0 {
        lines_hold_no_line_feed(text.skip(n + 1), k - 1);
    }
}

/// Whether `needle` stands in `hay` from position `at` on.
pub open spec fn occurs_at(hay: Seq<char>, needle: Seq<char>, at: int) -> bool {
    &&& 0 <= at
    &&& at + needle.len() <= hay.len()
    &&& hay.subrange(at, at + needle.len()) == needle
}

/// Whether `needle` occurs in `hay` as a contiguous run of characters.
pub open spec fn is_substring(hay: Seq<char>, needle: Seq<char>) -> bool {
    exists|at: int| occurs_at(hay, needle, at)
}

/// The lowercase form of a text, as `str::to_lowercase` computes it.
pub uninterp spec fn lowercase(text: Seq<char>) -> Seq<char>;

/// The character contents of a sequence of string slices.
pub open spec fn line_views(lines: Seq<&str>) -> Seq<Seq<char>> {
    lines.map_values(|line: &str| line@)
}

/// Calls `str::lines` and collects what it yields, in order.
///
/// Not proved: that the slices handed back hold, one for one, the lines
/// that `split_lines` describes. The standard library documents exactly
/// this division: lines end at `\n` or `\r\n`, terminators are left out,
/// the final terminator is optional, and a lone `\r` ends nothing.
#[verifier::external_body]
pub(crate) fn lines_of<'a>(text: &'a str) -> (lines: Vec<&'a str>)
    ensures
        line_views(lines@) == split_lines(text@),
{
    text.lines().collect()
}

/// Calls `str::contains` with a string slice as the pattern.
///
/// Not proved: that the answer is `true` exactly when `needle` occurs in
/// `hay` as a contiguous run of characters, compared exactly.
#[verifier::external_body]
pub(crate) fn str_contains(hay: &str, needle: &str) -> (found: bool)
    ensures
        found == is_substring(hay@, needle@),
{
    hay.contains(needle)
}

/// Calls `str::to_lowercase`.
///
/// Not proved: that the result is `lowercase` of the argument, that is,
/// that it depends on the characters of the argument alone; and that the
/// text without characters has a lowercase form without characters, the
/// conversion going character by character.
#[verifier::external_body]
pub(crate) fn to_lowercase(text: &str) -> (lowered: String)
    ensures
        lowered@ == lowercase(text@),
        text@.len() == 0 ==> lowered@.len() == 0,
{
    text.to_lowercase()
}

} // verus!
