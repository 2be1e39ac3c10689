//! Texts as sequences of characters, and their lines.

use vstd::prelude::*;
use crate::search::{first_match, lemma_first_match_is};

verus! {

/// The characters of `s`, in order.
pub fn chars_of(s: &str) -> (out: Vec<char>)
    ensures
        out@ == s@,
{
    let mut out: Vec<char> = Vec::new();
    for c in it: s.chars()
        invariant
            it.seq() == s@,
            out@ == s@.take(it.index() as int),
    {
        out.push(c);
    }
    out
}

/// Calls `String::push`, which appends one character to the string.
#[verifier::external_body]
fn push_char(s: &mut String, c: char)
    ensures
        final(s)@ == old(s)@.push(c),
{
    s.push(c)
}

/// The string made of the characters of `v`, in order.
pub fn string_of(v: &Vec<char>) -> (out: String)
    ensures
        out@ == v@,
{
    let mut out = String::new();
    let mut i: usize = 0;
    while i < v.len()
        invariant
            0 <= i <= v@.len(),
            out@ == v@.take(i as int),
        decreases v@.len() - i,
    {
        push_char(&mut out, v[i]);
        i += 1;
    }
    out
}

/// Appends the characters of `more` to `out`.
pub fn append_chars(out: &mut Vec<char>, more: &Vec<char>)
    ensures
        final(out)@ == old(out)@ + more@,
{
    let mut i: usize = 0;
    while i < more.len()
        invariant
            0 <= i <= more@.len(),
            out@ == old(out)@ + more@.take(i as int),
        decreases more@.len() - i,
    {
        out.push(more[i]);
        i += 1;
    }
}

/// Appends the characters of `more` to `out`.
pub fn append_str(out: &mut Vec<char>, more: &str)
    ensures
        final(out)@ == old(out)@ + more@,
{
    let chars = chars_of(more);
    append_chars(out, &chars);
}

/// Whether the two hold the same characters.
pub fn same_chars(a: &Vec<char>, b: &Vec<char>) -> (out: bool)
    ensures
        out == (a@ == b@),
{
    if a.len() != b.len() {
        return false;
    }
    let mut i: usize = 0;
    while i < a.len()
        invariant
            0 <= i <= a@.len(),
            a@.len() == b@.len(),
            a@.take(i as int) == b@.take(i as int),
        decreases a@.len() - i,
    {
        if a[i] != b[i] {
            return false;
        }
        i += 1;
    }
    proof {
        assert(a@.take(a@.len() as int) =~= a@);
        assert(b@.take(b@.len() as int) =~= b@);
    }
    true
}

/// The test for being the character `sep`.
pub open spec fn is_char(sep: char) -> spec_fn(char) -> bool {
    |c: char| c == sep
}

/// The index of the first `sep` of `text`, or its length.
pub open spec fn piece_end(text: Seq<char>, sep: char) -> int {
    first_match(text, is_char(sep))
}

/// The index of the first newline of `text`, or its length.
pub open spec fn line_end(text: Seq<char>) -> int {
    piece_end(text, '\n')
}

/// The pieces of `text` between the characters `sep`, in order. A `sep`
/// ends a piece and belongs to none; what follows the last one is a piece
/// where it is not empty. Empty pieces stay where `keep_empty` is set.
pub open spec fn split_text(text: Seq<char>, sep: char, keep_empty: bool) -> Seq<Seq<char>>
    decreases text.len(),
{
    if text.len() == 0 {
        Seq::empty()
    } else {
        let k = piece_end(text, sep);
        if k < 0 || k >= text.len() {
            seq![text]
        } else if k == 0 && !keep_empty {
            split_text(text.skip(1), sep, keep_empty)
        } else {
            seq![text.take(k)] + split_text(text.skip(k + 1), sep, keep_empty)
        }
    }
}

/// The lines of a text, each with the newline that closes it: the text is
/// cut behind every newline. An empty line is a line; what follows the last
/// newline is a line, without a newline, where it is not empty.
pub open spec fn whole_lines(text: Seq<char>) -> Seq<Seq<char>>
    decreases text.len(),
{
    if text.len() == 0 {
        Seq::empty()
    } else {
        let k = line_end(text);
        if k < 0 || k >= text.len() {
            seq![text]
        } else {
            seq![text.take(k + 1)] + whole_lines(text.skip(k + 1))
        }
    }
}

/// The lines of a text that are not empty, each without its newline.
pub open spec fn filled_lines(text: Seq<char>) -> Seq<Seq<char>> {
    split_text(text, '\n', false)
}

/// The lines of a stored object: every piece between newlines, empty ones
/// too.
pub open spec fn raw_lines(text: Seq<char>) -> Seq<Seq<char>> {
    split_text(text, '\n', true)
}

/// The texts of the strings `v`, in order.
pub open spec fn texts_view(v: Seq<String>) -> Seq<Seq<char>> {
    v.map_values(|s: String| s@)
}

/// The texts that the items of `v` hold.
pub open spec fn lines_view(v: Seq<Vec<char>>) -> Seq<Seq<char>> {
    v.map_values(|l: Vec<char>| l@)
}

/// The text whose lines are `lines`, each closed by a newline.
pub open spec fn unlines(lines: Seq<Seq<char>>) -> Seq<char>
    decreases lines.len(),
{
    if lines.len() == 0 {
        Seq::empty()
    } else {
        unlines(lines.drop_last()) + lines.last().push('\n')
    }
}

/// The pieces of `text` between the characters `sep`.
pub fn split_chars(text: &Vec<char>, sep: char, keep_empty: bool) -> (out: Vec<Vec<char>>)
    ensures
        lines_view(out@) == split_text(text@, sep, keep_empty),
{
    let mut out: Vec<Vec<char>> = Vec::new();
    let mut line: Vec<char> = Vec::new();
    let mut i: usize = 0;
    let ghost mut start: int = 0;
    proof {
        assert(text@.skip(0) =~= text@);
    }
    while i < text.len()
        invariant
            0 <= start <= i <= text@.len(),
            line@ == text@.subrange(start, i as int),
            forall|j: int| start <= j < i ==> text@[j] != sep,
            split_text(text@, sep, keep_empty) == lines_view(out@) + split_text(
                text@.skip(start),
                sep,
                keep_empty,
            ),
        decreases text@.len() - i,
    {
        let c = text[i];
        if c == sep {
            proof {
                let rest = text@.skip(start);
                let k = i - start;
                lemma_first_match_is(rest, is_char(sep), k);
                assert(rest.skip(k + 1) =~= text@.skip(i + 1));
                assert(rest.take(k) =~= line@);
                start = i + 1;
            }
            if keep_empty || line.len() > 0 {
                out.push(line);
            }
            line = Vec::new();
        } else {
            line.push(c);
        }
        i += 1;
    }
    proof {
        let rest = text@.skip(start);
        if rest.len() > 0 {
            lemma_first_match_is(rest, is_char(sep), rest.len() as int);
        }
    }
    if line.len() > 0 {
        out.push(line);
    }
    out
}

/// The lines of `text`, each with the newline that closes it.
pub fn split_lines(text: &Vec<char>) -> (out: Vec<Vec<char>>)
    ensures
        lines_view(out@) == whole_lines(text@),
{
    let mut out: Vec<Vec<char>> = Vec::new();
    let mut line: Vec<char> = Vec::new();
    let mut i: usize = 0;
    let ghost mut start: int = 0;
    proof {
        assert(text@.skip(0) =~= text@);
    }
    while i < text.len()
        invariant
            0 <= start <= i <= text@.len(),
            line@ == text@.subrange(start, i as int),
            forall|j: int| start <= j < i ==> text@[j] != '\n',
            whole_lines(text@) == lines_view(out@) + whole_lines(text@.skip(start)),
        decreases text@.len() - i,
    {
        let c = text[i];
        line.push(c);
        if c == '\n' {
            proof {
                let rest = text@.skip(start);
                let k = i - start;
                lemma_first_match_is(rest, is_char('\n'), k);
                assert(rest.skip(k + 1) =~= text@.skip(i + 1));
                assert(rest.take(k + 1) =~= line@);
                start = i + 1;
            }
            out.push(line);
            line = Vec::new();
        }
        i += 1;
    }
    proof {
        let rest = text@.skip(start);
        if rest.len() > 0 {
            lemma_first_match_is(rest, is_char('\n'), rest.len() as int);
        }
    }
    if line.len() > 0 {
        out.push(line);
    }
    out
}

/// The characters of `v` from index `from` up to index `to`.
pub(crate) fn slice_chars(v: &Vec<char>, from: usize, to: usize) -> (out: Vec<char>)
    requires
        from <= to <= v@.len(),
    ensures
        out@ == v@.subrange(from as int, to as int),
{
    let mut out: Vec<char> = Vec::new();
    let mut i: usize = from;
    while i < to
        invariant
            from <= i <= to <= v@.len(),
            out@ == v@.subrange(from as int, i as int),
        decreases to - i,
    {
        out.push(v[i]);
        i += 1;
    }
    out
}

} // verus!
