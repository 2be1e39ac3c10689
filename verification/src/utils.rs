//! The null hash and the two-way merge of texts.

use vstd::prelude::*;
use crate::diff::{
    Change, ChangeView, Side, changes_view, diff_from, diff_lines, diff_of, left_lines,
    lemma_diff_holds_both, right_lines,
};
use crate::search::lemma_first_match;
use crate::text::{
    append_chars, append_str, chars_of, is_char, line_end, split_lines, string_of, whole_lines,
};

verus! {

/// The hash that addresses no object: no parent, nothing staged.
pub const NULL_HASH: &'static str = "0000000000000000000000000000000000000000";

/// The line that opens a conflict block, before the lines of the left text.
pub open spec fn conflict_open() -> Seq<char> {
    "<<<<<< HEAD (current change)\n"@
}

/// The line between the two sides of a conflict block.
pub open spec fn conflict_middle() -> Seq<char> {
    "======\n"@
}

/// The line that closes a conflict block, after the lines of the right text.
pub open spec fn conflict_close() -> Seq<char> {
    ">>>>>> (incoming change)\n"@
}

/// The side of the last step of `d`; `Common` where `d` is empty. After a
/// left line a conflict block is open on its left side, after a right line
/// on its right side, after a common line none is open.
pub open spec fn last_side(d: Seq<ChangeView>) -> Side {
    if d.len() == 0 {
        Side::Common
    } else {
        d.last().side
    }
}

/// What closes the block that is open after a step of side `prev`.
pub open spec fn closing(prev: Side) -> Seq<char> {
    match prev {
        Side::Common => Seq::empty(),
        Side::OnlyLeft => conflict_middle() + conflict_close(),
        Side::OnlyRight => conflict_close(),
    }
}

/// The marker lines that stand between a step of side `prev` and the line of
/// a step of side `next`.
pub open spec fn opening(prev: Side, next: Side) -> Seq<char> {
    match next {
        Side::Common => closing(prev),
        Side::OnlyLeft => match prev {
            Side::OnlyLeft => Seq::empty(),
            _ => closing(prev) + conflict_open(),
        },
        Side::OnlyRight => match prev {
            Side::OnlyRight => Seq::empty(),
            Side::OnlyLeft => conflict_middle(),
            Side::Common => conflict_open() + conflict_middle(),
        },
    }
}

/// The line `line` closed by a newline: the line itself where it ends in
/// one, else the line and a newline.
pub open spec fn closed(line: Seq<char>) -> Seq<char> {
    if line.len() > 0 && line.last() == '\n' {
        line
    } else {
        line.push('\n')
    }
}

/// The text that a step sets for its line: a common line as it is, a line
/// of one text alone closed by a newline, so that the marker behind it
/// starts a line.
pub open spec fn line_text(step: ChangeView) -> Seq<char> {
    if step.side == Side::Common {
        step.line
    } else {
        closed(step.line)
    }
}

/// The text of the steps of `d`: each line, and before it the marker lines
/// that its side asks for. A block that the last step leaves open is not
/// closed here.
pub open spec fn rendered(d: Seq<ChangeView>) -> Seq<char>
    decreases d.len(),
{
    if d.len() == 0 {
        Seq::empty()
    } else {
        rendered(d.drop_last()) + opening(last_side(d.drop_last()), d.last().side) + line_text(
            d.last(),
        )
    }
}

/// The merged text of a diff: its steps, and the end of the block that the
/// last one leaves open.
pub open spec fn merged_lines(d: Seq<ChangeView>) -> Seq<char> {
    rendered(d) + closing(last_side(d))
}

/// The two-way merge of two texts: the diff of their lines, with each run of
/// lines that only one text has inside a conflict block. A line that both
/// texts have stands in the merged text as it is, an empty line too.
pub open spec fn merged_text(text1: Seq<char>, text2: Seq<char>) -> Seq<char> {
    merged_lines(diff_of(whole_lines(text1), whole_lines(text2)))
}

fn push_closing(out: &mut Vec<char>, prev: Side)
    ensures
        final(out)@ == old(out)@ + closing(prev),
{
    match prev {
        Side::Common => {},
        Side::OnlyLeft => {
            append_str(out, "======\n");
            append_str(out, ">>>>>> (incoming change)\n");
        },
        Side::OnlyRight => {
            append_str(out, ">>>>>> (incoming change)\n");
        },
    }
}

fn push_opening(out: &mut Vec<char>, prev: Side, next: Side)
    ensures
        final(out)@ == old(out)@ + opening(prev, next),
{
    match next {
        Side::Common => {
            push_closing(out, prev);
        },
        Side::OnlyLeft => {
            match prev {
                Side::OnlyLeft => {},
                _ => {
                    push_closing(out, prev);
                    append_str(out, "<<<<<< HEAD (current change)\n");
                },
            }
        },
        Side::OnlyRight => {
            match prev {
                Side::OnlyRight => {},
                Side::OnlyLeft => {
                    append_str(out, "======\n");
                },
                Side::Common => {
                    append_str(out, "<<<<<< HEAD (current change)\n");
                    append_str(out, "======\n");
                },
            }
        },
    }
}

/// The merged text of the diff `d`.
pub fn render_changes(d: &Vec<Change>) -> (out: Vec<char>)
    ensures
        out@ == merged_lines(changes_view(d@)),
{
    let ghost all = changes_view(d@);
    let mut out: Vec<char> = Vec::new();
    let mut prev = Side::Common;
    let mut i: usize = 0;
    while i < d.len()
        invariant
            0 <= i <= d@.len(),
            all == changes_view(d@),
            out@ == rendered(all.take(i as int)),
            prev == last_side(all.take(i as int)),
        decreases d@.len() - i,
    {
        proof {
            assert(all.take(i + 1).drop_last() =~= all.take(i as int));
        }
        push_opening(&mut out, prev, d[i].side);
        append_chars(&mut out, &d[i].line);
        let line = &d[i].line;
        let open = line.len() == 0 || line[line.len() - 1] != '\n';
        if open && d[i].side != Side::Common {
            out.push('\n');
        }
        prev = d[i].side;
        i += 1;
    }
    proof {
        assert(all.take(i as int) =~= all);
    }
    push_closing(&mut out, prev);
    out
}

/// Merges two texts line by line. Lines that both have pass through as they
/// are; each run of lines that only one has is set in a conflict block, the
/// lines of `text1` above the middle line and those of `text2` below it.
pub fn merge_text(text1: String, text2: String) -> (out: String)
    ensures
        out@ == merged_text(text1@, text2@),
{
    let left = split_lines(&chars_of(text1.as_str()));
    let right = split_lines(&chars_of(text2.as_str()));
    let d = diff_lines(&left, &right);
    let merged = render_changes(&d);
    string_of(&merged)
}

/// The lines of the steps of `d`, in order.
pub open spec fn lines_in(d: Seq<ChangeView>) -> Seq<Seq<char>> {
    d.map_values(|c: ChangeView| c.line)
}

/// Whether every step of `d` is a common line.
pub open spec fn all_common(d: Seq<ChangeView>) -> bool {
    forall|k: int| 0 <= k < d.len() ==> (#[trigger] d[k]).side == Side::Common
}

/// The texts `lines`, one after the other.
pub open spec fn joined(lines: Seq<Seq<char>>) -> Seq<char>
    decreases lines.len(),
{
    if lines.len() == 0 {
        Seq::empty()
    } else {
        joined(lines.drop_last()) + lines.last()
    }
}

proof fn lemma_diff_self(a: Seq<Seq<char>>, i: int)
    requires
        0 <= i <= a.len(),
    ensures
        all_common(diff_from(a, a, i, i)),
        lines_in(diff_from(a, a, i, i)) == a.skip(i),
    decreases a.len() - i,
{
    let d = diff_from(a, a, i, i);
    if i < a.len() {
        lemma_diff_self(a, i + 1);
        let rest = diff_from(a, a, i + 1, i + 1);
        assert(lines_in(d) =~= seq![a[i]] + lines_in(rest));
    }
}

proof fn lemma_render_common(d: Seq<ChangeView>)
    requires
        all_common(d),
    ensures
        rendered(d) == joined(lines_in(d)),
        last_side(d) == Side::Common,
    decreases d.len(),
{
    if d.len() > 0 {
        let front = d.drop_last();
        lemma_render_common(front);
        assert(lines_in(d).drop_last() =~= lines_in(front));
    }
}

proof fn lemma_joined_front(x: Seq<char>, s: Seq<Seq<char>>)
    ensures
        joined(seq![x] + s) == x + joined(s),
    decreases s.len(),
{
    let whole = seq![x] + s;
    if s.len() == 0 {
        assert(whole.drop_last() =~= Seq::<Seq<char>>::empty());
        assert(joined(whole.drop_last()) =~= Seq::<char>::empty());
        assert(joined(whole) =~= x + joined(s));
    } else {
        lemma_joined_front(x, s.drop_last());
        assert(whole.drop_last() =~= seq![x] + s.drop_last());
        assert(joined(whole) =~= x + joined(s));
    }
}

/// The lines of a text, one after the other, are the text.
pub proof fn lemma_whole_lines_join(text: Seq<char>)
    ensures
        joined(whole_lines(text)) == text,
    decreases text.len(),
{
    if text.len() > 0 {
        let k = line_end(text);
        lemma_first_match(text, is_char('\n'));
        if 0 <= k < text.len() {
            let rest = text.skip(k + 1);
            lemma_whole_lines_join(rest);
            lemma_joined_front(text.take(k + 1), whole_lines(rest));
            assert(text.take(k + 1) + rest =~= text);
        } else {
            lemma_joined_front(text, Seq::empty());
            assert(seq![text] + Seq::<Seq<char>>::empty() =~= seq![text]);
            assert(text + Seq::<char>::empty() =~= text);
        }
    }
}

/// Merging a text with itself gives the text back, character for character:
/// no marker is set, no line is lost, and no newline is added.
pub proof fn lemma_merge_text_identity(text: Seq<char>)
    ensures
        merged_text(text, text) == text,
{
    let a = whole_lines(text);
    let d = diff_of(a, a);
    lemma_diff_self(a, 0);
    lemma_render_common(d);
    lemma_whole_lines_join(text);
    assert(a.skip(0) =~= a);
    assert(rendered(d) + Seq::<char>::empty() =~= rendered(d));
}

/// Whether `part` stands somewhere in `text`, character for character.
pub open spec fn holds_text(text: Seq<char>, part: Seq<char>) -> bool {
    exists|i: int|
        0 <= i && i + part.len() <= text.len() && #[trigger] text.subrange(i, i + part.len())
            == part
}

pub(crate) proof fn lemma_holds_text_grows(
    before: Seq<char>,
    text: Seq<char>,
    after: Seq<char>,
    part: Seq<char>,
)
    requires
        holds_text(text, part),
    ensures
        holds_text(before + text + after, part),
{
    let i = choose|i: int|
        0 <= i && i + part.len() <= text.len() && #[trigger] text.subrange(i, i + part.len())
            == part;
    let whole = before + text + after;
    let j = before.len() + i;
    assert(whole.subrange(j, j + part.len()) =~= text.subrange(i, i + part.len()));
}

proof fn lemma_holds_text_self(part: Seq<char>)
    ensures
        holds_text(part, part),
{
    assert(part.subrange(0, 0int + part.len()) =~= part);
}

proof fn lemma_common_sides_agree(d: Seq<ChangeView>)
    requires
        all_common(d),
    ensures
        left_lines(d) == right_lines(d),
    decreases d.len(),
{
    if d.len() > 0 {
        let rest = d.drop_first();
        assert forall|k: int| 0 <= k < rest.len() implies (#[trigger] rest[k]).side
            == Side::Common by {
            assert(rest[k] == d[k + 1]);
        }
        lemma_common_sides_agree(rest);
    }
}

proof fn lemma_rendered_marks(d: Seq<ChangeView>)
    requires
        !all_common(d),
    ensures
        holds_text(rendered(d), conflict_open()),
        last_side(d) == Side::Common ==> holds_text(rendered(d), conflict_close()),
    decreases d.len(),
{
    if d.len() > 0 {
        let front = d.drop_last();
        let step = d.last();
        let prev = last_side(front);
        let mark = opening(prev, step.side);
        let empty = Seq::<char>::empty();
        assert(rendered(d) == rendered(front) + mark + line_text(step));
        if all_common(front) {
            assert(step.side != Side::Common) by {
                if step.side == Side::Common {
                    assert forall|k: int| 0 <= k < d.len() implies (#[trigger] d[k]).side
                        == Side::Common by {
                        if k < d.len() - 1 {
                            assert(d[k] == front[k]);
                        }
                    }
                }
            }
            assert(prev == Side::Common) by {
                if front.len() > 0 {
                    assert(front[front.len() - 1].side == Side::Common);
                }
            }
            lemma_holds_text_self(conflict_open());
            if step.side == Side::OnlyLeft {
                assert(mark =~= empty + conflict_open() + empty);
                lemma_holds_text_grows(empty, conflict_open(), empty, conflict_open());
            } else {
                assert(mark =~= empty + conflict_open() + conflict_middle());
                lemma_holds_text_grows(empty, conflict_open(), conflict_middle(), conflict_open());
            }
            lemma_holds_text_grows(rendered(front), mark, line_text(step), conflict_open());
        } else {
            lemma_rendered_marks(front);
            assert(rendered(d) =~= empty + rendered(front) + (mark + line_text(step)));
            lemma_holds_text_grows(empty, rendered(front), mark + line_text(step), conflict_open());
            if step.side == Side::Common {
                if prev == Side::Common {
                    lemma_holds_text_grows(
                        empty,
                        rendered(front),
                        mark + line_text(step),
                        conflict_close(),
                    );
                } else {
                    lemma_holds_text_self(conflict_close());
                    if prev == Side::OnlyLeft {
                        assert(mark =~= conflict_middle() + conflict_close() + empty);
                        lemma_holds_text_grows(
                            conflict_middle(),
                            conflict_close(),
                            empty,
                            conflict_close(),
                        );
                    } else {
                        assert(mark =~= empty + conflict_close() + empty);
                        lemma_holds_text_grows(empty, conflict_close(), empty, conflict_close());
                    }
                    lemma_holds_text_grows(
                        rendered(front),
                        mark,
                        line_text(step),
                        conflict_close(),
                    );
                }
            }
        }
    }
}

/// Two texts that differ give a merged text with a conflict block: the
/// line that opens a block and the line that closes one both stand in it.
pub proof fn lemma_merge_text_marks_conflict(text1: Seq<char>, text2: Seq<char>)
    requires
        text1 != text2,
    ensures
        holds_text(merged_text(text1, text2), conflict_open()),
        holds_text(merged_text(text1, text2), conflict_close()),
{
    let a = whole_lines(text1);
    let b = whole_lines(text2);
    let d = diff_of(a, b);
    let empty = Seq::<char>::empty();
    if all_common(d) {
        lemma_common_sides_agree(d);
        lemma_diff_holds_both(a, b);
        lemma_whole_lines_join(text1);
        lemma_whole_lines_join(text2);
    }
    lemma_rendered_marks(d);
    let tail = closing(last_side(d));
    assert(merged_text(text1, text2) =~= empty + rendered(d) + tail);
    lemma_holds_text_grows(empty, rendered(d), tail, conflict_open());
    if last_side(d) == Side::Common {
        lemma_holds_text_grows(empty, rendered(d), tail, conflict_close());
    } else {
        lemma_holds_text_self(conflict_close());
        if last_side(d) == Side::OnlyLeft {
            assert(tail =~= conflict_middle() + conflict_close() + empty);
            lemma_holds_text_grows(conflict_middle(), conflict_close(), empty, conflict_close());
        } else {
            assert(tail =~= empty + conflict_close() + empty);
            lemma_holds_text_grows(empty, conflict_close(), empty, conflict_close());
        }
        assert(merged_text(text1, text2) =~= rendered(d) + tail + empty);
        lemma_holds_text_grows(rendered(d), tail, empty, conflict_close());
    }
}

} // verus!
