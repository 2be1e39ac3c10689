//! A line-level diff of two texts, by longest common subsequence.

use vstd::prelude::*;
use crate::text::{lines_view, same_chars};

verus! {

/// Where a line of a diff comes from.
#[derive(Clone, Copy, Debug, PartialEq, Eq, Structural)]
pub enum Side {
    /// The line stands in the left text only.
    OnlyLeft,
    /// The line stands in the right text only.
    OnlyRight,
    /// The line stands in both texts.
    Common,
}

/// One step of a diff: a line and where it comes from.
#[derive(Debug)]
pub struct Change {
    pub side: Side,
    pub line: Vec<char>,
}

/// One step of a diff, as a value.
pub struct ChangeView {
    pub side: Side,
    pub line: Seq<char>,
}

impl View for Change {
    type V = ChangeView;

    open spec fn view(&self) -> ChangeView {
        ChangeView { side: self.side, line: self.line@ }
    }
}

/// The steps that the items of `v` hold.
pub open spec fn changes_view(v: Seq<Change>) -> Seq<ChangeView> {
    v.map_values(|c: Change| c@)
}

/// The length of a longest common subsequence of `a` from index `i` on and
/// `b` from index `j` on.
pub open spec fn lcs_len(a: Seq<Seq<char>>, b: Seq<Seq<char>>, i: int, j: int) -> nat
    decreases a.len() - i + b.len() - j,
{
    if i < 0 || j < 0 || i >= a.len() || j >= b.len() {
        0
    } else if a[i] == b[j] {
        1 + lcs_len(a, b, i + 1, j + 1)
    } else if lcs_len(a, b, i + 1, j) >= lcs_len(a, b, i, j + 1) {
        lcs_len(a, b, i + 1, j)
    } else {
        lcs_len(a, b, i, j + 1)
    }
}

/// The diff of `a` from index `i` on against `b` from index `j` on. Equal
/// lines at the front are common. Of two unequal ones, the left line leaves
/// first unless keeping it allows a longer common subsequence.
pub open spec fn diff_from(a: Seq<Seq<char>>, b: Seq<Seq<char>>, i: int, j: int) -> Seq<ChangeView>
    decreases a.len() - i + b.len() - j,
{
    if i < 0 || j < 0 || i > a.len() || j > b.len() || (i == a.len() && j == b.len()) {
        Seq::empty()
    } else if i >= a.len() {
        seq![ChangeView { side: Side::OnlyRight, line: b[j] }] + diff_from(a, b, i, j + 1)
    } else if j >= b.len() {
        seq![ChangeView { side: Side::OnlyLeft, line: a[i] }] + diff_from(a, b, i + 1, j)
    } else if a[i] == b[j] {
        seq![ChangeView { side: Side::Common, line: a[i] }] + diff_from(a, b, i + 1, j + 1)
    } else if lcs_len(a, b, i + 1, j) >= lcs_len(a, b, i, j + 1) {
        seq![ChangeView { side: Side::OnlyLeft, line: a[i] }] + diff_from(a, b, i + 1, j)
    } else {
        seq![ChangeView { side: Side::OnlyRight, line: b[j] }] + diff_from(a, b, i, j + 1)
    }
}

/// The diff of the lines `a` against the lines `b`.
pub open spec fn diff_of(a: Seq<Seq<char>>, b: Seq<Seq<char>>) -> Seq<ChangeView> {
    diff_from(a, b, 0, 0)
}

/// The lines of a diff that stand in the left text, in order.
pub open spec fn left_lines(d: Seq<ChangeView>) -> Seq<Seq<char>>
    decreases d.len(),
{
    if d.len() == 0 {
        Seq::empty()
    } else if d[0].side == Side::OnlyRight {
        left_lines(d.drop_first())
    } else {
        seq![d[0].line] + left_lines(d.drop_first())
    }
}

/// The lines of a diff that stand in the right text, in order.
pub open spec fn right_lines(d: Seq<ChangeView>) -> Seq<Seq<char>>
    decreases d.len(),
{
    if d.len() == 0 {
        Seq::empty()
    } else if d[0].side == Side::OnlyLeft {
        right_lines(d.drop_first())
    } else {
        seq![d[0].line] + right_lines(d.drop_first())
    }
}

/// A common subsequence from `(i, j)` on is no longer than what is left of
/// either text.
pub(crate) proof fn lemma_lcs_bound(a: Seq<Seq<char>>, b: Seq<Seq<char>>, i: int, j: int)
    requires
        0 <= i <= a.len(),
        0 <= j <= b.len(),
    ensures
        lcs_len(a, b, i, j) <= a.len() - i,
        lcs_len(a, b, i, j) <= b.len() - j,
    decreases a.len() - i + b.len() - j,
{
    if i < a.len() && j < b.len() {
        lemma_lcs_bound(a, b, i + 1, j + 1);
        lemma_lcs_bound(a, b, i + 1, j);
        lemma_lcs_bound(a, b, i, j + 1);
    }
}

/// A diff holds each text whole: its left lines are `a` from `i` on, its
/// right lines `b` from `j` on.
proof fn lemma_diff_projections(a: Seq<Seq<char>>, b: Seq<Seq<char>>, i: int, j: int)
    requires
        0 <= i <= a.len(),
        0 <= j <= b.len(),
    ensures
        left_lines(diff_from(a, b, i, j)) == a.skip(i),
        right_lines(diff_from(a, b, i, j)) == b.skip(j),
    decreases a.len() - i + b.len() - j,
{
    let d = diff_from(a, b, i, j);
    if i >= a.len() && j >= b.len() {
        // Nothing is left of either text.
    } else if i >= a.len() {
        lemma_diff_projections(a, b, i, j + 1);
        assert(d.drop_first() =~= diff_from(a, b, i, j + 1));
    } else if j >= b.len() {
        lemma_diff_projections(a, b, i + 1, j);
        assert(d.drop_first() =~= diff_from(a, b, i + 1, j));
    } else if a[i] == b[j] {
        lemma_diff_projections(a, b, i + 1, j + 1);
        assert(d.drop_first() =~= diff_from(a, b, i + 1, j + 1));
    } else if lcs_len(a, b, i + 1, j) >= lcs_len(a, b, i, j + 1) {
        lemma_diff_projections(a, b, i + 1, j);
        assert(d.drop_first() =~= diff_from(a, b, i + 1, j));
    } else {
        lemma_diff_projections(a, b, i, j + 1);
        assert(d.drop_first() =~= diff_from(a, b, i, j + 1));
    }
}

/// A diff holds each text whole: its left lines are those of the left
/// text, its right lines those of the right text.
pub proof fn lemma_diff_holds_both(a: Seq<Seq<char>>, b: Seq<Seq<char>>)
    ensures
        left_lines(diff_of(a, b)) == a,
        right_lines(diff_of(a, b)) == b,
{
    lemma_diff_projections(a, b, 0, 0);
}

/// The lines of a diff that stand in both texts, in order.
pub open spec fn common_lines(d: Seq<ChangeView>) -> Seq<Seq<char>>
    decreases d.len(),
{
    if d.len() == 0 {
        Seq::empty()
    } else if d[0].side == Side::Common {
        seq![d[0].line] + common_lines(d.drop_first())
    } else {
        common_lines(d.drop_first())
    }
}

/// Whether the lines `c` stand in `a` from index `i` on, in this order and
/// with any lines between them.
pub open spec fn is_subsequence(c: Seq<Seq<char>>, a: Seq<Seq<char>>, i: int) -> bool
    decreases a.len() - i,
{
    if c.len() == 0 {
        true
    } else if i < 0 || i >= a.len() {
        false
    } else {
        (a[i] == c[0] && is_subsequence(c.drop_first(), a, i + 1)) || is_subsequence(c, a, i + 1)
    }
}

proof fn lemma_subsequence_tail(c: Seq<Seq<char>>, a: Seq<Seq<char>>, i: int)
    requires
        c.len() > 0,
        is_subsequence(c, a, i),
    ensures
        is_subsequence(c.drop_first(), a, i),
        0 <= i < a.len(),
    decreases a.len() - i,
{
    if !(a[i] == c[0] && is_subsequence(c.drop_first(), a, i + 1)) {
        lemma_subsequence_tail(c, a, i + 1);
    }
}

proof fn lemma_common_is_bounded(
    c: Seq<Seq<char>>,
    a: Seq<Seq<char>>,
    b: Seq<Seq<char>>,
    i: int,
    j: int,
)
    requires
        0 <= i <= a.len(),
        0 <= j <= b.len(),
        is_subsequence(c, a, i),
        is_subsequence(c, b, j),
    ensures
        c.len() <= lcs_len(a, b, i, j),
    decreases a.len() - i + b.len() - j,
{
    if c.len() > 0 {
        let rest = c.drop_first();
        if a[i] == b[j] {
            if !(a[i] == c[0] && is_subsequence(rest, a, i + 1)) {
                lemma_subsequence_tail(c, a, i + 1);
            }
            if !(b[j] == c[0] && is_subsequence(rest, b, j + 1)) {
                lemma_subsequence_tail(c, b, j + 1);
            }
            lemma_common_is_bounded(rest, a, b, i + 1, j + 1);
        } else if is_subsequence(c, a, i + 1) {
            lemma_common_is_bounded(c, a, b, i + 1, j);
        } else {
            lemma_common_is_bounded(c, a, b, i, j + 1);
        }
    }
}

proof fn lemma_common_of_diff(a: Seq<Seq<char>>, b: Seq<Seq<char>>, i: int, j: int)
    requires
        0 <= i <= a.len(),
        0 <= j <= b.len(),
    ensures
        common_lines(diff_from(a, b, i, j)).len() == lcs_len(a, b, i, j),
        is_subsequence(common_lines(diff_from(a, b, i, j)), a, i),
        is_subsequence(common_lines(diff_from(a, b, i, j)), b, j),
    decreases a.len() - i + b.len() - j,
{
    let d = diff_from(a, b, i, j);
    let c = common_lines(d);
    if i >= a.len() && j >= b.len() {
        // Nothing is left of either text.
    } else if i >= a.len() {
        lemma_common_of_diff(a, b, i, j + 1);
        assert(d.drop_first() =~= diff_from(a, b, i, j + 1));
    } else if j >= b.len() {
        lemma_common_of_diff(a, b, i + 1, j);
        assert(d.drop_first() =~= diff_from(a, b, i + 1, j));
    } else if a[i] == b[j] {
        lemma_common_of_diff(a, b, i + 1, j + 1);
        assert(d.drop_first() =~= diff_from(a, b, i + 1, j + 1));
        assert(c.drop_first() =~= common_lines(diff_from(a, b, i + 1, j + 1)));
    } else if lcs_len(a, b, i + 1, j) >= lcs_len(a, b, i, j + 1) {
        lemma_common_of_diff(a, b, i + 1, j);
        assert(d.drop_first() =~= diff_from(a, b, i + 1, j));
    } else {
        lemma_common_of_diff(a, b, i, j + 1);
        assert(d.drop_first() =~= diff_from(a, b, i, j + 1));
    }
}

/// A diff keeps as many lines as two texts can have in common: the common
/// lines of the diff stand in both texts in their order, and no lines that
/// do are more.
pub proof fn lemma_diff_is_longest(a: Seq<Seq<char>>, b: Seq<Seq<char>>, c: Seq<Seq<char>>)
    requires
        is_subsequence(c, a, 0),
        is_subsequence(c, b, 0),
    ensures
        is_subsequence(common_lines(diff_of(a, b)), a, 0),
        is_subsequence(common_lines(diff_of(a, b)), b, 0),
        c.len() <= common_lines(diff_of(a, b)).len(),
{
    lemma_common_of_diff(a, b, 0, 0);
    lemma_common_is_bounded(c, a, b, 0, 0);
}

/// The table of `lcs_len`: `rows[k][l]` is the value at
/// `(a.len() - k, b.len() - l)`.
pub open spec fn table_holds(
    rows: Seq<Vec<usize>>,
    a: Seq<Seq<char>>,
    b: Seq<Seq<char>>,
) -> bool {
    &&& forall|k: int| 0 <= k < rows.len() ==> (#[trigger] rows[k])@.len() == b.len() + 1
    &&& forall|k: int, l: int|
        0 <= k < rows.len() && 0 <= l <= b.len() ==> #[trigger] rows[k]@[l] == lcs_len(
            a,
            b,
            a.len() - k,
            b.len() - l,
        )
}

/// The rows of the table of `lcs_len`, the last line's first.
fn lcs_table(left: &Vec<Vec<char>>, right: &Vec<Vec<char>>) -> (rows: Vec<Vec<usize>>)
    ensures
        rows@.len() == left@.len() + 1,
        table_holds(rows@, lines_view(left@), lines_view(right@)),
{
    let ghost a = lines_view(left@);
    let ghost b = lines_view(right@);
    let n = left.len();
    let m = right.len();
    let mut rows: Vec<Vec<usize>> = Vec::new();
    let mut last: Vec<usize> = Vec::new();
    last.push(0);
    let mut j: usize = m;
    while j > 0
        invariant
            0 <= j <= m,
            m == b.len(),
            last@.len() == m - j + 1,
            forall|x: int| 0 <= x <= m - j ==> last@[x] == 0,
        decreases j,
    {
        j -= 1;
        last.push(0);
    }
    rows.push(last);
    let mut i: usize = n;
    while i > 0
        invariant
            0 <= i <= n,
            n == left@.len(),
            m == right@.len(),
            a == lines_view(left@),
            b == lines_view(right@),
            rows@.len() == n - i + 1,
            table_holds(rows@, a, b),
        decreases i,
    {
        i -= 1;
        let mut row: Vec<usize> = Vec::new();
        row.push(0);
        let mut j: usize = m;
        while j > 0
            invariant
                0 <= j <= m,
                0 <= i < n,
                n == left@.len(),
                m == right@.len(),
                a == lines_view(left@),
                b == lines_view(right@),
                rows@.len() == n - i,
                table_holds(rows@, a, b),
                row@.len() == m - j + 1,
                forall|x: int| 0 <= x <= m - j ==> #[trigger] row@[x] == lcs_len(a, b, i as int, m - x),
            decreases j,
        {
            j -= 1;
            let cell = if same_chars(&left[i], &right[j]) {
                proof {
                    lemma_lcs_bound(a, b, i + 1, j + 1);
                }
                1 + rows[n - i - 1][m - j - 1]
            } else {
                let down = rows[n - i - 1][m - j];
                let across = row[m - j - 1];
                if down >= across {
                    down
                } else {
                    across
                }
            };
            row.push(cell);
        }
        rows.push(row);
    }
    rows
}

/// The diff of the lines `left` against the lines `right`.
pub fn diff_lines(left: &Vec<Vec<char>>, right: &Vec<Vec<char>>) -> (out: Vec<Change>)
    ensures
        changes_view(out@) == diff_of(lines_view(left@), lines_view(right@)),
{
    let ghost a = lines_view(left@);
    let ghost b = lines_view(right@);
    let rows = lcs_table(left, right);
    let n = left.len();
    let m = right.len();
    let mut out: Vec<Change> = Vec::new();
    let mut i: usize = 0;
    let mut j: usize = 0;
    while i < n || j < m
        invariant
            0 <= i <= n,
            0 <= j <= m,
            n == left@.len(),
            m == right@.len(),
            a == lines_view(left@),
            b == lines_view(right@),
            rows@.len() == n + 1,
            table_holds(rows@, a, b),
            diff_of(a, b) == changes_view(out@) + diff_from(a, b, i as int, j as int),
        decreases (n - i) + (m - j),
    {
        let side = if i >= n {
            Side::OnlyRight
        } else if j >= m {
            Side::OnlyLeft
        } else if same_chars(&left[i], &right[j]) {
            Side::Common
        } else {
            if rows[n - i - 1][m - j] >= rows[n - i][m - j - 1] {
                Side::OnlyLeft
            } else {
                Side::OnlyRight
            }
        };
        let line = match side {
            Side::OnlyRight => right[j].clone(),
            _ => left[i].clone(),
        };
        let change = Change { side, line };
        out.push(change);
        match side {
            Side::OnlyLeft => {
                i += 1;
            },
            Side::OnlyRight => {
                j += 1;
            },
            Side::Common => {
                i += 1;
                j += 1;
            },
        }
    }
    out
}

} // verus!
