//! Line-by-line comparison of two texts by their longest common subsequence.

use vstd::prelude::*;
use vstd::string::*;
use crate::grid::Grid;
use crate::text::str_eq;

verus! {

/// The lines of a text as sequences of characters.
pub open spec fn lines_of(text: Seq<String>) -> Seq<Seq<char>> {
    text.map_values(|line: String| line@)
}

/// Length of the longest common subsequence of the first `i` lines of `a`
/// and the first `j` lines of `b`.
pub open spec fn lcs_length(a: Seq<Seq<char>>, b: Seq<Seq<char>>, i: int, j: int) -> nat
    decreases i + j,
{
    if i <= 0 || j <= 0 {
        0
    } else if a[i - 1] == b[j - 1] {
        lcs_length(a, b, i - 1, j - 1) + 1
    } else {
        let skip_a = lcs_length(a, b, i - 1, j);
        let skip_b = lcs_length(a, b, i, j - 1);
        if skip_a >= skip_b {
            skip_a
        } else {
            skip_b
        }
    }
}

/// A common subsequence is no longer than either of the two prefixes.
pub proof fn lemma_lcs_length_bounded(a: Seq<Seq<char>>, b: Seq<Seq<char>>, i: int, j: int)
    requires
        0 <= i,
        0 <= j,
    ensures
        lcs_length(a, b, i, j) <= i,
        lcs_length(a, b, i, j) <= j,
    decreases i + j,
{
    if i > 0 && j > 0 {
        lemma_lcs_length_bounded(a, b, i - 1, j - 1);
        lemma_lcs_length_bounded(a, b, i - 1, j);
        lemma_lcs_length_bounded(a, b, i, j - 1);
    }
}

/// `sub` can be had from `of` by leaving lines out.
pub open spec fn is_subsequence(sub: Seq<Seq<char>>, of: Seq<Seq<char>>) -> bool
    decreases of.len(),
{
    if sub.len() == 0 {
        true
    } else if of.len() == 0 {
        false
    } else {
        (sub.last() == of.last() && is_subsequence(sub.drop_last(), of.drop_last()))
            || is_subsequence(sub, of.drop_last())
    }
}

/// `c` is a subsequence both of the first `i` lines of `a` and of the first
/// `j` lines of `b`.
pub open spec fn is_common(
    c: Seq<Seq<char>>,
    a: Seq<Seq<char>>,
    b: Seq<Seq<char>>,
    i: int,
    j: int,
) -> bool {
    is_subsequence(c, a.take(i)) && is_subsequence(c, b.take(j))
}

/// A longest common subsequence of the first `i` lines of `a` and the first
/// `j` lines of `b`.
pub open spec fn lcs_of(a: Seq<Seq<char>>, b: Seq<Seq<char>>, i: int, j: int) -> Seq<Seq<char>>
    decreases i + j,
{
    if i <= 0 || j <= 0 {
        Seq::empty()
    } else if a[i - 1] == b[j - 1] {
        lcs_of(a, b, i - 1, j - 1).push(a[i - 1])
    } else if lcs_length(a, b, i - 1, j) >= lcs_length(a, b, i, j - 1) {
        lcs_of(a, b, i - 1, j)
    } else {
        lcs_of(a, b, i, j - 1)
    }
}

/// One more line on either side lengthens the longest common subsequence by
/// at most one line, and never shortens it.
pub proof fn lemma_lcs_length_steps(a: Seq<Seq<char>>, b: Seq<Seq<char>>, i: int, j: int)
    requires
        0 <= i,
        0 <= j,
    ensures
        i > 0 ==> lcs_length(a, b, i - 1, j) <= lcs_length(a, b, i, j) <= lcs_length(a, b, i - 1, j)
            + 1,
        j > 0 ==> lcs_length(a, b, i, j - 1) <= lcs_length(a, b, i, j) <= lcs_length(a, b, i, j - 1)
            + 1,
    decreases i + j,
{
    if i > 0 && j > 0 {
        lemma_lcs_length_steps(a, b, i - 1, j);
        lemma_lcs_length_steps(a, b, i, j - 1);
        lemma_lcs_length_steps(a, b, i - 1, j - 1);
    }
}

/// A subsequence of a text is a subsequence of the text with one more line.
pub proof fn lemma_subsequence_of_longer(c: Seq<Seq<char>>, s: Seq<Seq<char>>, n: int)
    requires
        0 < n <= s.len(),
        is_subsequence(c, s.take(n - 1)),
    ensures
        is_subsequence(c, s.take(n)),
{
    assert(s.take(n).drop_last() =~= s.take(n - 1));
}

/// No common subsequence is longer than `lcs_length` says.
pub proof fn lemma_common_bounded(
    c: Seq<Seq<char>>,
    a: Seq<Seq<char>>,
    b: Seq<Seq<char>>,
    i: int,
    j: int,
)
    requires
        0 <= i <= a.len(),
        0 <= j <= b.len(),
        is_common(c, a, b, i, j),
    ensures
        c.len() <= lcs_length(a, b, i, j),
    decreases i + j,
{
    if c.len() == 0 {
    } else if i == 0 || j == 0 {
        assert(a.take(0).len() == 0);
        assert(b.take(0).len() == 0);
    } else {
        let x = a.take(i);
        let y = b.take(j);
        assert(x.drop_last() =~= a.take(i - 1));
        assert(y.drop_last() =~= b.take(j - 1));
        assert(x.last() == a[i - 1]);
        assert(y.last() == b[j - 1]);
        lemma_lcs_length_steps(a, b, i, j);
        if is_subsequence(c, a.take(i - 1)) {
            lemma_common_bounded(c, a, b, i - 1, j);
        } else if is_subsequence(c, b.take(j - 1)) {
            lemma_common_bounded(c, a, b, i, j - 1);
        } else {
            assert(c.last() == a[i - 1] && c.last() == b[j - 1]);
            lemma_common_bounded(c.drop_last(), a, b, i - 1, j - 1);
        }
    }
}

/// `lcs_of` is a common subsequence, and as long as `lcs_length` says.
pub proof fn lemma_lcs_of_is_common(a: Seq<Seq<char>>, b: Seq<Seq<char>>, i: int, j: int)
    requires
        0 <= i <= a.len(),
        0 <= j <= b.len(),
    ensures
        is_common(lcs_of(a, b, i, j), a, b, i, j),
        lcs_of(a, b, i, j).len() == lcs_length(a, b, i, j),
    decreases i + j,
{
    if i > 0 && j > 0 {
        let x = a.take(i);
        let y = b.take(j);
        assert(x.drop_last() =~= a.take(i - 1));
        assert(y.drop_last() =~= b.take(j - 1));
        assert(x.last() == a[i - 1]);
        assert(y.last() == b[j - 1]);
        if a[i - 1] == b[j - 1] {
            lemma_lcs_of_is_common(a, b, i - 1, j - 1);
            let shorter = lcs_of(a, b, i - 1, j - 1);
            let c = shorter.push(a[i - 1]);
            assert(c.drop_last() =~= shorter);
            assert(c.last() == a[i - 1]);
        } else if lcs_length(a, b, i - 1, j) >= lcs_length(a, b, i, j - 1) {
            lemma_lcs_of_is_common(a, b, i - 1, j);
            lemma_subsequence_of_longer(lcs_of(a, b, i - 1, j), a, i);
        } else {
            lemma_lcs_of_is_common(a, b, i, j - 1);
            lemma_subsequence_of_longer(lcs_of(a, b, i, j - 1), b, j);
        }
    }
}

/// `lcs_length` is the length of a longest common subsequence: there is a
/// common subsequence of that length, and none is longer.
pub proof fn lemma_lcs_length_is_longest(a: Seq<Seq<char>>, b: Seq<Seq<char>>, i: int, j: int)
    requires
        0 <= i <= a.len(),
        0 <= j <= b.len(),
    ensures
        exists|c: Seq<Seq<char>>| #[trigger] is_common(c, a, b, i, j) && c.len() == lcs_length(a, b, i, j),
        forall|c: Seq<Seq<char>>| #[trigger] is_common(c, a, b, i, j) ==> c.len() <= lcs_length(a, b, i, j),
{
    lemma_lcs_of_is_common(a, b, i, j);
    assert forall|c: Seq<Seq<char>>| #[trigger] is_common(c, a, b, i, j) implies c.len()
        <= lcs_length(a, b, i, j) by {
        lemma_common_bounded(c, a, b, i, j);
    }
}

/// One line of a comparison.
#[derive(Clone, Debug, PartialEq, Eq)]
pub enum DiffLine {
    /// The line stands in both texts.
    Same(String),
    /// The line stands only in the second text.
    Added(String),
    /// The line stands only in the first text.
    Removed(String),
}

/// A [`DiffLine`] with its text as a sequence of characters.
pub enum DiffLineView {
    Same(Seq<char>),
    Added(Seq<char>),
    Removed(Seq<char>),
}

impl View for DiffLine {
    type V = DiffLineView;

    open spec fn view(&self) -> DiffLineView {
        match self {
            DiffLine::Same(line) => DiffLineView::Same(line@),
            DiffLine::Added(line) => DiffLineView::Added(line@),
            DiffLine::Removed(line) => DiffLineView::Removed(line@),
        }
    }
}

/// The comparison of the first `i` lines of `a` with the first `j` lines of
/// `b`, read backwards from the ends: equal last lines are common; otherwise
/// the last line of `b` counts as added unless dropping the last line of `a`
/// leaves the longer common subsequence.
pub open spec fn diff_of(a: Seq<Seq<char>>, b: Seq<Seq<char>>, i: int, j: int) -> Seq<
    DiffLineView,
>
    decreases i + j,
{
    if i < 0 || j < 0 {
        Seq::empty()
    } else if i > 0 && j > 0 && a[i - 1] == b[j - 1] {
        diff_of(a, b, i - 1, j - 1).push(DiffLineView::Same(a[i - 1]))
    } else if j > 0 && (i == 0 || lcs_length(a, b, i, j - 1) >= lcs_length(a, b, i - 1, j)) {
        diff_of(a, b, i, j - 1).push(DiffLineView::Added(b[j - 1]))
    } else if i > 0 {
        diff_of(a, b, i - 1, j).push(DiffLineView::Removed(a[i - 1]))
    } else {
        Seq::empty()
    }
}

/// The lines of a comparison that belong to the first text.
pub open spec fn first_side(script: Seq<DiffLineView>) -> Seq<Seq<char>>
    decreases script.len(),
{
    if script.len() == 0 {
        Seq::empty()
    } else {
        let before = first_side(script.drop_last());
        match script.last() {
            DiffLineView::Same(line) => before.push(line),
            DiffLineView::Removed(line) => before.push(line),
            DiffLineView::Added(_) => before,
        }
    }
}

/// The lines of a comparison that belong to the second text.
pub open spec fn second_side(script: Seq<DiffLineView>) -> Seq<Seq<char>>
    decreases script.len(),
{
    if script.len() == 0 {
        Seq::empty()
    } else {
        let before = second_side(script.drop_last());
        match script.last() {
            DiffLineView::Same(line) => before.push(line),
            DiffLineView::Added(line) => before.push(line),
            DiffLineView::Removed(_) => before,
        }
    }
}

/// The number of common lines in a comparison.
pub open spec fn common_lines(script: Seq<DiffLineView>) -> nat
    decreases script.len(),
{
    if script.len() == 0 {
        0
    } else {
        common_lines(script.drop_last()) + if script.last() is Same {
            1nat
        } else {
            0nat
        }
    }
}

/// A comparison accounts for both texts: its common and removed lines are the
/// first text, its common and added lines are the second, each in order, and
/// the common lines are as many as the longest common subsequence has.
pub proof fn lemma_diff_accounts_for_both(a: Seq<Seq<char>>, b: Seq<Seq<char>>, i: int, j: int)
    requires
        0 <= i <= a.len(),
        0 <= j <= b.len(),
    ensures
        first_side(diff_of(a, b, i, j)) == a.take(i),
        second_side(diff_of(a, b, i, j)) == b.take(j),
        common_lines(diff_of(a, b, i, j)) == lcs_length(a, b, i, j),
    decreases i + j,
{
    let script = diff_of(a, b, i, j);
    if i > 0 && j > 0 && a[i - 1] == b[j - 1] {
        lemma_diff_accounts_for_both(a, b, i - 1, j - 1);
        let before = diff_of(a, b, i - 1, j - 1);
        assert(script.drop_last() =~= before);
        assert(a.take(i - 1).push(a[i - 1]) =~= a.take(i));
        assert(b.take(j - 1).push(b[j - 1]) =~= b.take(j));
    } else if j > 0 && (i == 0 || lcs_length(a, b, i, j - 1) >= lcs_length(a, b, i - 1, j)) {
        lemma_diff_accounts_for_both(a, b, i, j - 1);
        let before = diff_of(a, b, i, j - 1);
        assert(script.drop_last() =~= before);
        assert(b.take(j - 1).push(b[j - 1]) =~= b.take(j));
    } else if i > 0 {
        lemma_diff_accounts_for_both(a, b, i - 1, j);
        let before = diff_of(a, b, i - 1, j);
        assert(script.drop_last() =~= before);
        assert(a.take(i - 1).push(a[i - 1]) =~= a.take(i));
        assert(b.take(0) =~= Seq::<Seq<char>>::empty());
    } else {
        assert(a.take(0) =~= Seq::<Seq<char>>::empty());
        assert(b.take(0) =~= Seq::<Seq<char>>::empty());
    }
}

/// Fills the table of longest-common-subsequence lengths of two texts: the
/// cell at row `i` and column `j` holds the length for the first `i` lines of
/// `seq1` and the first `j` lines of `seq2`.
pub fn lcs(seq1: &Vec<String>, seq2: &Vec<String>) -> (c: Grid)
    requires
        (seq1@.len() + 1) * (seq2@.len() + 1) <= usize::MAX,
    ensures
        c.well_formed(),
        c.rows() == seq1@.len() + 1,
        c.cols() == seq2@.len() + 1,
        forall|i: int, j: int|
            0 <= i <= seq1@.len() && 0 <= j <= seq2@.len() ==> c.at(i, j) == lcs_length(
                lines_of(seq1@),
                lines_of(seq2@),
                i,
                j,
            ),
{
    let x = seq1.len();
    let y = seq2.len();
    let ghost a = lines_of(seq1@);
    let ghost b = lines_of(seq2@);
    assert(x + 1 <= usize::MAX && y + 1 <= usize::MAX) by (nonlinear_arith)
        requires
            (x + 1) * (y + 1) <= usize::MAX,
            x >= 0,
            y >= 0,
    ;
    let mut c = Grid::new(x + 1, y + 1);
    let mut i: usize = 0;
    while i < x
        invariant
            i <= x,
            x == seq1@.len(),
            y == seq2@.len(),
            a == lines_of(seq1@),
            b == lines_of(seq2@),
            c.well_formed(),
            c.rows() == x + 1,
            c.cols() == y + 1,
            forall|r: int, s: int|
                0 <= r <= i && 0 <= s <= y ==> c.at(r, s) == lcs_length(a, b, r, s),
            forall|r: int, s: int| i < r <= x && 0 <= s <= y ==> c.at(r, s) == 0,
        decreases x - i,
    {
        let mut j: usize = 0;
        while j < y
            invariant
                i < x,
                j <= y,
                x == seq1@.len(),
                y == seq2@.len(),
                a == lines_of(seq1@),
                b == lines_of(seq2@),
                c.well_formed(),
                c.rows() == x + 1,
                c.cols() == y + 1,
                forall|r: int, s: int|
                    0 <= r <= i && 0 <= s <= y ==> c.at(r, s) == lcs_length(a, b, r, s),
                forall|r: int, s: int|
                    r == i + 1 && 0 <= s <= j ==> c.at(r, s) == lcs_length(a, b, r, s),
                forall|r: int, s: int| r == i + 1 && j < s <= y ==> c.at(r, s) == 0,
                forall|r: int, s: int| i + 1 < r <= x && 0 <= s <= y ==> c.at(r, s) == 0,
            decreases y - j,
        {
            assert(a[i as int] == seq1@[i as int]@);
            assert(b[j as int] == seq2@[j as int]@);
            proof {
                lemma_lcs_length_bounded(a, b, i as int, j as int);
            }
            let value = if str_eq(seq1[i].as_str(), seq2[j].as_str()) {
                match c.get(i, j) {
                    Some(diagonal) => diagonal + 1,
                    None => 0,
                }
            } else {
                let left = match c.get(i + 1, j) {
                    Some(v) => v,
                    None => 0,
                };
                let up = match c.get(i, j + 1) {
                    Some(v) => v,
                    None => 0,
                };
                if up >= left {
                    up
                } else {
                    left
                }
            };
            assert(value == lcs_length(a, b, i + 1, j + 1));
            let _ = c.set(i + 1, j + 1, value);
            j += 1;
        }
        i += 1;
    }
    c
}

fn walk(
    table: &Grid,
    lines1: &Vec<String>,
    lines2: &Vec<String>,
    i: usize,
    j: usize,
    out: &mut Vec<DiffLine>,
)
    requires
        i <= lines1@.len(),
        j <= lines2@.len(),
        table.well_formed(),
        table.rows() == lines1@.len() + 1,
        table.cols() == lines2@.len() + 1,
        forall|r: int, s: int|
            0 <= r <= lines1@.len() && 0 <= s <= lines2@.len() ==> table.at(r, s) == lcs_length(
                lines_of(lines1@),
                lines_of(lines2@),
                r,
                s,
            ),
    ensures
        final(out)@.map_values(|l: DiffLine| l@) == old(out)@.map_values(|l: DiffLine| l@)
            + diff_of(lines_of(lines1@), lines_of(lines2@), i as int, j as int),
    decreases i + j,
{
    let ghost a = lines_of(lines1@);
    let ghost b = lines_of(lines2@);
    let ghost before = out@.map_values(|l: DiffLine| l@);
    if i > 0 && j > 0 {
        assert(a[i - 1] == lines1@[i - 1]@);
        assert(b[j - 1] == lines2@[j - 1]@);
    }
    let common = i > 0 && j > 0 && str_eq(lines1[i - 1].as_str(), lines2[j - 1].as_str());
    let added = !common && j > 0 && (i == 0 || {
        let left = match table.get(i, j - 1) {
            Some(v) => v,
            None => 0,
        };
        let up = match table.get(i - 1, j) {
            Some(v) => v,
            None => 0,
        };
        left >= up
    });
    if common {
        walk(table, lines1, lines2, i - 1, j - 1, out);
        let ghost shorter = out@.map_values(|l: DiffLine| l@);
        out.push(DiffLine::Same(lines1[i - 1].clone()));
        assert(out@.map_values(|l: DiffLine| l@) =~= shorter.push(DiffLineView::Same(a[i - 1])));
    } else if added {
        walk(table, lines1, lines2, i, j - 1, out);
        assert(b[j - 1] == lines2@[j - 1]@);
        let ghost shorter = out@.map_values(|l: DiffLine| l@);
        out.push(DiffLine::Added(lines2[j - 1].clone()));
        assert(out@.map_values(|l: DiffLine| l@) =~= shorter.push(DiffLineView::Added(b[j - 1])));
    } else if i > 0 {
        walk(table, lines1, lines2, i - 1, j, out);
        assert(a[i - 1] == lines1@[i - 1]@);
        let ghost shorter = out@.map_values(|l: DiffLine| l@);
        out.push(DiffLine::Removed(lines1[i - 1].clone()));
        assert(out@.map_values(|l: DiffLine| l@) =~= shorter.push(DiffLineView::Removed(a[i - 1])));
    }
    assert(out@.map_values(|l: DiffLine| l@) =~= before + diff_of(a, b, i as int, j as int));
}

/// Compares two texts line by line. The result lists every line of both
/// texts once, in order, marked as common, added or removed.
pub fn diff(file1: &Vec<String>, file2: &Vec<String>) -> (r: Vec<DiffLine>)
    requires
        (file1@.len() + 1) * (file2@.len() + 1) <= usize::MAX,
    ensures
        r@.map_values(|l: DiffLine| l@) == diff_of(
            lines_of(file1@),
            lines_of(file2@),
            file1@.len() as int,
            file2@.len() as int,
        ),
{
    let grid = lcs(file1, file2);
    let mut out: Vec<DiffLine> = Vec::new();
    walk(&grid, file1, file2, file1.len(), file2.len(), &mut out);
    assert(out@.map_values(|l: DiffLine| l@) =~= diff_of(
        lines_of(file1@),
        lines_of(file2@),
        file1@.len() as int,
        file2@.len() as int,
    ));
    out
}

} // verus!
