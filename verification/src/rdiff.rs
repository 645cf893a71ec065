//! Line-by-line comparison of two texts by their longest common subsequence.

use crate::text::texts;
use crate::grid::Grid;
use vstd::prelude::*;

verus! {

/// The length of a longest common subsequence of `a` and `b`.
pub open spec fn lcs_length(a: Seq<Seq<char>>, b: Seq<Seq<char>>) -> nat
    decreases a.len() + b.len(),
{
    if a.len() == 0 || b.len() == 0 {
        0
    } else if a.last() == b.last() {
        lcs_length(a.drop_last(), b.drop_last()) + 1
    } else {
        let left = lcs_length(a.drop_last(), b);
        let up = lcs_length(a, b.drop_last());
        if left >= up {
            left
        } else {
            up
        }
    }
}

/// Whether `s` can be had from `a` by leaving out lines.
pub open spec fn is_subsequence(s: Seq<Seq<char>>, a: Seq<Seq<char>>) -> bool
    decreases a.len(),
{
    s.len() == 0 || (a.len() > 0 && ((s.last() == a.last() && is_subsequence(
        s.drop_last(),
        a.drop_last(),
    )) || is_subsequence(s, a.drop_last())))
}

/// Whether `s` is a subsequence of both `a` and `b`.
pub open spec fn is_common_subsequence(s: Seq<Seq<char>>, a: Seq<Seq<char>>, b: Seq<Seq<char>>) -> bool {
    is_subsequence(s, a) && is_subsequence(s, b)
}

/// A longest common subsequence of `a` and `b`.
pub open spec fn a_longest(a: Seq<Seq<char>>, b: Seq<Seq<char>>) -> Seq<Seq<char>>
    decreases a.len() + b.len(),
{
    if a.len() == 0 || b.len() == 0 {
        Seq::empty()
    } else if a.last() == b.last() {
        a_longest(a.drop_last(), b.drop_last()).push(a.last())
    } else if lcs_length(a.drop_last(), b) >= lcs_length(a, b.drop_last()) {
        a_longest(a.drop_last(), b)
    } else {
        a_longest(a, b.drop_last())
    }
}

proof fn lemma_subsequence_shorter(s: Seq<Seq<char>>, a: Seq<Seq<char>>)
    requires
        is_subsequence(s, a),
        s.len() > 0,
    ensures
        is_subsequence(s.drop_last(), a),
    decreases a.len(),
{
    let matched = s.last() == a.last() && is_subsequence(s.drop_last(), a.drop_last());
    if s.drop_last().len() > 0 && !matched {
        lemma_subsequence_shorter(s, a.drop_last());
    }
}

/// `lcs_length` is what its name says. There is a common subsequence of that
/// length, and no common subsequence is longer.
pub proof fn lemma_lcs_length_is_greatest(a: Seq<Seq<char>>, b: Seq<Seq<char>>, s: Seq<Seq<char>>)
    ensures
        is_common_subsequence(a_longest(a, b), a, b),
        a_longest(a, b).len() == lcs_length(a, b),
        is_common_subsequence(s, a, b) ==> s.len() <= lcs_length(a, b),
    decreases a.len() + b.len(),
{
    if a.len() > 0 && b.len() > 0 {
        let shorter_a = a.drop_last();
        let shorter_b = b.drop_last();
        if a.last() == b.last() {
            lemma_lcs_length_is_greatest(shorter_a, shorter_b, s.drop_last());
            let longest = a_longest(a, b);
            assert(longest.drop_last() =~= a_longest(shorter_a, shorter_b));
            if is_common_subsequence(s, a, b) && s.len() > 0 {
                if !(s.last() == a.last() && is_subsequence(s.drop_last(), shorter_a)) {
                    lemma_subsequence_shorter(s, shorter_a);
                }
                if !(s.last() == b.last() && is_subsequence(s.drop_last(), shorter_b)) {
                    lemma_subsequence_shorter(s, shorter_b);
                }
            }
        } else {
            lemma_lcs_length_is_greatest(shorter_a, b, s);
            lemma_lcs_length_is_greatest(a, shorter_b, s);
        }
    }
}

/// A common subsequence is no longer than either sequence.
pub proof fn lemma_lcs_length_bound(a: Seq<Seq<char>>, b: Seq<Seq<char>>)
    ensures
        lcs_length(a, b) <= a.len(),
        lcs_length(a, b) <= b.len(),
    decreases a.len() + b.len(),
{
    if a.len() > 0 && b.len() > 0 {
        lemma_lcs_length_bound(a.drop_last(), b.drop_last());
        lemma_lcs_length_bound(a.drop_last(), b);
        lemma_lcs_length_bound(a, b.drop_last());
    }
}

/// The table of a longest-common-subsequence computation: the cell at row `i`
/// and column `j` holds the length of a longest common subsequence of the
/// first `i` lines of `seq1` and the first `j` lines of `seq2`.
pub open spec fn is_lcs_table(grid: Grid, a: Seq<Seq<char>>, b: Seq<Seq<char>>) -> bool {
    &&& grid.wf()
    &&& grid.rows() == a.len() + 1
    &&& grid.cols() == b.len() + 1
    &&& forall|i: int, j: int|
        0 <= i <= a.len() && 0 <= j <= b.len() ==> #[trigger] grid.at(i, j) == lcs_length(
            a.take(i),
            b.take(j),
        )
}

/// Fills in the table of longest common subsequences of the prefixes of
/// `seq1` and `seq2`.
pub fn lcs(seq1: &Vec<String>, seq2: &Vec<String>) -> (grid: Grid)
    requires
        (seq1.len() + 1) * (seq2.len() + 1) <= usize::MAX,
    ensures
        is_lcs_table(grid, texts(seq1@), texts(seq2@)),
{
    let ghost a = texts(seq1@);
    let ghost b = texts(seq2@);
    let rows: usize = seq1.len();
    let cols: usize = seq2.len();
    assert(rows + 1 <= usize::MAX && cols + 1 <= usize::MAX) by (nonlinear_arith)
        requires
            (rows + 1) * (cols + 1) <= usize::MAX,
            rows >= 0,
            cols >= 0,
    ;
    let mut grid = Grid::new(rows + 1, cols + 1);
    let mut i: usize = 0;
    while i < rows
        invariant
            i <= rows,
            rows == seq1.len(),
            cols == seq2.len(),
            a == texts(seq1@),
            b == texts(seq2@),
            grid.wf(),
            grid.rows() == rows + 1,
            grid.cols() == cols + 1,
            forall|r: int, c: int|
                0 <= r <= i && 0 <= c <= cols ==> #[trigger] grid.at(r, c) == lcs_length(
                    a.take(r),
                    b.take(c),
                ),
            forall|r: int, c: int|
                i < r <= rows && 0 <= c <= cols ==> #[trigger] grid.at(r, c) == 0,
        decreases rows - i,
    {
        let mut j: usize = 0;
        while j < cols
            invariant
                i < rows,
                j <= cols,
                rows == seq1.len(),
                cols == seq2.len(),
                a == texts(seq1@),
                b == texts(seq2@),
                grid.wf(),
                grid.rows() == rows + 1,
                grid.cols() == cols + 1,
                forall|r: int, c: int|
                    0 <= r <= i && 0 <= c <= cols ==> #[trigger] grid.at(r, c) == lcs_length(
                        a.take(r),
                        b.take(c),
                    ),
                forall|c: int|
                    0 <= c <= j ==> #[trigger] grid.at(i + 1, c) == lcs_length(
                        a.take(i + 1),
                        b.take(c),
                    ),
                forall|c: int| j < c <= cols ==> #[trigger] grid.at(i + 1, c) == 0,
                forall|r: int, c: int|
                    i + 1 < r <= rows && 0 <= c <= cols ==> #[trigger] grid.at(r, c) == 0,
            decreases cols - j,
        {
            let ghost up = a.take(i + 1);
            let ghost left = b.take(j + 1);
            proof {
                assert(up.drop_last() =~= a.take(i as int));
                assert(left.drop_last() =~= b.take(j as int));
                assert(up.last() == seq1@[i as int]@);
                assert(left.last() == seq2@[j as int]@);
                lemma_lcs_length_bound(a.take(i as int), b.take(j as int));
            }
            let value: usize = if seq1[i] == seq2[j] {
                let diagonal: usize = match grid.get(i, j) {
                    Some(v) => v,
                    None => 0,
                };
                diagonal + 1
            } else {
                let above: usize = match grid.get(i, j + 1) {
                    Some(v) => v,
                    None => 0,
                };
                let before: usize = match grid.get(i + 1, j) {
                    Some(v) => v,
                    None => 0,
                };
                if above >= before {
                    above
                } else {
                    before
                }
            };
            assert(value == lcs_length(up, left));
            let _ = grid.set(i + 1, j + 1, value);
            j = j + 1;
        }
        i = i + 1;
    }
    grid
}

/// One line of a comparison of two texts.
#[derive(Clone, Copy, Debug, PartialEq, Eq)]
pub enum Change {
    /// Line `left` of the first text and line `right` of the second are the
    /// same line.
    Same { left: usize, right: usize },
    /// Line `right` of the second text is not in the first.
    Added { right: usize },
    /// Line `left` of the first text is not in the second.
    Removed { left: usize },
}

/// The comparison of the first `i` lines of `a` with the first `j` lines of
/// `b` that the table `table` leads to.
///
/// From the end: where the last lines of both are equal, they are the same
/// line; else the last line of `b` counts as added if leaving it out loses no
/// more than leaving out the last line of `a`; else the last line of `a`
/// counts as removed.
pub open spec fn diff_of(table: Grid, a: Seq<Seq<char>>, b: Seq<Seq<char>>, i: int, j: int) -> Seq<
    Change,
>
    recommends
        0 <= i <= a.len() <= usize::MAX,
        0 <= j <= b.len() <= usize::MAX,
    decreases i + j,
{
    if i < 0 || j < 0 {
        Seq::empty()
    } else if i > 0 && j > 0 && a[i - 1] == b[j - 1] {
        diff_of(table, a, b, i - 1, j - 1).push(
            Change::Same { left: (i - 1) as usize, right: (j - 1) as usize },
        )
    } else if j > 0 && (i <= 0 || table.at(i, j - 1) >= table.at(i - 1, j)) {
        diff_of(table, a, b, i, j - 1).push(Change::Added { right: (j - 1) as usize })
    } else if i > 0 && (j <= 0 || table.at(i, j - 1) < table.at(i - 1, j)) {
        diff_of(table, a, b, i - 1, j).push(Change::Removed { left: (i - 1) as usize })
    } else {
        Seq::empty()
    }
}

/// The lines of the first text that `changes` speaks of, in order.
pub open spec fn left_lines(changes: Seq<Change>) -> Seq<int>
    decreases changes.len(),
{
    if changes.len() == 0 {
        Seq::empty()
    } else {
        let before = left_lines(changes.drop_last());
        match changes.last() {
            Change::Same { left, right } => before.push(left as int),
            Change::Removed { left } => before.push(left as int),
            Change::Added { right } => before,
        }
    }
}

/// The lines of the second text that `changes` speaks of, in order.
pub open spec fn right_lines(changes: Seq<Change>) -> Seq<int>
    decreases changes.len(),
{
    if changes.len() == 0 {
        Seq::empty()
    } else {
        let before = right_lines(changes.drop_last());
        match changes.last() {
            Change::Same { left, right } => before.push(right as int),
            Change::Added { right } => before.push(right as int),
            Change::Removed { left } => before,
        }
    }
}

/// The number of lines that `changes` finds the same in both texts.
pub open spec fn same_lines(changes: Seq<Change>) -> nat
    decreases changes.len(),
{
    if changes.len() == 0 {
        0
    } else {
        let before = same_lines(changes.drop_last());
        match changes.last() {
            Change::Same { left, right } => before + 1,
            _ => before,
        }
    }
}

/// The numbers from zero up to, and without, `n`.
pub open spec fn count_up(n: int) -> Seq<int> {
    Seq::new(n as nat, |k: int| k)
}

/// A comparison accounts for every line of both texts, once and in order, and
/// lines that it calls the same are equal.
pub proof fn lemma_diff_is_complete(
    table: Grid,
    a: Seq<Seq<char>>,
    b: Seq<Seq<char>>,
    i: int,
    j: int,
)
    requires
        0 <= i <= a.len() <= usize::MAX,
        0 <= j <= b.len() <= usize::MAX,
    ensures
        left_lines(diff_of(table, a, b, i, j)) == count_up(i),
        right_lines(diff_of(table, a, b, i, j)) == count_up(j),
        forall|k: int|
            0 <= k < diff_of(table, a, b, i, j).len() ==> (#[trigger] diff_of(
                table,
                a,
                b,
                i,
                j,
            )[k] matches Change::Same { left, right } ==> left < i && right < j && a[left as int]
                == b[right as int]),
    decreases i + j,
{
    let changes = diff_of(table, a, b, i, j);
    if i > 0 && j > 0 && a[i - 1] == b[j - 1] {
        lemma_diff_is_complete(table, a, b, i - 1, j - 1);
        let rest = diff_of(table, a, b, i - 1, j - 1);
        assert(changes.drop_last() =~= rest);
        assert(count_up(i) =~= count_up(i - 1).push(i - 1));
        assert(count_up(j) =~= count_up(j - 1).push(j - 1));
    } else if j > 0 && (i <= 0 || table.at(i, j - 1) >= table.at(i - 1, j)) {
        lemma_diff_is_complete(table, a, b, i, j - 1);
        let rest = diff_of(table, a, b, i, j - 1);
        assert(changes.drop_last() =~= rest);
        assert(count_up(j) =~= count_up(j - 1).push(j - 1));
    } else if i > 0 && (j <= 0 || table.at(i, j - 1) < table.at(i - 1, j)) {
        lemma_diff_is_complete(table, a, b, i - 1, j);
        let rest = diff_of(table, a, b, i - 1, j);
        assert(changes.drop_last() =~= rest);
        assert(count_up(i) =~= count_up(i - 1).push(i - 1));
    } else {
        assert(count_up(0) =~= Seq::<int>::empty());
    }
}

/// With the table of longest common subsequences, a comparison keeps as many
/// lines as a longest common subsequence has.
pub proof fn lemma_diff_keeps_most(table: Grid, a: Seq<Seq<char>>, b: Seq<Seq<char>>, i: int, j: int)
    requires
        is_lcs_table(table, a, b),
        0 <= i <= a.len(),
        0 <= j <= b.len(),
    ensures
        same_lines(diff_of(table, a, b, i, j)) == lcs_length(a.take(i), b.take(j)),
    decreases i + j,
{
    let changes = diff_of(table, a, b, i, j);
    let up = a.take(i);
    let left = b.take(j);
    if i > 0 {
        assert(up.drop_last() =~= a.take(i - 1));
        assert(up.last() == a[i - 1]);
    }
    if j > 0 {
        assert(left.drop_last() =~= b.take(j - 1));
        assert(left.last() == b[j - 1]);
    }
    if i > 0 && j > 0 && a[i - 1] == b[j - 1] {
        lemma_diff_keeps_most(table, a, b, i - 1, j - 1);
        assert(changes.drop_last() =~= diff_of(table, a, b, i - 1, j - 1));
    } else if j > 0 && (i <= 0 || table.at(i, j - 1) >= table.at(i - 1, j)) {
        lemma_diff_keeps_most(table, a, b, i, j - 1);
        assert(changes.drop_last() =~= diff_of(table, a, b, i, j - 1));
        if i > 0 {
            assert(table.at(i, j - 1) == lcs_length(a.take(i), b.take(j - 1)));
            assert(table.at(i - 1, j) == lcs_length(a.take(i - 1), b.take(j)));
        }
    } else if i > 0 && (j <= 0 || table.at(i, j - 1) < table.at(i - 1, j)) {
        lemma_diff_keeps_most(table, a, b, i - 1, j);
        assert(changes.drop_last() =~= diff_of(table, a, b, i - 1, j));
        if j > 0 {
            assert(table.at(i, j - 1) == lcs_length(a.take(i), b.take(j - 1)));
            assert(table.at(i - 1, j) == lcs_length(a.take(i - 1), b.take(j)));
        }
    }
}

/// Compares the first `i` lines of `lines1` with the first `j` lines of
/// `lines2` by the table `lcs_table`.
pub fn diff(lcs_table: &Grid, lines1: &Vec<String>, lines2: &Vec<String>, i: usize, j: usize) -> (changes:
    Vec<Change>)
    requires
        lcs_table.wf(),
        i <= lines1@.len(),
        j <= lines2@.len(),
        i < lcs_table.rows(),
        j < lcs_table.cols(),
    ensures
        changes@ == diff_of(*lcs_table, texts(lines1@), texts(lines2@), i as int, j as int),
    decreases i + j,
{
    let ghost a = texts(lines1@);
    let ghost b = texts(lines2@);
    if i > 0 && j > 0 && lines1[i - 1] == lines2[j - 1] {
        let mut changes: Vec<Change> = diff(lcs_table, lines1, lines2, i - 1, j - 1);
        changes.push(Change::Same { left: i - 1, right: j - 1 });
        return changes;
    }
    let (before, above): (usize, usize) = if i > 0 && j > 0 {
        let before: usize = match lcs_table.get(i, j - 1) {
            Some(v) => v,
            None => 0,
        };
        let above: usize = match lcs_table.get(i - 1, j) {
            Some(v) => v,
            None => 0,
        };
        (before, above)
    } else {
        (0, 0)
    };
    if j > 0 && (i == 0 || before >= above) {
        let mut changes: Vec<Change> = diff(lcs_table, lines1, lines2, i, j - 1);
        changes.push(Change::Added { right: j - 1 });
        changes
    } else if i > 0 && (j == 0 || before < above) {
        let mut changes: Vec<Change> = diff(lcs_table, lines1, lines2, i - 1, j);
        changes.push(Change::Removed { left: i - 1 });
        changes
    } else {
        Vec::new()
    }
}

} // verus!
