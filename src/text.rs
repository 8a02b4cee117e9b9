//! The mathematical model of a text: its lines, and the line and column of
//! each position.
use vstd::prelude::*;

verus! {

/// The line break.
pub const NEWLINE: char = '\n';

/// The lines of `s`: the runs of scalar values between line breaks, the
/// breaks themselves left out. A text with `k` line breaks has `k + 1` lines.
pub open spec fn lines(s: Seq<char>) -> Seq<Seq<char>>
    decreases s.len(),
{
    if s.len() == 0 {
        seq![Seq::empty()]
    } else {
        let before = lines(s.drop_last());
        if s.last() == NEWLINE {
            before.push(Seq::empty())
        } else {
            before.update(before.len() - 1, before.last().push(s.last()))
        }
    }
}

/// Number of line breaks in `s`.
pub open spec fn breaks(s: Seq<char>) -> int
    decreases s.len(),
{
    if s.len() == 0 {
        0
    } else {
        breaks(s.drop_last()) + if s.last() == NEWLINE {
            1int
        } else {
            0int
        }
    }
}

/// Number of lines of `s`.
pub open spec fn line_count(s: Seq<char>) -> int {
    lines(s).len() as int
}

/// Length of line `n` of `s`.
pub open spec fn line_len(s: Seq<char>, n: int) -> int {
    lines(s)[n].len() as int
}

/// The line of position `i` of `s`: the line breaks in `s[0..i)`.
pub open spec fn line_of(s: Seq<char>, i: int) -> int {
    lines(s.take(i)).len() - 1
}

/// The column of position `i` of `s`: the scalar values between the last
/// line break before `i` (or the start) and `i`.
pub open spec fn column_of(s: Seq<char>, i: int) -> int {
    lines(s.take(i)).last().len() as int
}

/// Position `i` ends its line: it is the end of the text or a line break.
pub open spec fn ends_line(s: Seq<char>, i: int) -> bool {
    i == s.len() || s[i] == NEWLINE
}

/// Position of the first scalar value of line `n` of `s`.
pub open spec fn line_start(s: Seq<char>, n: int) -> int
    decreases n,
{
    if n <= 0 {
        0
    } else {
        line_start(s, n - 1) + line_len(s, n - 1) + 1
    }
}

/// Every text has at least one line.
pub proof fn lemma_lines_nonempty(s: Seq<char>)
    ensures
        lines(s).len() >= 1,
    decreases s.len(),
{
    if s.len() > 0 {
        lemma_lines_nonempty(s.drop_last());
    }
}

/// A text has one line more than it has line breaks; so the line of a
/// position is the number of line breaks before it.
pub proof fn lemma_line_count_breaks(s: Seq<char>)
    ensures
        line_count(s) == breaks(s) + 1,
    decreases s.len(),
{
    if s.len() > 0 {
        lemma_line_count_breaks(s.drop_last());
        lemma_lines_nonempty(s.drop_last());
    }
}

/// Moving from position `i` over the scalar value there: a line break starts
/// a new line at column 0, anything else adds one to the column.
pub proof fn lemma_step(s: Seq<char>, i: int)
    requires
        0 <= i < s.len(),
    ensures
        s[i] == NEWLINE ==> line_of(s, i + 1) == line_of(s, i) + 1 && column_of(s, i + 1) == 0,
        s[i] != NEWLINE ==> line_of(s, i + 1) == line_of(s, i) && column_of(s, i + 1)
            == column_of(s, i) + 1,
{
    let t = s.take(i + 1);
    assert(t.drop_last() =~= s.take(i));
    assert(t.last() == s[i]);
    lemma_lines_nonempty(s.take(i));
}

/// Extending a prefix of `s` from length `i` to length `j` keeps every line
/// of the shorter prefix but its last, and only lengthens that last one.
pub proof fn lemma_extend(s: Seq<char>, i: int, j: int)
    requires
        0 <= i <= j <= s.len(),
    ensures
        lines(s.take(i)).len() <= lines(s.take(j)).len(),
        forall|k: int|
            0 <= k < lines(s.take(i)).len() - 1 ==> #[trigger] lines(s.take(j))[k] == lines(
                s.take(i),
            )[k],
        lines(s.take(i)).last().len() <= lines(s.take(j))[lines(s.take(i)).len() - 1].len(),
    decreases j - i,
{
    lemma_lines_nonempty(s.take(i));
    if j > i {
        lemma_extend(s, i, j - 1);
        let t = s.take(j);
        assert(t.drop_last() =~= s.take(j - 1));
        lemma_lines_nonempty(s.take(j - 1));
    }
}

/// The line and column of each position are within the lines of the text:
/// a position ends its line exactly where its column is the line's length.
pub proof fn lemma_position_bounds(s: Seq<char>, i: int)
    requires
        0 <= i <= s.len(),
    ensures
        0 <= line_of(s, i) < line_count(s),
        0 <= column_of(s, i) <= line_len(s, line_of(s, i)),
        ends_line(s, i) <==> column_of(s, i) == line_len(s, line_of(s, i)),
{
    assert(s.take(s.len() as int) =~= s);
    lemma_lines_nonempty(s.take(i));
    lemma_extend(s, i, s.len() as int);
    if i < s.len() {
        let t = s.take(i + 1);
        assert(t.drop_last() =~= s.take(i));
        lemma_lines_nonempty(s.take(i + 1));
        lemma_extend(s, i + 1, s.len() as int);
    }
}

/// Walking along a line from a position of column 0 raises the column by
/// one at each step and stays on that line, up to the line's end.
pub proof fn lemma_along_line(s: Seq<char>, st: int, k: int)
    requires
        0 <= st <= s.len(),
        column_of(s, st) == 0,
        0 <= k <= line_len(s, line_of(s, st)),
    ensures
        st + k <= s.len(),
        line_of(s, st + k) == line_of(s, st),
        column_of(s, st + k) == k,
    decreases k,
{
    if k > 0 {
        lemma_along_line(s, st, k - 1);
        let p = st + k - 1;
        lemma_position_bounds(s, p);
        lemma_step(s, p);
    }
}

/// Line `n` starts at `line_start(s, n)`, and its positions have line `n`
/// and the columns `0` to its length.
pub proof fn lemma_line_start(s: Seq<char>, n: int, k: int)
    requires
        0 <= n < line_count(s),
        0 <= k <= line_len(s, n),
    ensures
        0 <= line_start(s, n),
        line_start(s, n) + k <= s.len(),
        line_of(s, line_start(s, n) + k) == n,
        column_of(s, line_start(s, n) + k) == k,
    decreases n,
{
    if n == 0 {
        assert(s.take(0) =~= Seq::<char>::empty());
        assert(line_of(s, 0) == 0);
        assert(column_of(s, 0) == 0);
        lemma_along_line(s, 0, k);
    } else {
        let e = line_start(s, n - 1) + line_len(s, n - 1);
        lemma_line_start(s, n - 1, line_len(s, n - 1));
        assert(e <= s.len());
        assert(s.take(s.len() as int) =~= s);
        assert(e < s.len()) by {
            if e == s.len() {
                assert(line_of(s, e) == line_count(s) - 1);
            }
        }
        lemma_position_bounds(s, e);
        lemma_step(s, e);
        lemma_along_line(s, e + 1, k);
    }
}

/// Two positions with the same line and column are the same position.
pub proof fn lemma_position_unique(s: Seq<char>, i: int, j: int)
    requires
        0 <= i <= s.len(),
        0 <= j <= s.len(),
        line_of(s, i) == line_of(s, j),
        column_of(s, i) == column_of(s, j),
    ensures
        i == j,
{
    if i < j {
        lemma_forward(s, i, j);
    } else if j < i {
        lemma_forward(s, j, i);
    }
}

/// Moving forward never lowers the line, and along one line the column grows
/// by the distance moved.
pub proof fn lemma_forward(s: Seq<char>, i: int, j: int)
    requires
        0 <= i <= j <= s.len(),
    ensures
        line_of(s, i) <= line_of(s, j),
        line_of(s, i) == line_of(s, j) ==> column_of(s, j) == column_of(s, i) + (j - i),
    decreases j - i,
{
    if i < j {
        lemma_forward(s, i, j - 1);
        lemma_step(s, j - 1);
    }
}

/// The last line of a prefix of `s` is the run of scalar values just before
/// its end, as long as its column.
pub proof fn lemma_last_line(s: Seq<char>, i: int)
    requires
        0 <= i <= s.len(),
    ensures
        column_of(s, i) <= i,
        lines(s.take(i)).last() =~= s.subrange(i - column_of(s, i), i),
    decreases i,
{
    if i == 0 {
        assert(s.take(0) =~= Seq::<char>::empty());
    } else {
        lemma_last_line(s, i - 1);
        lemma_lines_nonempty(s.take(i - 1));
        let t = s.take(i);
        assert(t.drop_last() =~= s.take(i - 1));
        lemma_step(s, i - 1);
        if s[i - 1] != NEWLINE {
            assert(s.subrange(i - column_of(s, i), i) =~= s.subrange(
                i - 1 - column_of(s, i - 1),
                i - 1,
            ).push(s[i - 1]));
        }
    }
}

/// Line `n` of `s` is the run of scalar values from its start, as long as
/// the line.
pub proof fn lemma_line_content(s: Seq<char>, n: int)
    requires
        0 <= n < line_count(s),
    ensures
        lines(s)[n] =~= s.subrange(line_start(s, n), line_start(s, n) + line_len(s, n)),
{
    let p = line_start(s, n) + line_len(s, n);
    lemma_line_start(s, n, line_len(s, n));
    lemma_position_bounds(s, p);
    lemma_last_line(s, p);
    assert(s.take(s.len() as int) =~= s);
    if p < s.len() {
        let t = s.take(p + 1);
        assert(t.drop_last() =~= s.take(p));
        lemma_lines_nonempty(s.take(p));
        lemma_extend(s, p + 1, s.len() as int);
    }
}

/// Line and column of a position never exceed the position itself.
pub proof fn lemma_coordinates_le(s: Seq<char>, i: int)
    requires
        0 <= i <= s.len(),
    ensures
        0 <= line_of(s, i) <= i,
        0 <= column_of(s, i) <= i,
    decreases i,
{
    lemma_lines_nonempty(s.take(i));
    if i == 0 {
        assert(s.take(0) =~= Seq::<char>::empty());
    } else {
        lemma_coordinates_le(s, i - 1);
        lemma_step(s, i - 1);
    }
}

} // verus!
