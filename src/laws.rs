//! Properties that hold of every text and every consistent cursor.
use vstd::prelude::*;
use crate::cursor::{consistent, lemma_index_from_coordinates, lemma_on_line, moved_down,
    moved_left, moved_right, moved_up, CursorState};
use crate::text::line_count;

verus! {

/// Moving right and then left from any position before the end of the text
/// returns the cursor to the same position, line and column.
pub proof fn lemma_right_then_left(s: Seq<char>, c: CursorState)
    requires
        consistent(s, c),
        c.index < s.len(),
    ensures
        moved_left(s, moved_right(s, c)).index == c.index,
        moved_left(s, moved_right(s, c)).line == c.line,
        moved_left(s, moved_right(s, c)).column == c.column,
{
}

/// Every command keeps the cursor's line and column equal to those found by
/// scanning the text up to its position.
pub proof fn lemma_commands_keep_consistency(s: Seq<char>, c: CursorState, value: char)
    requires
        consistent(s, c),
    ensures
        consistent(s, moved_left(s, c)),
        consistent(s, moved_right(s, c)),
        consistent(s, moved_down(s, c)),
        consistent(s, moved_up(s, c)),
        consistent(s.insert(c.index, value), moved_right(s.insert(c.index, value), c)),
        c.index > 0 ==> consistent(s.remove(c.index - 1), moved_left(s, c)),
{
    lemma_index_from_coordinates(s, c);
    if c.line < line_count(s) - 1 {
        lemma_on_line(s, c, c.line + 1);
    }
    if c.line > 0 {
        lemma_on_line(s, c, c.line - 1);
    }
    assert(s.take(0) =~= Seq::<char>::empty());
    let t = s.insert(c.index, value);
    assert(t.take(c.index) =~= s.take(c.index));
    if c.index > 0 {
        let u = s.remove(c.index - 1);
        assert(u.take(c.index - 1) =~= s.take(c.index - 1));
    }
}

/// At the edges of the text moves change nothing, but moving up from the
/// first line goes to the start of the text.
pub proof fn lemma_boundary_moves(s: Seq<char>, c: CursorState)
    requires
        consistent(s, c),
    ensures
        c.index == 0 ==> moved_left(s, c) == c,
        c.index == s.len() ==> moved_right(s, c) == c,
        c.line == line_count(s) - 1 ==> moved_down(s, c) == c,
        c.line == 0 ==> moved_up(s, c).index == 0 && moved_up(s, c).column == 0
            && moved_up(s, c).line == 0,
{
}

} // verus!
