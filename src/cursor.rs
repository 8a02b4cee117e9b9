//! A cursor in a text buffer, kept by offset, line and column, with a
//! remembered column for vertical movement.
use vstd::prelude::*;
use vstd::math::min;
use crate::buffer::TextBuffer;
use crate::text::{
    column_of, lemma_coordinates_le, lemma_line_start, lemma_position_bounds,
    lemma_position_unique, lemma_step, line_count, line_len, line_of, line_start, NEWLINE,
};

verus! {

/// The state of a cursor: its position in the text, the line and column of
/// that position, and the column that vertical moves aim for.
pub ghost struct CursorState {
    pub index: int,
    pub line: int,
    pub column: int,
    pub desired_column: int,
}

/// The cursor's line and column are those of its position in `s`.
pub open spec fn consistent(s: Seq<char>, c: CursorState) -> bool {
    &&& 0 <= c.index <= s.len()
    &&& c.line == line_of(s, c.index)
    &&& c.column == column_of(s, c.index)
    &&& 0 <= c.desired_column
}

/// The cursor at position `i` of `s`, remembering its own column.
pub open spec fn placed(s: Seq<char>, i: int) -> CursorState {
    CursorState {
        index: i,
        line: line_of(s, i),
        column: column_of(s, i),
        desired_column: column_of(s, i),
    }
}

/// One step back; nothing at the start of the text.
pub open spec fn moved_left(s: Seq<char>, c: CursorState) -> CursorState {
    if c.index <= 0 {
        c
    } else {
        placed(s, c.index - 1)
    }
}

/// One step forward; nothing at the end of the text.
pub open spec fn moved_right(s: Seq<char>, c: CursorState) -> CursorState {
    if c.index >= s.len() {
        c
    } else {
        placed(s, c.index + 1)
    }
}

/// The cursor on line `n` at the desired column, or at the line's end where
/// the line is shorter; the desired column is kept.
pub open spec fn on_line(s: Seq<char>, c: CursorState, n: int) -> CursorState {
    let column = min(c.desired_column, line_len(s, n));
    CursorState {
        index: line_start(s, n) + column,
        line: n,
        column: column,
        desired_column: c.desired_column,
    }
}

/// One line down; nothing on the last line.
pub open spec fn moved_down(s: Seq<char>, c: CursorState) -> CursorState {
    if c.line >= line_count(s) - 1 {
        c
    } else {
        on_line(s, c, c.line + 1)
    }
}

/// One line up; on the first line, to the start of the text.
pub open spec fn moved_up(s: Seq<char>, c: CursorState) -> CursorState {
    if c.line <= 0 {
        CursorState { index: 0, line: 0, column: 0, ..c }
    } else {
        on_line(s, c, c.line - 1)
    }
}

/// A consistent cursor's position is the start of its line plus its column.
pub proof fn lemma_index_from_coordinates(s: Seq<char>, c: CursorState)
    requires
        consistent(s, c),
    ensures
        c.line < line_count(s),
        c.column <= line_len(s, c.line),
        c.index == line_start(s, c.line) + c.column,
{
    lemma_position_bounds(s, c.index);
    lemma_line_start(s, c.line, c.column);
    lemma_position_unique(s, c.index, line_start(s, c.line) + c.column);
}

/// Placing a cursor on an existing line gives a consistent cursor.
pub proof fn lemma_on_line(s: Seq<char>, c: CursorState, n: int)
    requires
        0 <= n < line_count(s),
        0 <= c.desired_column,
    ensures
        consistent(s, on_line(s, c, n)),
{
    lemma_line_start(s, n, min(c.desired_column, line_len(s, n)));
}

/// A text buffer's cursor.
#[derive(Debug)]
pub struct Cursor {
    index: usize,
    line: usize,
    column: usize,
    desired_column: usize,
}

impl View for Cursor {
    type V = CursorState;

    closed spec fn view(&self) -> CursorState {
        CursorState {
            index: self.index as int,
            line: self.line as int,
            column: self.column as int,
            desired_column: self.desired_column as int,
        }
    }
}

impl Cursor {
    /// A cursor at the start of the text.
    pub fn new() -> (r: Cursor)
        ensures
            r@ == (CursorState { index: 0, line: 0, column: 0, desired_column: 0 }),
    {
        Cursor { index: 0, line: 0, column: 0, desired_column: 0 }
    }

    /// Position in the text, in scalar values.
    pub fn index(&self) -> (r: usize)
        ensures
            r == self@.index,
    {
        self.index
    }

    /// Line, counted from 0.
    pub fn line(&self) -> (r: usize)
        ensures
            r == self@.line,
    {
        self.line
    }

    /// Column, counted from 0.
    pub fn column(&self) -> (r: usize)
        ensures
            r == self@.column,
    {
        self.column
    }

    /// The column that vertical moves aim for.
    pub fn desired_column(&self) -> (r: usize)
        ensures
            r == self@.desired_column,
    {
        self.desired_column
    }

    /// Line and column, for drawing the cursor.
    pub fn cursor_position(&self) -> (r: (usize, usize))
        ensures
            r.0 == self@.line,
            r.1 == self@.column,
    {
        (self.line, self.column)
    }

    /// Moves one scalar value back. From the start of a line it lands at the
    /// end of the line before. Nothing happens at the start of the text.
    pub fn move_left(&mut self, buffer: &TextBuffer)
        requires
            consistent(buffer@, old(self)@),
        ensures
            final(self)@ == moved_left(buffer@, old(self)@),
            consistent(buffer@, final(self)@),
            old(self)@.index > 0 && old(self)@.column == 0 ==> final(self)@.line == old(self)@.line
                - 1 && final(self)@.column == line_len(buffer@, old(self)@.line - 1),
            old(self)@.column > 0 ==> final(self)@.line == old(self)@.line && final(self)@.column
                == old(self)@.column - 1,
    {
        let ghost s = buffer@;
        if self.index == 0 {
            return;
        }
        let i = self.index - 1;
        proof {
            lemma_step(s, i as int);
            lemma_position_bounds(s, i as int);
        }
        if self.column == 0 {
            let column = buffer.column_at(i);
            self.line = self.line - 1;
            self.column = column;
        } else {
            self.column = self.column - 1;
        }
        self.index = i;
        self.desired_column = self.column;
    }

    /// Moves one scalar value forward. Over a line break it lands at the
    /// start of the next line. Nothing happens at the end of the text.
    pub fn move_right(&mut self, buffer: &TextBuffer)
        requires
            consistent(buffer@, old(self)@),
        ensures
            final(self)@ == moved_right(buffer@, old(self)@),
            consistent(buffer@, final(self)@),
            old(self)@.index < buffer@.len() && buffer@[old(self)@.index] == NEWLINE
                ==> final(self)@.line == old(self)@.line + 1 && final(self)@.column == 0,
            old(self)@.index < buffer@.len() && buffer@[old(self)@.index] != NEWLINE
                ==> final(self)@.line == old(self)@.line && final(self)@.column
                == old(self)@.column + 1,
    {
        let ghost s = buffer@;
        if self.index == buffer.len() {
            return;
        }
        let c = buffer.char_at(self.index);
        proof {
            lemma_step(s, self.index as int);
            lemma_coordinates_le(s, self.index as int);
        }
        self.index = self.index + 1;
        if c == NEWLINE {
            self.line = self.line + 1;
            self.column = 0;
        } else {
            self.column = self.column + 1;
        }
        self.desired_column = self.column;
    }

    /// Moves one line down, to the desired column or, on a shorter line, to
    /// its end. The desired column is kept. Nothing happens on the last line.
    pub fn move_down(&mut self, buffer: &TextBuffer)
        requires
            consistent(buffer@, old(self)@),
        ensures
            final(self)@ == moved_down(buffer@, old(self)@),
            consistent(buffer@, final(self)@),
    {
        let ghost s = buffer@;
        proof {
            lemma_index_from_coordinates(s, self@);
        }
        let e = buffer.line_end_from(self.index);
        proof {
            lemma_position_bounds(s, e as int);
            assert(s.take(s.len() as int) =~= s);
        }
        if e == buffer.len() {
            return;
        }
        proof {
            lemma_step(s, e as int);
            lemma_position_bounds(s, e + 1);
            lemma_coordinates_le(s, e + 1);
        }
        let next = e + 1;
        let end = buffer.line_end_from(next);
        proof {
            lemma_position_bounds(s, end as int);
        }
        let length = end - next;
        let column = if self.desired_column < length {
            self.desired_column
        } else {
            length
        };
        self.index = next + column;
        self.line = self.line + 1;
        self.column = column;
        proof {
            lemma_on_line(s, old(self)@, old(self)@.line + 1);
        }
    }

    /// Moves one line up, to the desired column or, on a shorter line, to its
    /// end. The desired column is kept. On the first line it moves to the
    /// start of the text.
    pub fn move_up(&mut self, buffer: &TextBuffer)
        requires
            consistent(buffer@, old(self)@),
        ensures
            final(self)@ == moved_up(buffer@, old(self)@),
            consistent(buffer@, final(self)@),
    {
        let ghost s = buffer@;
        if self.line == 0 {
            self.index = 0;
            self.column = 0;
            proof {
                assert(s.take(0) =~= Seq::<char>::empty());
            }
            return;
        }
        proof {
            lemma_index_from_coordinates(s, self@);
            lemma_line_start(s, self.line - 1, line_len(s, self.line - 1));
        }
        let start = self.index - self.column;
        let prev_end = start - 1;
        let length = buffer.column_at(prev_end);
        let prev_start = prev_end - length;
        let column = if self.desired_column < length {
            self.desired_column
        } else {
            length
        };
        self.index = prev_start + column;
        self.line = self.line - 1;
        self.column = column;
        proof {
            lemma_on_line(s, old(self)@, old(self)@.line - 1);
        }
    }
    /// Inserts `value` at the cursor and moves past it: a line break starts
    /// a new line at column 0.
    pub fn insert_char(&mut self, buffer: &mut TextBuffer, value: char)
        requires
            consistent(old(buffer)@, old(self)@),
            old(buffer)@.len() < usize::MAX,
        ensures
            final(buffer)@ == old(buffer)@.insert(old(self)@.index, value),
            final(self)@ == moved_right(final(buffer)@, old(self)@),
            consistent(final(buffer)@, final(self)@),
            final(self)@.index == old(self)@.index + 1,
            value == NEWLINE ==> final(self)@.line == old(self)@.line + 1 && final(self)@.column
                == 0,
            value != NEWLINE ==> final(self)@.line == old(self)@.line && final(self)@.column
                == old(self)@.column + 1,
    {
        let ghost s = buffer@;
        buffer.insert_at(self.index, value);
        proof {
            assert(buffer@.take(self.index as int) =~= s.take(self.index as int));
        }
        self.move_right(buffer);
    }

    /// Inserts a line break at the cursor; the cursor goes to the start of
    /// the new line.
    pub fn insert_newline(&mut self, buffer: &mut TextBuffer)
        requires
            consistent(old(buffer)@, old(self)@),
            old(buffer)@.len() < usize::MAX,
        ensures
            final(buffer)@ == old(buffer)@.insert(old(self)@.index, NEWLINE),
            final(self)@ == moved_right(final(buffer)@, old(self)@),
            consistent(final(buffer)@, final(self)@),
            final(self)@.index == old(self)@.index + 1,
            final(self)@.line == old(self)@.line + 1,
            final(self)@.column == 0,
    {
        self.insert_char(buffer, NEWLINE);
    }

    /// Deletes the scalar value before the cursor, which lands where
    /// `move_left` would. Nothing happens at the start of the text.
    pub fn delete_backward(&mut self, buffer: &mut TextBuffer)
        requires
            consistent(old(buffer)@, old(self)@),
        ensures
            old(self)@.index == 0 ==> final(buffer)@ == old(buffer)@ && final(self)@ == old(self)@,
            old(self)@.index > 0 ==> final(buffer)@ == old(buffer)@.remove(old(self)@.index - 1),
            final(self)@ == moved_left(old(buffer)@, old(self)@),
            consistent(final(buffer)@, final(self)@),
    {
        if self.index == 0 {
            return;
        }
        let ghost s = buffer@;
        self.move_left(buffer);
        buffer.remove_at(self.index);
        proof {
            assert(buffer@.take(self.index as int) =~= s.take(self.index as int));
        }
    }
}

} // verus!
