//! The editable text: an ordered sequence of Unicode scalar values.
use vstd::prelude::*;
use crate::text::{
    breaks, column_of, ends_line, lemma_line_count_breaks, lemma_line_content, lemma_line_start, lemma_position_bounds, lemma_step,
    line_count, line_of, line_start, lines, NEWLINE,
};

verus! {

/// Text held as scalar values, addressed by position.
#[derive(Debug)]
pub struct TextBuffer {
    content: Vec<char>,
}

impl View for TextBuffer {
    type V = Seq<char>;

    closed spec fn view(&self) -> Seq<char> {
        self.content@
    }
}

impl TextBuffer {
    /// A buffer holding the scalar values of `text`, in order.
    pub fn new(text: &str) -> (r: TextBuffer)
        ensures
            r@ == text@,
    {
        let mut content: Vec<char> = Vec::new();
        for c in it: text.chars()
            invariant
                content@ == it.seq().take(it.index() as int),
        {
            content.push(c);
        }
        TextBuffer { content }
    }

    /// Number of scalar values.
    pub fn len(&self) -> (r: usize)
        ensures
            r == self@.len(),
    {
        self.content.len()
    }

    /// The scalar value at `pos`.
    pub fn char_at(&self, pos: usize) -> (r: char)
        requires
            pos < self@.len(),
        ensures
            r == self@[pos as int],
    {
        self.content[pos]
    }

    /// The whole text, read-only.
    pub fn content(&self) -> (r: &[char])
        ensures
            r@ == self@,
    {
        self.content.as_slice()
    }

    /// Inserts `value` just before position `pos`; what stood at `pos` and
    /// after moves up by one.
    pub fn insert_at(&mut self, pos: usize, value: char)
        requires
            pos <= old(self)@.len(),
        ensures
            final(self)@ == old(self)@.insert(pos as int, value),
    {
        self.content.insert(pos, value);
    }

    /// Removes and returns the scalar value at `pos`.
    pub fn remove_at(&mut self, pos: usize) -> (r: char)
        requires
            pos < old(self)@.len(),
        ensures
            r == old(self)@[pos as int],
            final(self)@ == old(self)@.remove(pos as int),
    {
        self.content.remove(pos)
    }
    /// The line and column of position `pos`, found by scanning the text
    /// from its start.
    pub fn position_of(&self, pos: usize) -> (r: (usize, usize))
        requires
            pos <= self@.len(),
        ensures
            r.0 <= pos,
            r.0 == line_of(self@, pos as int),
            r.1 == column_of(self@, pos as int),
    {
        let ghost s = self@;
        proof {
            assert(s.take(0) =~= Seq::<char>::empty());
        }
        let mut line: usize = 0;
        let mut column: usize = 0;
        let mut i: usize = 0;
        while i < pos
            invariant
                pos <= s.len(),
                s == self@,
                i <= pos,
                line <= i,
                column <= i,
                line == line_of(s, i as int),
                column == column_of(s, i as int),
            decreases pos - i,
        {
            proof {
                lemma_step(s, i as int);
            }
            if self.content[i] == NEWLINE {
                line = line + 1;
                column = 0;
            } else {
                column = column + 1;
            }
            i = i + 1;
        }
        (line, column)
    }

    /// Number of lines: one more than the number of line breaks.
    pub fn line_count(&self) -> (r: usize)
        requires
            self@.len() < usize::MAX,
        ensures
            r == line_count(self@),
            r == breaks(self@) + 1,
            r >= 1,
    {
        let n = self.content.len();
        proof {
            lemma_line_count_breaks(self@);
        }
        let (last, _) = self.position_of(n);
        proof {
            assert(self@.take(n as int) =~= self@);
        }
        last + 1
    }

    /// The column of position `pos`, found by scanning back to the start of
    /// its line; `pos` minus the result is where that line starts.
    pub(crate) fn column_at(&self, pos: usize) -> (r: usize)
        requires
            pos <= self@.len(),
        ensures
            r == column_of(self@, pos as int),
            column_of(self@, pos as int - r) == 0,
            line_of(self@, pos as int - r) == line_of(self@, pos as int),
    {
        let ghost s = self@;
        let mut k: usize = pos;
        while k > 0 && self.content[k - 1] != NEWLINE
            invariant
                s == self@,
                k <= pos <= s.len(),
                column_of(s, pos as int) == column_of(s, k as int) + (pos - k),
                line_of(s, pos as int) == line_of(s, k as int),
            decreases k,
        {
            proof {
                lemma_step(s, k - 1);
            }
            k = k - 1;
        }
        proof {
            if k == 0 {
                assert(s.take(0) =~= Seq::<char>::empty());
            } else {
                lemma_step(s, k - 1);
            }
        }
        pos - k
    }

    /// The first position at or after `pos` that ends a line.
    pub(crate) fn line_end_from(&self, pos: usize) -> (r: usize)
        requires
            pos <= self@.len(),
        ensures
            pos <= r <= self@.len(),
            ends_line(self@, r as int),
            line_of(self@, r as int) == line_of(self@, pos as int),
            column_of(self@, r as int) == column_of(self@, pos as int) + (r - pos),
    {
        let ghost s = self@;
        let mut j: usize = pos;
        while j < self.content.len() && self.content[j] != NEWLINE
            invariant
                s == self@,
                pos <= j <= s.len(),
                column_of(s, j as int) == column_of(s, pos as int) + (j - pos),
                line_of(s, j as int) == line_of(s, pos as int),
            decreases s.len() - j,
        {
            proof {
                lemma_step(s, j as int);
            }
            j = j + 1;
        }
        j
    }
    /// Line `n`, without its line break.
    pub fn line_at(&self, n: usize) -> (r: Vec<char>)
        requires
            n < line_count(self@),
        ensures
            r@ == lines(self@)[n as int],
    {
        let ghost s = self@;
        let total = self.content.len();
        let mut start: usize = 0;
        let mut line: usize = 0;
        while line < n
            invariant
                s == self@,
                total == s.len(),
                line <= n < line_count(s),
                start == line_start(s, line as int),
            decreases n - line,
        {
            proof {
                lemma_line_start(s, line as int, 0);
            }
            let e = self.line_end_from(start);
            proof {
                lemma_position_bounds(s, e as int);
                assert(s.take(s.len() as int) =~= s);
                assert(e < s.len()) by {
                    if e == s.len() {
                        assert(line_of(s, e as int) == line_count(s) - 1);
                    }
                }
            }
            start = e + 1;
            line = line + 1;
        }
        proof {
            lemma_line_start(s, n as int, 0);
            lemma_line_content(s, n as int);
        }
        let end = self.line_end_from(start);
        proof {
            lemma_position_bounds(s, end as int);
        }
        let mut out: Vec<char> = Vec::new();
        let mut k: usize = start;
        while k < end
            invariant
                s == self@,
                start <= k <= end <= s.len(),
                out@ =~= s.subrange(start as int, k as int),
            decreases end - k,
        {
            out.push(self.content[k]);
            k = k + 1;
        }
        out
    }
}

} // verus!
