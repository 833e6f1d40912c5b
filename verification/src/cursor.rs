//! The character cursor: the scanning state holding the whole input, the
//! index of the current character, and its line/column/offset position.
//!
//! Invariant: after successful construction or any successful advance the
//! current character is valid and the position reflects its location.
//! Advancing past end-of-input is a distinguishable failure, never a panic.

use crate::chars::{is_name_char, is_name_start_char, is_space, spec_is_name_char,
    spec_is_name_start_char, spec_is_space};
use crate::error::Error;
use crate::parser::DocStatus;
use vstd::prelude::*;

verus! {

/// Where the scanner stands: 1-based line and column, and `absolute`, the
/// number of characters consumed so far (0 before the first character).
#[derive(Debug, Clone, Copy, PartialEq, Eq, Structural, Hash)]
pub struct Position {
    pub line: u64,
    pub column: u64,
    pub absolute: u64,
}

/// The position before anything has been consumed: the first consumed
/// character lands on line 1, column 1, absolute 1.
pub open spec fn start_position() -> Position {
    Position { line: 1, column: 0, absolute: 0 }
}

/// The 1-based line and column after consuming the first `n` characters of
/// `s`: a newline increments the line and resets the column to 0, so that the
/// following character lands on column 1; any other character increments the
/// column.
pub open spec fn line_col_after(s: Seq<char>, n: int) -> (int, int)
    decreases n,
{
    if n <= 0 {
        (1, 0)
    } else {
        let prev = line_col_after(s, n - 1);
        if s[n - 1] == '\n' {
            (prev.0 + 1, 0)
        } else {
            (prev.0, prev.1 + 1)
        }
    }
}

/// After consuming `n` characters the line is between 1 and `n + 1` and the
/// column between 0 and `n`.
pub proof fn lemma_line_col_bounds(s: Seq<char>, n: int)
    requires
        0 <= n,
    ensures
        1 <= line_col_after(s, n).0 <= n + 1,
        0 <= line_col_after(s, n).1 <= n,
    decreases n,
{
    if n > 0 {
        lemma_line_col_bounds(s, n - 1);
    }
}

impl Position {
    /// Advance the position over one consumed character.
    pub fn increment(&mut self, current_char: char)
        requires
            old(self).line < u64::MAX,
            old(self).column < u64::MAX,
            old(self).absolute < u64::MAX,
        ensures
            final(self).absolute == old(self).absolute + 1,
            current_char == '\n' ==> final(self).line == old(self).line + 1 && final(self).column
                == 0,
            current_char != '\n' ==> final(self).line == old(self).line && final(self).column
                == old(self).column + 1,
    {
        self.absolute = self.absolute + 1;
        if current_char == '\n' {
            self.line = self.line + 1;
            self.column = 0;
        } else {
            self.column = self.column + 1;
        }
    }
}

impl Default for Position {
    /// The starting position, before any character is consumed.
    fn default() -> (r: Position)
        ensures
            r == start_position(),
    {
        Position { line: 1, column: 0, absolute: 0 }
    }
}

/// The first index at or after `i` whose character is not ASCII whitespace,
/// or `s.len()` if only whitespace remains.
pub open spec fn ws_end(s: Seq<char>, i: int) -> int
    decreases s.len() - i,
{
    if i < 0 || i >= s.len() {
        i
    } else if !spec_is_space(s[i]) {
        i
    } else {
        ws_end(s, i + 1)
    }
}

/// `ws_end` never moves backwards, stops within the input, and everything
/// it skipped was whitespace.
pub proof fn lemma_ws_end_bounds(s: Seq<char>, i: int)
    requires
        0 <= i <= s.len(),
    ensures
        i <= ws_end(s, i) <= s.len(),
        forall|j: int| i <= j < ws_end(s, i) ==> spec_is_space(s[j]),
    decreases s.len() - i,
{
    if i < s.len() && spec_is_space(s[i]) {
        lemma_ws_end_bounds(s, i + 1);
    }
}

/// The position of the character at index `j` of `s`: what the scanner's
/// position is when that character is current.
pub open spec fn pos_at(s: Seq<char>, j: int) -> Position {
    Position {
        line: line_col_after(s, j + 1).0 as u64,
        column: line_col_after(s, j + 1).1 as u64,
        absolute: (j + 1) as u64,
    }
}

/// The scanning state threaded through every parsing function: the buffered
/// input, the index of the current character, its position, and the
/// document-level status.
#[derive(Debug, Clone)]
pub struct ParserState {
    pub chars: Vec<char>,
    pub idx: usize,
    pub position: Position,
    pub doc_status: DocStatus,
}

impl ParserState {
    /// Well-formedness: the cursor stands on a valid character and the
    /// position is exactly the line/column/offset of that character.
    pub open spec fn wf(self) -> bool {
        &&& self.chars@.len() < usize::MAX
        &&& self.idx < self.chars@.len()
        &&& self.position.absolute == self.idx + 1
        &&& self.position.line == line_col_after(self.chars@, self.idx + 1).0
        &&& self.position.column == line_col_after(self.chars@, self.idx + 1).1
    }

    /// The input as a sequence of characters.
    pub open spec fn input(self) -> Seq<char> {
        self.chars@
    }

    /// The index of the current character.
    pub open spec fn at(self) -> int {
        self.idx as int
    }

    /// The current character.
    pub open spec fn cur(self) -> char {
        self.chars@[self.idx as int]
    }

    /// Everything that does not change when the cursor merely moves.
    pub open spec fn same_input(self, other: ParserState) -> bool {
        &&& self.chars@ == other.chars@
        &&& self.doc_status == other.doc_status
    }

    /// Construct a cursor primed on the first character. Fails on empty
    /// input, and on input too large to index, with a parse error at the
    /// start.
    pub fn new(input: Vec<char>, doc_status: DocStatus) -> (r: Result<ParserState, Error>)
        ensures
            match r {
                Ok(st) => st.wf() && st.chars@ == input@ && st.idx == 0 && st.doc_status
                    == doc_status,
                Err(e) => (input@.len() == 0 || input@.len() >= usize::MAX) && e is Parse,
            },
    {
        if input.len() == 0 || input.len() >= usize::MAX {
            return Err(Error::Parse { position: Position::default() });
        }
        let mut position = Position::default();
        position.increment(input[0]);
        let st = ParserState { chars: input, idx: 0, position, doc_status };
        proof {
            assert(line_col_after(st.chars@, 0) == (1int, 0int));
            assert(line_col_after(st.chars@, 1) == if st.chars@[0] == '\n' {
                (2int, 0int)
            } else {
                (1int, 1int)
            });
        }
        Ok(st)
    }

    /// The current character.
    pub fn current(&self) -> (c: char)
        requires
            self.wf(),
        ensures
            c == self.cur(),
    {
        self.chars[self.idx]
    }

    /// Consume one character. Returns `false`, changing nothing, when no
    /// character follows.
    pub fn advance(&mut self) -> (more: bool)
        requires
            old(self).wf(),
        ensures
            final(self).wf(),
            old(self).same_input(*final(self)),
            more == (old(self).at() + 1 < old(self).input().len()),
            more ==> final(self).at() == old(self).at() + 1,
            !more ==> *final(self) == *old(self),
    {
        if self.idx + 1 < self.chars.len() {
            proof {
                lemma_line_col_bounds(self.chars@, self.idx + 1);
            }
            self.idx = self.idx + 1;
            let c = self.chars[self.idx];
            self.position.increment(c);
            true
        } else {
            false
        }
    }

    /// Consume one character, or fail with a parse error at the current
    /// position when the input is exhausted.
    pub fn advance_or_die(&mut self) -> (r: Result<(), Error>)
        requires
            old(self).wf(),
        ensures
            final(self).wf(),
            old(self).same_input(*final(self)),
            match r {
                Ok(()) => old(self).at() + 1 < old(self).input().len() && final(self).at() == old(
                    self,
                ).at() + 1,
                Err(e) => old(self).at() + 1 == old(self).input().len() && *final(self) == *old(
                    self,
                ) && (e matches Error::Parse { position } && position == old(self).position),
            },
    {
        if self.advance() {
            Ok(())
        } else {
            Err(Error::Parse { position: self.position })
        }
    }

    /// The next character without consuming it; a parse error at the
    /// current position when none exists.
    pub fn peek_or_die(&self) -> (r: Result<char, Error>)
        requires
            self.wf(),
        ensures
            match r {
                Ok(c) => self.at() + 1 < self.input().len() && c == self.input()[self.at() + 1],
                Err(e) => self.at() + 1 == self.input().len() && (e matches Error::Parse {
                    position,
                } && position == self.position),
            },
    {
        if self.idx + 1 < self.chars.len() {
            Ok(self.chars[self.idx + 1])
        } else {
            Err(Error::Parse { position: self.position })
        }
    }

    /// True when a next character exists and equals `c`.
    pub fn peek_is(&self, c: char) -> (r: bool)
        requires
            self.wf(),
        ensures
            r == (self.at() + 1 < self.input().len() && self.input()[self.at() + 1] == c),
    {
        self.idx + 1 < self.chars.len() && self.chars[self.idx + 1] == c
    }

    /// True when the current character equals `c`.
    pub fn is(&self, c: char) -> (r: bool)
        requires
            self.wf(),
        ensures
            r == (self.cur() == c),
    {
        self.chars[self.idx] == c
    }

    /// Fails with a parse error at the current position unless the current
    /// character equals `c`.
    pub fn expect(&self, c: char) -> (r: Result<(), Error>)
        requires
            self.wf(),
        ensures
            match r {
                Ok(()) => self.cur() == c,
                Err(e) => self.cur() != c && (e matches Error::Parse { position } && position
                    == self.position),
            },
    {
        if self.chars[self.idx] == c {
            Ok(())
        } else {
            Err(Error::Parse { position: self.position })
        }
    }

    /// True when the current character is ASCII whitespace.
    pub fn is_whitespace(&self) -> (r: bool)
        requires
            self.wf(),
        ensures
            r == spec_is_space(self.cur()),
    {
        is_space(self.chars[self.idx])
    }

    /// True when the current character may start an XML name.
    pub fn is_name_start_char(&self) -> (r: bool)
        requires
            self.wf(),
        ensures
            r == spec_is_name_start_char(self.cur()),
    {
        is_name_start_char(self.chars[self.idx])
    }

    /// True when the current character may continue an XML name.
    pub fn is_name_char(&self) -> (r: bool)
        requires
            self.wf(),
        ensures
            r == spec_is_name_char(self.cur()),
    {
        is_name_char(self.chars[self.idx])
    }

    /// A parse error at the current position.
    pub fn parse_error(&self) -> (e: Error)
        ensures
            e matches Error::Parse { position } && position == self.position,
    {
        Error::Parse { position: self.position }
    }

    /// Advance past consecutive ASCII whitespace, stopping on the first
    /// other character; fails, standing on the last character, when only
    /// whitespace remains.
    pub fn skip_whitespace(&mut self) -> (r: Result<(), Error>)
        requires
            old(self).wf(),
        ensures
            final(self).wf(),
            old(self).same_input(*final(self)),
            old(self).at() <= final(self).at(),
            match r {
                Ok(()) => final(self).at() == ws_end(old(self).input(), old(self).at())
                    && !spec_is_space(final(self).cur()),
                Err(e) => ws_end(old(self).input(), old(self).at()) == old(self).input().len()
                    && final(self).at() + 1 == old(self).input().len() && (
                e matches Error::Parse { position } && position == final(self).position),
            },
    {
        loop
            invariant
                self.wf(),
                old(self).same_input(*self),
                old(self).at() <= self.at(),
                ws_end(old(self).input(), old(self).at()) == ws_end(self.input(), self.at()),
            decreases self.input().len() - self.at(),
        {
            if !self.is_whitespace() {
                return Ok(());
            }
            if !self.advance() {
                proof {
                    assert(ws_end(self.input(), self.at() + 1) == self.input().len());
                }
                return Err(Error::Parse { position: self.position });
            }
        }
    }
}

} // verus!
