//! The text index: from flat char offsets to lines and columns.

use crate::lines::{
    column_of, lemma_breaks_monotone, lemma_line_begin_starts_line, lemma_line_start_is,
    line_begin, line_count, line_of, line_start, offset_at, starts_line,
};
use crate::rope::rope_chars;
use vstd::prelude::*;

verus! {

/// A place in a text: a zero-based line and a zero-based column, both
/// counted in chars.
#[derive(Clone, Copy, Debug, PartialEq, Eq, Structural)]
pub struct Position {
    pub line: usize,
    pub column: usize,
}

/// Whether `a` is at or before `b`: on an earlier line, or on the same
/// line at no greater a column.
pub open spec fn precedes(a: Position, b: Position) -> bool {
    a.line < b.line || (a.line == b.line && a.column <= b.column)
}

/// Why the index could not answer.
#[derive(Clone, Copy, Debug, PartialEq, Eq, Structural)]
pub enum IndexError {
    /// An offset or a line number lies outside the text. `index` is the value
    /// that was asked for; `len` is the length of the text for an offset and
    /// the number of lines for a line number.
    OutOfRange { index: usize, len: usize },
}

/// The position of an offset in a text: its line, and as column its
/// distance from the start of that line. An offset beyond the end of the
/// text has none.
pub open spec fn position_of(text: Seq<char>, offset: nat) -> Result<Position, IndexError> {
    if offset <= text.len() {
        Ok(
            Position {
                line: line_of(text, offset as int) as usize,
                column: column_of(text, offset as int) as usize,
            },
        )
    } else {
        Err(IndexError::OutOfRange { index: offset as usize, len: text.len() as usize })
    }
}

/// An index over one text, built once and not changed afterwards.
pub struct TextIndex {
    rope: ropey::Rope,
}

impl View for TextIndex {
    type V = Seq<char>;

    /// The indexed text.
    closed spec fn view(&self) -> Seq<char> {
        rope_chars(self.rope)
    }
}

impl TextIndex {
    /// Indexes `text`.
    pub fn new(text: &str) -> (index: TextIndex)
        ensures
            index@ == text@,
    {
        TextIndex { rope: ropey::Rope::from_str(text) }
    }

    /// The length of the text in chars, which is also its last offset.
    pub fn len(&self) -> (n: usize)
        ensures
            n == self@.len(),
    {
        self.rope.len_chars()
    }

    /// The number of lines of the text.
    pub fn line_count(&self) -> (n: usize)
        ensures
            n == line_count(self@),
    {
        self.rope.len_lines()
    }

    /// The line that holds `offset`. The end of the text is an offset like
    /// any other; an offset beyond it is out of range.
    pub fn line_of(&self, offset: usize) -> (result: Result<usize, IndexError>)
        ensures
            match result {
                Ok(line) => {
                    &&& offset <= self@.len()
                    &&& line == line_of(self@, offset as int)
                    &&& line < line_count(self@)
                },
                Err(IndexError::OutOfRange { index, len }) => {
                    &&& offset > self@.len()
                    &&& index == offset
                    &&& len == self@.len()
                },
            },
    {
        let len = self.rope.len_chars();
        if offset <= len {
            proof {
                lemma_breaks_monotone(self@, offset as int, len as int);
            }
            Ok(self.rope.char_to_line(offset))
        } else {
            Err(IndexError::OutOfRange { index: offset, len })
        }
    }

    /// The offset at which line `line` begins. A line number beyond the last
    /// line is out of range.
    pub fn line_start_offset(&self, line: usize) -> (result: Result<usize, IndexError>)
        ensures
            match result {
                Ok(start) => {
                    &&& line < line_count(self@)
                    &&& start == line_start(self@, line as int)
                    &&& starts_line(self@, line as int, start as int)
                },
                Err(IndexError::OutOfRange { index, len }) => {
                    &&& line >= line_count(self@)
                    &&& index == line
                    &&& len == line_count(self@)
                },
            },
    {
        let lines = self.rope.len_lines();
        if line < lines {
            let start = self.rope.line_to_char(line);
            proof {
                lemma_line_start_is(self@, line as int, start as int);
            }
            Ok(start)
        } else {
            Err(IndexError::OutOfRange { index: line, len: lines })
        }
    }

    /// The position of `offset`: its line, and as column its distance from
    /// the start of that line. Every offset from zero to the end of the text
    /// has a position, and the start of its line plus its column is the
    /// offset again; an offset beyond the end is out of range.
    pub fn to_position(&self, offset: usize) -> (result: Result<Position, IndexError>)
        ensures
            result == position_of(self@, offset as nat),
            offset == 0 ==> result == Ok::<Position, IndexError>(Position { line: 0, column: 0 }),
            match result {
                Ok(position) => {
                    &&& offset <= self@.len()
                    &&& position.line == line_of(self@, offset as int)
                    &&& position.column == column_of(self@, offset as int)
                    &&& position.line < line_count(self@)
                    &&& offset_at(self@, position.line as int, position.column as int) == offset
                },
                Err(IndexError::OutOfRange { index, len }) => {
                    &&& offset > self@.len()
                    &&& index == offset
                    &&& len == self@.len()
                },
            },
    {
        let line = match self.line_of(offset) {
            Ok(line) => line,
            Err(e) => {
                return Err(e);
            },
        };
        let start = match self.line_start_offset(line) {
            Ok(start) => start,
            Err(e) => {
                return Err(e);
            },
        };
        proof {
            lemma_line_begin_starts_line(self@, offset as int);
            lemma_line_start_is(self@, line as int, line_begin(self@, offset as int));
        }
        Ok(Position { line, column: offset - start })
    }
}

} // verus!
