//! The line structure of a text, as a mathematical model over `Seq<char>`.
//!
//! Offsets count chars. A text of length `n` has the offsets `0..=n`; the
//! offset `n` is the end of the text. The start of the text and every offset
//! right after a line break begin a line, and a line break belongs to the line
//! that it ends.

use vstd::prelude::*;

verus! {

/// The chars that break a line: LF, VT, FF, CR, NEL, LS and PS.
pub open spec fn is_line_break_char(c: char) -> bool {
    c == '\u{000A}' || c == '\u{000B}' || c == '\u{000C}' || c == '\u{000D}' || c == '\u{0085}'
        || c == '\u{2028}' || c == '\u{2029}'
}

/// Whether a line break ends with the char at index `i`.
///
/// A CR that is directly followed by an LF forms one line break with it,
/// and that break ends with the LF.
pub open spec fn ends_line_break(text: Seq<char>, i: int) -> bool {
    &&& 0 <= i < text.len()
    &&& is_line_break_char(text[i])
    &&& !(text[i] == '\u{000D}' && i + 1 < text.len() && text[i + 1] == '\u{000A}')
}

/// The number of line breaks that end at or before `offset`.
pub open spec fn breaks_before(text: Seq<char>, offset: int) -> nat
    decreases offset,
{
    if offset <= 0 {
        0
    } else if ends_line_break(text, offset - 1) {
        breaks_before(text, offset - 1) + 1
    } else {
        breaks_before(text, offset - 1)
    }
}

/// The number of lines of the text: one more than it has line breaks, so a
/// text that ends in a line break has an empty last line.
pub open spec fn line_count(text: Seq<char>) -> nat {
    breaks_before(text, text.len() as int) + 1
}

/// The zero-based line that holds `offset`.
pub open spec fn line_of(text: Seq<char>, offset: int) -> nat {
    breaks_before(text, offset)
}

/// The offset at which the line that holds `offset` begins: the nearest
/// offset at or before `offset` that is the start of the text or follows a
/// line break.
pub open spec fn line_begin(text: Seq<char>, offset: int) -> int
    decreases offset,
{
    if offset <= 0 {
        0
    } else if ends_line_break(text, offset - 1) {
        offset
    } else {
        line_begin(text, offset - 1)
    }
}

/// The zero-based column of `offset`: the chars between the start of its
/// line and `offset`.
pub open spec fn column_of(text: Seq<char>, offset: int) -> int {
    offset - line_begin(text, offset)
}

/// Whether line `line` of the text begins at `offset`.
pub open spec fn starts_line(text: Seq<char>, line: int, offset: int) -> bool {
    &&& 0 <= offset <= text.len()
    &&& offset == 0 || ends_line_break(text, offset - 1)
    &&& breaks_before(text, offset) == line
}

/// The offset at which line `line` begins. It is meaningful for
/// `0 <= line < line_count(text)`.
pub open spec fn line_start(text: Seq<char>, line: int) -> int {
    choose|offset: int| starts_line(text, line, offset)
}

/// The offset that a line and a column name.
pub open spec fn offset_at(text: Seq<char>, line: int, column: int) -> int {
    line_start(text, line) + column
}

/// Later offsets have no fewer line breaks before them.
pub proof fn lemma_breaks_monotone(text: Seq<char>, a: int, b: int)
    requires
        a <= b,
    ensures
        breaks_before(text, a) <= breaks_before(text, b),
    decreases b - a,
{
    if a < b {
        lemma_breaks_monotone(text, a, b - 1);
    }
}

/// The line that holds an offset begins at `line_begin`, at or before the
/// offset.
pub proof fn lemma_line_begin_starts_line(text: Seq<char>, offset: int)
    requires
        0 <= offset <= text.len(),
    ensures
        0 <= line_begin(text, offset) <= offset,
        starts_line(text, line_of(text, offset) as int, line_begin(text, offset)),
    decreases offset,
{
    if offset > 0 && !ends_line_break(text, offset - 1) {
        lemma_line_begin_starts_line(text, offset - 1);
    }
}

/// A line begins at one offset only.
pub proof fn lemma_line_start_unique(text: Seq<char>, line: int, a: int, b: int)
    requires
        starts_line(text, line, a),
        starts_line(text, line, b),
    ensures
        a == b,
{
    if a < b {
        lemma_breaks_monotone(text, a, b - 1);
    } else if b < a {
        lemma_breaks_monotone(text, b, a - 1);
    }
}

/// An offset that begins a line is that line's `line_start`.
pub proof fn lemma_line_start_is(text: Seq<char>, line: int, offset: int)
    requires
        starts_line(text, line, offset),
    ensures
        line_start(text, line) == offset,
{
    lemma_line_start_unique(text, line, line_start(text, line), offset);
}

/// Every line below `line_count` begins somewhere in the text, and its
/// start is on that line at column zero.
pub proof fn lemma_line_start_on_line(text: Seq<char>, line: int)
    requires
        0 <= line < line_count(text),
    ensures
        starts_line(text, line, line_start(text, line)),
        line_of(text, line_start(text, line)) == line,
        column_of(text, line_start(text, line)) == 0,
{
    lemma_some_offset_on_line(text, line, text.len() as int);
    let o = choose|o: int| 0 <= o <= text.len() && breaks_before(text, o) == line;
    lemma_line_begin_starts_line(text, o);
}

/// Round trip: the line and the column of an offset name that offset
/// again, for every offset from zero to the end of the text.
pub proof fn lemma_position_round_trip(text: Seq<char>, offset: int)
    requires
        0 <= offset <= text.len(),
    ensures
        line_of(text, offset) < line_count(text),
        0 <= column_of(text, offset) <= offset,
        line_start(text, line_of(text, offset) as int) == line_begin(text, offset),
        offset_at(text, line_of(text, offset) as int, column_of(text, offset)) == offset,
{
    lemma_breaks_monotone(text, offset, text.len() as int);
    lemma_line_begin_starts_line(text, offset);
    lemma_line_start_is(text, line_of(text, offset) as int, line_begin(text, offset));
}

/// The start of every text, empty or not, is line zero, column zero.
pub proof fn lemma_origin(text: Seq<char>)
    ensures
        line_of(text, 0) == 0,
        column_of(text, 0) == 0,
        offset_at(text, 0, 0) == 0,
{
    lemma_line_start_is(text, 0, 0);
}

/// Positions keep the order of offsets: a later offset is on a later line,
/// or on the same line at no smaller a column.
pub proof fn lemma_positions_ordered(text: Seq<char>, a: int, b: int)
    requires
        0 <= a <= b <= text.len(),
    ensures
        line_of(text, a) <= line_of(text, b),
        line_of(text, a) == line_of(text, b) ==> column_of(text, a) <= column_of(text, b),
{
    lemma_breaks_monotone(text, a, b);
    if line_of(text, a) == line_of(text, b) {
        lemma_line_begin_starts_line(text, a);
        lemma_line_begin_starts_line(text, b);
        lemma_line_start_unique(
            text,
            line_of(text, a) as int,
            line_begin(text, a),
            line_begin(text, b),
        );
    }
}

/// Below an offset, every line count from zero to that of the offset is
/// taken by some offset.
proof fn lemma_some_offset_on_line(text: Seq<char>, line: int, bound: int)
    requires
        0 <= bound <= text.len(),
        0 <= line <= breaks_before(text, bound),
    ensures
        exists|o: int| 0 <= o <= text.len() && breaks_before(text, o) == line,
    decreases bound,
{
    if breaks_before(text, bound) == line {
        assert(0 <= bound <= text.len() && breaks_before(text, bound) == line);
    } else {
        lemma_some_offset_on_line(text, line, bound - 1);
    }
}

} // verus!
