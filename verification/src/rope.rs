//! The text buffer: `ropey::Rope`, with the contracts that the index relies on.
//!
//! Nothing in this file is proved. Each contract states what ropey's source
//! and documentation give for a rope built with ropey's default features,
//! under which LF, VT, FF, CR, NEL, LS, PS and the pair CR LF break a line.

use crate::lines::{line_count, line_of, starts_line};
use vstd::prelude::*;

verus! {

/// `ropey::Rope`, a text buffer that Verus carries as an opaque value.
#[verifier::external_type_specification]
#[verifier::external_body]
pub struct ExRope(ropey::Rope);

/// The chars that a rope holds, in order.
pub uninterp spec fn rope_chars(rope: ropey::Rope) -> Seq<char>;

/// `Rope::from_str` builds a rope that holds exactly the chars of `text`.
pub assume_specification[ ropey::Rope::from_str ](text: &str) -> (rope: ropey::Rope)
    ensures
        rope_chars(rope) == text@,
;

/// `Rope::len_chars` is the number of chars in the rope.
pub assume_specification[ ropey::Rope::len_chars ](rope: &ropey::Rope) -> (n: usize)
    ensures
        n == rope_chars(*rope).len(),
;

/// `Rope::len_lines` is the number of line breaks in the rope plus one.
pub assume_specification[ ropey::Rope::len_lines ](rope: &ropey::Rope) -> (n: usize)
    ensures
        n == line_count(rope_chars(*rope)),
;

/// `Rope::char_to_line` counts the line breaks that end at or before the
/// char index; an index between a CR and its LF is still on their line. It
/// panics for an index beyond the end of the rope, which `requires` excludes.
pub assume_specification[ ropey::Rope::char_to_line ](rope: &ropey::Rope, char_idx: usize) -> (line: usize)
    requires
        char_idx <= rope_chars(*rope).len(),
    ensures
        line == line_of(rope_chars(*rope), char_idx as int),
;

/// `Rope::line_to_char` is the char index at which the line begins: zero
/// for the first line, otherwise the index right after the line break that
/// ends the line before. It panics beyond `len_lines()`, and for the line
/// index `len_lines()`, one past the last line, it returns `len_chars()`;
/// `requires` admits only the rope's own lines.
pub assume_specification[ ropey::Rope::line_to_char ](rope: &ropey::Rope, line_idx: usize) -> (offset: usize)
    requires
        line_idx < line_count(rope_chars(*rope)),
    ensures
        starts_line(rope_chars(*rope), line_idx as int, offset as int),
;

} // verus!
