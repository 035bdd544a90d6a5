//! What a recovering parser reports of one syntax error.

use vstd::prelude::*;

verus! {

/// A region of the text, from the offset `start` to the offset `end`.
#[derive(Clone, Copy, Debug, PartialEq, Eq, Structural)]
pub struct Span {
    pub start: usize,
    pub end: usize,
}

/// One syntax error, as the parser found it.
#[derive(Clone, Debug, PartialEq, Eq)]
pub struct ParseErrorRecord {
    /// The erroneous region.
    pub span: Span,
    /// The name of what was being parsed, if the parser knows one.
    pub label: Option<String>,
    /// The unexpected token. `None` means that the input ended.
    pub found: Option<String>,
    /// The tokens that would have been accepted, in the parser's order. A
    /// `None` among them stands for the end of the input.
    pub expected: Vec<Option<String>>,
}

/// A `ParseErrorRecord` as a mathematical value.
pub struct ParseErrorModel {
    pub start: nat,
    pub end: nat,
    pub label: Option<Seq<char>>,
    pub found: Option<Seq<char>>,
    pub expected: Seq<Option<Seq<char>>>,
}

impl View for ParseErrorRecord {
    type V = ParseErrorModel;

    open spec fn view(&self) -> ParseErrorModel {
        ParseErrorModel {
            start: self.span.start as nat,
            end: self.span.end as nat,
            label: self.label.deep_view(),
            found: self.found.deep_view(),
            expected: self.expected.deep_view(),
        }
    }
}

/// The models of a sequence of records, in the same order.
pub open spec fn models_of(errors: Seq<ParseErrorRecord>) -> Seq<ParseErrorModel> {
    errors.map_values(|error: ParseErrorRecord| error@)
}

} // verus!
