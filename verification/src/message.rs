//! The text of a diagnostic: what was found, where, and what was expected.

use crate::record::{ParseErrorModel, ParseErrorRecord};
use vstd::prelude::*;

verus! {

/// The first clause: whether a token or the end of the input was met.
pub open spec fn unexpected_kind(found: Option<Seq<char>>) -> Seq<char> {
    if found is Some {
        "Unexpected token"@
    } else {
        "Unexpected end of input"@
    }
}

/// The second clause: names what was being parsed, or is empty.
pub open spec fn context_suffix(label: Option<Seq<char>>) -> Seq<char> {
    match label {
        Some(name) => " while parsing "@ + name,
        None => Seq::<char>::empty(),
    }
}

/// How one expected token is written.
pub open spec fn descriptor_text(descriptor: Option<Seq<char>>) -> Seq<char> {
    match descriptor {
        Some(token) => token,
        None => "end of input"@,
    }
}

/// The expected tokens in their order, with `", "` between neighbours.
pub open spec fn joined_descriptors(expected: Seq<Option<Seq<char>>>) -> Seq<char>
    decreases expected.len(),
{
    if expected.len() == 0 {
        Seq::<char>::empty()
    } else if expected.len() == 1 {
        descriptor_text(expected[0])
    } else {
        joined_descriptors(expected.drop_last()) + ", "@ + descriptor_text(expected.last())
    }
}

/// The third clause: the expected tokens, or a fixed phrase where the
/// parser names none.
pub open spec fn expectation_list(expected: Seq<Option<Seq<char>>>) -> Seq<char> {
    if expected.len() == 0 {
        "something else"@
    } else {
        joined_descriptors(expected)
    }
}

/// The whole message of a syntax error.
pub open spec fn message_text(error: ParseErrorModel) -> Seq<char> {
    unexpected_kind(error.found) + context_suffix(error.label) + ", expected "@
        + expectation_list(error.expected)
}

/// An error at the end of the input, with no label and nothing expected,
/// has the barest message.
pub proof fn lemma_bare_message(error: ParseErrorModel)
    requires
        error.found is None,
        error.label is None,
        error.expected.len() == 0,
    ensures
        message_text(error) == "Unexpected end of input, expected something else"@,
{
    reveal_strlit("Unexpected end of input");
    reveal_strlit(", expected ");
    reveal_strlit("something else");
    reveal_strlit("Unexpected end of input, expected something else");
    assert(message_text(error) =~= "Unexpected end of input, expected something else"@);
}

/// Renders the message of one syntax error.
pub fn render_message(error: &ParseErrorRecord) -> (message: String)
    ensures
        message@ == message_text(error@),
{
    let mut message = String::new();
    if error.found.is_some() {
        message.append("Unexpected token");
    } else {
        message.append("Unexpected end of input");
    }
    match &error.label {
        Some(name) => {
            message.append(" while parsing ");
            message.append(name.as_str());
        },
        None => {},
    }
    message.append(", expected ");
    let ghost head = message@;
    let ghost expected = error@.expected;
    assert(head =~= unexpected_kind(error@.found) + context_suffix(error@.label) + ", expected "@);
    let count = error.expected.len();
    if count == 0 {
        message.append("something else");
    } else {
        let mut i: usize = 0;
        assert(head + joined_descriptors(expected.take(0)) =~= head);
        while i < count
            invariant
                i <= count,
                count == error.expected.len(),
                expected == error@.expected,
                message@ == head + joined_descriptors(expected.take(i as int)),
            decreases count - i,
        {
            let ghost before = joined_descriptors(expected.take(i as int));
            let ghost upto = expected.take(i + 1);
            assert(upto.drop_last() =~= expected.take(i as int));
            assert(upto.last() == expected[i as int]);
            if i > 0 {
                message.append(", ");
            }
            match &error.expected[i] {
                Some(token) => {
                    message.append(token.as_str());
                },
                None => {
                    message.append("end of input");
                },
            }
            assert(message@ =~= head + joined_descriptors(upto)) by {
                let text = descriptor_text(expected[i as int]);
                if i == 0 {
                    assert(before =~= Seq::<char>::empty());
                    assert(message@ =~= head + text);
                } else {
                    assert(message@ =~= head + (before + ", "@ + text));
                }
            }
            i += 1;
        }
        assert(expected.take(count as int) =~= expected);
    }
    message
}

} // verus!
