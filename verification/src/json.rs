//! JSON text, as far as this crate writes it.

use vstd::prelude::*;

verus! {

/// `serde_json::Error`, opaque to the verifier.
#[verifier::external_type_specification]
#[verifier::external_body]
pub struct ExJsonError(serde_json::Error);

/// The JSON string literal for `text`: the text between double quotes, with
/// the characters escaped that JSON does not take as they are.
pub uninterp spec fn json_string_literal(text: Seq<char>) -> Seq<char>;

/// Whether a JSON string takes `c` as it is: every character but the double
/// quote, the backslash and the control characters below the blank.
pub open spec fn is_plain(c: char) -> bool {
    c != '"' && c != '\\' && ' ' <= c
}

/// Whether a JSON string takes every character of `text` as it is.
pub open spec fn needs_no_escape(text: Seq<char>) -> bool {
    forall|i: int| 0 <= i < text.len() ==> is_plain(#[trigger] text[i])
}

/// `text` between double quotes.
pub open spec fn quoted(text: Seq<char>) -> Seq<char> {
    seq!['"'] + text + seq!['"']
}

/// The JSON string literal for `text`, spelled out where nothing is escaped.
pub open spec fn json_literal(text: Seq<char>) -> Seq<char> {
    if needs_no_escape(text) {
        quoted(text)
    } else {
        json_string_literal(text)
    }
}

/// `serde_json::to_string` on a string: the JSON string literal for `text`.
/// It succeeds on every text, and hands a text of which nothing is escaped
/// back between double quotes. This is not proved.
#[verifier::external_body]
pub(crate) fn quote(text: &str) -> (literal: Result<String, serde_json::Error>)
    ensures
        literal is Ok,
        literal.unwrap()@ == json_string_literal(text@),
        needs_no_escape(text@) ==> literal.unwrap()@ == quoted(text@),
{
    serde_json::to_string(text)
}

} // verus!
