//! JSON text of strings and lists of strings, written and read by `serde_json`.

use vstd::prelude::*;
use crate::text::{Text, join};

verus! {

/// The error type of `serde_json`.
#[verifier::external_type_specification]
#[verifier::external_body]
pub struct ExJsonError(serde_json::Error);

/// A hexadecimal digit, lower case.
pub open spec fn hex_digit(n: int) -> char {
    if n < 10 {
        ('0' as u32 + n) as char
    } else {
        ('a' as u32 + (n - 10)) as char
    }
}

/// A character as it stands in a JSON string.
pub open spec fn json_char(c: char) -> Text {
    if c == '"' {
        seq!['\\', '"']
    } else if c == '\\' {
        seq!['\\', '\\']
    } else if c == '\u{8}' {
        seq!['\\', 'b']
    } else if c == '\u{c}' {
        seq!['\\', 'f']
    } else if c == '\n' {
        seq!['\\', 'n']
    } else if c == '\r' {
        seq!['\\', 'r']
    } else if c == '\t' {
        seq!['\\', 't']
    } else if (c as u32) < 0x20 {
        seq!['\\', 'u', '0', '0', hex_digit(c as int / 16), hex_digit(c as int % 16)]
    } else {
        seq![c]
    }
}

/// The characters of `s` as they stand in a JSON string.
pub open spec fn json_chars(s: Text) -> Text
    decreases s.len(),
{
    if s.len() == 0 {
        seq![]
    } else {
        json_chars(s.drop_last()) + json_char(s.last())
    }
}

/// The JSON string of `s`: in quotes, with quotes, backslashes and control
/// characters escaped.
pub open spec fn json_quoted(s: Text) -> Text {
    seq!['"'] + json_chars(s) + seq!['"']
}

/// The JSON array of strings.
pub open spec fn json_array(items: Seq<Text>) -> Text {
    seq!['['] + join(items.map_values(|s: Text| json_quoted(s)), seq![',']) + seq![']']
}

/// What `serde_json::from_str` reads as a string.
pub uninterp spec fn json_string_value(text: Seq<char>) -> Option<Seq<char>>;

/// What `serde_json::from_str` reads as an array of strings.
pub uninterp spec fn json_strings_value(text: Seq<char>) -> Option<Seq<Seq<char>>>;

/// `serde_json::to_string` of a string: it succeeds, and writes the string in
/// quotes with quotes, backslashes and control characters escaped.
#[verifier::external_body]
pub(crate) fn json_string(value: &str) -> (r: Result<String, serde_json::Error>)
    ensures
        r is Ok,
        r->Ok_0@ == json_quoted(value@),
{
    serde_json::to_string(value)
}

/// `serde_json::from_str` into a string: its result depends on the text alone,
/// and it reads back what `serde_json::to_string` writes of a string.
#[verifier::external_body]
pub(crate) fn json_string_from(text: &str) -> (r: Result<String, serde_json::Error>)
    ensures
        r is Ok <==> json_string_value(text@) is Some,
        r is Ok ==> Some(r->Ok_0@) == json_string_value(text@),
        forall|t: Text| text@ == #[trigger] json_quoted(t) ==> r is Ok && r->Ok_0@ == t,
{
    serde_json::from_str::<String>(text)
}

/// `serde_json::to_string` of a list of strings: it succeeds, and writes the
/// JSON strings in brackets, commas between them.
#[verifier::external_body]
pub(crate) fn json_strings(values: &Vec<String>) -> (r: Result<String, serde_json::Error>)
    ensures
        r is Ok,
        r->Ok_0@ == json_array(values.deep_view()),
{
    serde_json::to_string(values)
}

/// `serde_json::from_str` into a list of strings: its result depends on the
/// text alone, and it reads back what `serde_json::to_string` writes of a list.
#[verifier::external_body]
pub(crate) fn json_strings_from(text: &str) -> (r: Result<Vec<String>, serde_json::Error>)
    ensures
        r is Ok <==> json_strings_value(text@) is Some,
        r is Ok ==> Some(r->Ok_0.deep_view()) == json_strings_value(text@),
        forall|t: Seq<Text>|
            text@ == #[trigger] json_array(t) ==> r is Ok && r->Ok_0.deep_view() == t,
{
    serde_json::from_str::<Vec<String>>(text)
}

/// The JSON string of `s`.
pub fn quote_json(s: &str) -> (r: String)
    ensures
        r@ == json_quoted(s@),
{
    match json_string(s) {
        Ok(t) => t,
        Err(_) => String::new(),
    }
}

} // verus!
