//! JSON text fragments for request bodies.
use vstd::prelude::*;

verus! {

/// A lower-case hex digit.
pub open spec fn hex_lower(d: nat) -> char {
    if d < 10 {
        (d + 48) as char
    } else {
        (d + 87) as char
    }
}

/// How `serde_json` writes one character inside a string literal: `"` and
/// `\` escaped with a backslash, the controls that have a short escape as
/// `\b \t \n \f \r`, other controls below 0x20 as `\u00xx`, everything
/// else as itself.
pub open spec fn json_char(c: char) -> Seq<char> {
    let n = c as nat;
    if c == '"' {
        seq!['\\', '"']
    } else if c == '\\' {
        seq!['\\', '\\']
    } else if n == 8 {
        seq!['\\', 'b']
    } else if n == 9 {
        seq!['\\', 't']
    } else if n == 10 {
        seq!['\\', 'n']
    } else if n == 12 {
        seq!['\\', 'f']
    } else if n == 13 {
        seq!['\\', 'r']
    } else if n < 0x20 {
        seq!['\\', 'u', '0', '0', hex_lower(n / 16), hex_lower(n % 16)]
    } else {
        seq![c]
    }
}

/// The characters of `s` written as `serde_json` writes them inside a string.
pub open spec fn json_escaped(s: Seq<char>) -> Seq<char>
    decreases s.len(),
{
    if s.len() == 0 {
        Seq::empty()
    } else {
        json_escaped(s.drop_last()) + json_char(s.last())
    }
}

/// What `serde_json::to_string` renders for a string: the quoted, escaped
/// JSON string literal.
pub open spec fn json_string(s: Seq<char>) -> Seq<char> {
    seq!['"'] + json_escaped(s) + seq!['"']
}

/// `serde_json::to_string` on a `&str`: the JSON string literal for `s`
/// (its `format_escaped_str`, as stated by `json_string`). Serialising a
/// string cannot fail.
#[verifier::external_body]
pub(crate) fn json_quote(s: &str) -> (r: String)
    ensures
        r@ == json_string(s@),
{
    serde_json::to_string(s).unwrap_or_default()
}


/// What a JSON document holds under `key` at its top level: `None` when the
/// text is not a JSON object or has no such key, `Some(None)` when the value
/// is not a string, `Some(Some(s))` for a string.
pub uninterp spec fn json_top_string(text: Seq<char>, key: Seq<char>) -> Option<Option<Seq<char>>>;

/// `serde_json::from_str::<Value>` followed by `Value::get(key)` and
/// `Value::as_str`: the top-level string field `key` of a JSON document. The
/// contract names the result.
#[verifier::external_body]
pub(crate) fn json_field(text: &str, key: &str) -> (r: Option<Option<String>>)
    ensures
        match r {
            None => json_top_string(text@, key@) is None,
            Some(None) => json_top_string(text@, key@) == Some(None::<Seq<char>>),
            Some(Some(s)) => json_top_string(text@, key@) == Some(Some(s@)),
        },
{
    serde_json::from_str::<serde_json::Value>(text)
        .ok()
        .and_then(|v| v.get(key).map(|f| f.as_str().map(str::to_string)))
}

} // verus!
