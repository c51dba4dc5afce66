//! JSON text of string lists, as the database stores lines and tags.

use vstd::prelude::*;
use crate::error::AppError;

verus! {

/// A lower-case hexadecimal digit.
pub open spec fn hex_lower(d: u32) -> char {
    if d < 10 {
        (('0' as u32) + d) as char
    } else {
        (('a' as u32) + d - 10) as char
    }
}

/// How one character appears inside a JSON string: quote, backslash and
/// the control characters are escaped (`\b \t \n \f \r`, else `\u00XX`
/// in lower-case hex); every other character stands for itself.
pub open spec fn json_escape(c: char) -> Seq<char> {
    let u = c as u32;
    if c == '"' {
        seq!['\\', '"']
    } else if c == '\\' {
        seq!['\\', '\\']
    } else if u == 0x08 {
        seq!['\\', 'b']
    } else if u == 0x09 {
        seq!['\\', 't']
    } else if u == 0x0a {
        seq!['\\', 'n']
    } else if u == 0x0c {
        seq!['\\', 'f']
    } else if u == 0x0d {
        seq!['\\', 'r']
    } else if u < 0x20 {
        seq!['\\', 'u', '0', '0', hex_lower(u / 16), hex_lower(u % 16)]
    } else {
        seq![c]
    }
}

/// The characters of a string, escaped for JSON.
pub open spec fn json_escaped(s: Seq<char>) -> Seq<char>
    decreases s.len(),
{
    if s.len() == 0 {
        Seq::<char>::empty()
    } else {
        json_escaped(s.drop_last()) + json_escape(s.last())
    }
}

/// A JSON string literal.
pub open spec fn json_string(s: Seq<char>) -> Seq<char> {
    seq!['"'] + json_escaped(s) + seq!['"']
}

/// JSON string literals separated by commas.
pub open spec fn json_items(items: Seq<Seq<char>>) -> Seq<char>
    decreases items.len(),
{
    if items.len() == 0 {
        Seq::<char>::empty()
    } else if items.len() == 1 {
        json_string(items[0])
    } else {
        json_items(items.drop_last()) + seq![','] + json_string(items.last())
    }
}

/// The JSON text that `serde_json::to_string` writes for a list of strings:
/// compact, `[` and `]` around the string literals, commas between them.
pub open spec fn json_string_list(items: Seq<Seq<char>>) -> Seq<char> {
    seq!['['] + json_items(items) + seq![']']
}

/// The views of a vector of strings.
pub open spec fn strings_view(v: Seq<String>) -> Seq<Seq<char>> {
    v.map_values(|s: String| s@)
}

/// Writes a list of strings as JSON (`serde_json::to_string`, compact
/// formatter); an error would come back as its message. It succeeds on
/// every list of strings: the serializer fails only where a value's
/// `Serialize` impl or a map key does, and it writes into a `Vec<u8>`,
/// which takes every write. The text is `json_string_list` of the list.
#[verifier::external_body]
fn serde_json_to_string(items: &Vec<String>) -> (r: Result<String, String>)
    ensures
        r is Ok,
        r matches Ok(s) ==> s@ == json_string_list(strings_view(items@)),
{
    serde_json::to_string(items).map_err(|e| e.to_string())
}

/// A list of strings as JSON text. It always succeeds; the error type is
/// that of the serializer's callers.
pub fn to_json_list(items: &Vec<String>) -> (r: Result<String, AppError>)
    ensures
        r is Ok,
        r matches Ok(s) ==> s@ == json_string_list(strings_view(items@)),
{
    match serde_json_to_string(items) {
        Ok(s) => Ok(s),
        Err(m) => Err(AppError::Internal(m)),
    }
}

} // verus!
