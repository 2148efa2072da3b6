//! JSON texts.
use vstd::prelude::*;

use crate::path;
use crate::rows;

verus! {

/// The decimal digit for a number below ten.
pub open spec fn digit(n: nat) -> char {
    ('0' as nat + n) as char
}

/// A number in decimal, without leading zeros.
pub open spec fn decimal(n: nat) -> Seq<char>
    decreases n,
{
    if n < 10 {
        seq![digit(n)]
    } else {
        decimal(n / 10).push(digit(n % 10))
    }
}

/// The hexadecimal digit for a number below sixteen, in lower case.
pub open spec fn hex_digit(n: nat) -> char {
    if n < 10 {
        digit(n)
    } else {
        ('a' as nat + (n - 10)) as char
    }
}

/// A character as it stands in a JSON string: quotation marks, backslashes and control characters
/// are escaped, the rest stays as it is.
pub open spec fn escaped_char(c: char) -> Seq<char> {
    if c == '"' || c == '\\' {
        seq!['\\', c]
    } else if c as nat == 0x08 {
        seq!['\\', 'b']
    } else if c as nat == 0x09 {
        seq!['\\', 't']
    } else if c as nat == 0x0a {
        seq!['\\', 'n']
    } else if c as nat == 0x0c {
        seq!['\\', 'f']
    } else if c as nat == 0x0d {
        seq!['\\', 'r']
    } else if (c as nat) < 0x20 {
        seq!['\\', 'u', '0', '0', hex_digit(c as nat / 16), hex_digit(c as nat % 16)]
    } else {
        seq![c]
    }
}

/// A text as it stands in a JSON string.
pub open spec fn escaped(s: Seq<char>) -> Seq<char>
    decreases s.len(),
{
    if s.len() == 0 {
        seq![]
    } else {
        escaped_char(s[0]) + escaped(s.drop_first())
    }
}

/// A text as a JSON string.
pub open spec fn quoted(s: Seq<char>) -> Seq<char> {
    seq!['"'] + escaped(s) + seq!['"']
}

/// Some texts as a JSON array of strings.
pub open spec fn quoted_list(texts: Seq<Seq<char>>) -> Seq<char> {
    seq!['['] + path::join(texts.map_values(|s: Seq<char>| quoted(s)), ',') + seq![']']
}

/// Calls `serde_json::to_string` on a text: the text as a JSON string. Writing to memory does not
/// fail.
#[verifier::external_body]
pub(crate) fn json_string(s: &str) -> (json: String)
    ensures
        json@ == quoted(s@),
{
    serde_json::to_string(s).unwrap()
}

/// Calls `serde_json::to_string` on a list of texts: the texts as a JSON array of strings. Writing
/// to memory does not fail.
#[verifier::external_body]
pub(crate) fn json_list(texts: &Vec<String>) -> (json: String)
    ensures
        json@ == quoted_list(rows::texts_view(texts@)),
{
    serde_json::to_string(texts).unwrap()
}

} // verus!
