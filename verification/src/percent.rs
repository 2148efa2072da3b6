//! Percent-encoded parts of a path.
use std::borrow::Borrow;
use std::str::{FromStr, Utf8Error};

use vstd::prelude::*;
use vstd::utf8;

verus! {

/// Declares `std::str::Utf8Error`, the error for bytes that are no UTF-8.
#[verifier::external_type_specification]
#[verifier::external_body]
pub struct ExUtf8Error(Utf8Error);

/// The value of a hexadecimal digit, in either case.
pub open spec fn hex_value(b: u8) -> Option<int> {
    if 0x30 <= b <= 0x39 {
        Some(b - 0x30)
    } else if 0x41 <= b <= 0x46 {
        Some(b - 0x41 + 10)
    } else if 0x61 <= b <= 0x66 {
        Some(b - 0x61 + 10)
    } else {
        None
    }
}

/// `bytes` with each `%` and the two hexadecimal digits behind it replaced by the byte that the
/// digits stand for. A `%` without two such digits stays.
pub open spec fn percent_decoded(bytes: Seq<u8>) -> Seq<u8>
    decreases bytes.len(),
{
    if bytes.len() == 0 {
        seq![]
    } else if bytes[0] == 0x25 && bytes.len() >= 3 && hex_value(bytes[1]) is Some && hex_value(
        bytes[2],
    ) is Some {
        seq![(hex_value(bytes[1])->0 * 16 + hex_value(bytes[2])->0) as u8] + percent_decoded(
            bytes.skip(3),
        )
    } else {
        seq![bytes[0]] + percent_decoded(bytes.skip(1))
    }
}

/// Calls `percent_encoding::percent_decode_str` and then `decode_utf8` on what it returns: the
/// UTF-8 bytes of `s` with their percent escapes replaced, read as UTF-8 again.
///
/// Which of the bytes the error points at is not stated.
#[verifier::external_body]
fn percent_decode(s: &str) -> (r: Result<String, Utf8Error>)
    ensures
        r is Ok <==> utf8::valid_utf8(percent_decoded(utf8::encode_utf8(s@))),
        r matches Ok(text) ==> text@ == utf8::decode_utf8(
            percent_decoded(utf8::encode_utf8(s@)),
        ),
{
    percent_encoding::percent_decode_str(s).decode_utf8().map(|text| text.into_owned())
}

/// A text that came percent-encoded in a path.
#[derive(Clone, Debug)]
pub struct PercentDecoded(pub String);

impl PercentDecoded {
    /// Decodes `s`. Fails where the bytes that come out are no UTF-8.
    pub fn from_str(s: &str) -> (r: Result<Self, Utf8Error>)
        ensures
            r is Ok <==> utf8::valid_utf8(percent_decoded(utf8::encode_utf8(s@))),
            r matches Ok(p) ==> p.0@ == utf8::decode_utf8(
                percent_decoded(utf8::encode_utf8(s@)),
            ),
    {
        match percent_decode(s) {
            Ok(text) => Ok(PercentDecoded(text)),
            Err(e) => Err(e),
        }
    }

    /// The decoded text, borrowed.
    pub fn borrow(&self) -> (text: &String)
        ensures
            *text == self.0,
    {
        &self.0
    }

    /// The decoded text.
    pub fn to_string(&self) -> (text: String)
        ensures
            text@ == self.0@,
    {
        self.0.clone()
    }
}

impl FromStr for PercentDecoded {
    type Err = Utf8Error;

    fn from_str(s: &str) -> (r: Result<Self, Self::Err>)
        ensures
            r is Ok <==> utf8::valid_utf8(percent_decoded(utf8::encode_utf8(s@))),
            r matches Ok(p) ==> p.0@ == utf8::decode_utf8(
                percent_decoded(utf8::encode_utf8(s@)),
            ),
    {
        PercentDecoded::from_str(s)
    }
}

impl Borrow<String> for PercentDecoded {
    fn borrow(&self) -> (text: &String)
        ensures
            *text == self.0,
    {
        &self.0
    }
}

} // verus!
