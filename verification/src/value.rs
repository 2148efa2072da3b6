//! Field values: their types, how a key is read from a path, how values are compared and hashed.
use vstd::prelude::*;

use crate::file;
use crate::path;

verus! {

/// The types that a column can have.
#[derive(Clone, Copy, Debug, PartialEq, Eq, Structural)]
pub enum ValueType {
    /// No value.
    Nothing,
    /// A signed number of 32 bits.
    Integer,
    /// An IEEE number of 32 bits.
    Float,
    /// A text.
    Text,
    /// A truth value.
    Boolean,
    /// A signed number of 64 bits.
    BigInt,
    /// A text that holds XML.
    VarChar,
}

/// A field value.
#[derive(Debug)]
pub enum Field {
    /// No value.
    Nothing,
    /// A signed number of 32 bits.
    Integer(i32),
    /// The bits of an IEEE number of 32 bits.
    Float(u32),
    /// The Latin-1 bytes of a text.
    Text(Vec<u8>),
    /// A truth value.
    Boolean(bool),
    /// A signed number of 64 bits.
    BigInt(i64),
    /// The Latin-1 bytes of a text that holds XML.
    VarChar(Vec<u8>),
}

/// [`Field`] over the bytes of its texts.
pub ghost enum FieldView {
    Nothing,
    Integer(i32),
    Float(u32),
    Text(Seq<u8>),
    Boolean(bool),
    BigInt(i64),
    VarChar(Seq<u8>),
}

impl View for Field {
    type V = FieldView;

    open spec fn view(&self) -> FieldView {
        match self {
            Field::Nothing => FieldView::Nothing,
            Field::Integer(i) => FieldView::Integer(*i),
            Field::Float(bits) => FieldView::Float(*bits),
            Field::Text(bytes) => FieldView::Text(bytes@),
            Field::Boolean(b) => FieldView::Boolean(*b),
            Field::BigInt(i) => FieldView::BigInt(*i),
            Field::VarChar(bytes) => FieldView::VarChar(bytes@),
        }
    }
}

/// The magnitude part of an IEEE number of 32 bits: all bits but the sign.
pub open spec fn magnitude(bits: u32) -> int {
    bits as int % 0x8000_0000
}

/// Whether the bits are those of a number: the magnitude is at most that of infinity.
pub open spec fn is_number(bits: u32) -> bool {
    magnitude(bits) <= 0x7f80_0000
}

/// Equality of IEEE numbers: what is no number equals nothing, the two zeros are equal, and
/// otherwise the bits decide.
pub open spec fn float_eq(a: u32, b: u32) -> bool {
    is_number(a) && is_number(b) && (a == b || (magnitude(a) == 0 && magnitude(b) == 0))
}

/// Equality of field values: same type and equal contents.
pub open spec fn field_eq(a: FieldView, b: FieldView) -> bool {
    match (a, b) {
        (FieldView::Float(x), FieldView::Float(y)) => float_eq(x, y),
        _ => a == b,
    }
}

fn same_float(a: u32, b: u32) -> (same: bool)
    ensures
        same == float_eq(a, b),
{
    let x: u32 = a % 0x8000_0000;
    let y: u32 = b % 0x8000_0000;
    x <= 0x7f80_0000 && y <= 0x7f80_0000 && (a == b || (x == 0 && y == 0))
}

impl Field {
    /// Whether two field values are equal, as [`field_eq`] says.
    pub fn same(&self, other: &Field) -> (same: bool)
        ensures
            same == field_eq(self@, other@),
    {
        match (self, other) {
            (Field::Nothing, Field::Nothing) => true,
            (Field::Integer(x), Field::Integer(y)) => *x == *y,
            (Field::Float(x), Field::Float(y)) => same_float(*x, *y),
            (Field::Text(x), Field::Text(y)) => path::same_bytes(x.as_slice(), y.as_slice()),
            (Field::Boolean(x), Field::Boolean(y)) => *x == *y,
            (Field::BigInt(x), Field::BigInt(y)) => *x == *y,
            (Field::VarChar(x), Field::VarChar(y)) => path::same_bytes(x.as_slice(), y.as_slice()),
            _ => false,
        }
    }

    /// The characters of a text, and nothing for a value of another type. A zero byte ends a text.
    pub fn text(&self) -> (r: Option<String>)
        ensures
            match self@ {
                FieldView::Text(bytes) => r matches Some(text) && file::reads_as(
                    file::text_at(bytes, 0),
                    text@,
                ),
                FieldView::VarChar(bytes) => r matches Some(text) && file::reads_as(
                    file::text_at(bytes, 0),
                    text@,
                ),
                _ => r is None,
            },
    {
        match self {
            Field::Text(bytes) => Some(latin1_decode(bytes.as_slice())),
            Field::VarChar(bytes) => Some(latin1_decode(bytes.as_slice())),
            _ => None,
        }
    }
}

/// Calls `latin1str::Latin1Str::from_bytes_until_nul` and `decode` on what it returns: the bytes
/// before the first zero, decoded from Latin-1. ASCII bytes alone stay as they are, one character
/// for each byte.
#[verifier::external_body]
pub(crate) fn latin1_decode(bytes: &[u8]) -> (text: String)
    ensures
        text@ == file::latin1_decoded(file::text_at(bytes@, 0)),
        file::reads_as(file::text_at(bytes@, 0), text@),
{
    latin1str::Latin1Str::from_bytes_until_nul(bytes).decode().into_owned()
}

/// Whether `s` is one or more decimal digits.
pub open spec fn is_decimal(s: Seq<char>) -> bool {
    s.len() > 0 && forall|i: int| 0 <= i < s.len() ==> '0' <= #[trigger] s[i] <= '9'
}

/// The number that decimal digits stand for.
pub open spec fn decimal_value(s: Seq<char>) -> nat
    decreases s.len(),
{
    if s.len() == 0 {
        0
    } else {
        decimal_value(s.drop_last()) * 10 + (s.last() as nat - '0' as nat) as nat
    }
}

/// The whole number that `s` writes in decimal, with or without a sign; none where it is anything
/// else.
pub open spec fn written_integer(s: Seq<char>) -> Option<int> {
    if is_decimal(s) {
        Some(decimal_value(s) as int)
    } else if s.len() > 0 && s[0] == '+' && is_decimal(s.drop_first()) {
        Some(decimal_value(s.drop_first()) as int)
    } else if s.len() > 0 && s[0] == '-' && is_decimal(s.drop_first()) {
        Some(-(decimal_value(s.drop_first()) as int))
    } else {
        None
    }
}

/// The number that `s` writes, where it fits in 32 bits with a sign.
pub open spec fn written_i32(s: Seq<char>) -> Option<i32> {
    match written_integer(s) {
        Some(i) if i32::MIN <= i <= i32::MAX => Some(i as i32),
        _ => None,
    }
}

/// The number that `s` writes, where it fits in 64 bits with a sign.
pub open spec fn written_i64(s: Seq<char>) -> Option<i64> {
    match written_integer(s) {
        Some(i) if i64::MIN <= i <= i64::MAX => Some(i as i64),
        _ => None,
    }
}

/// Calls `str::parse` for `i32`: the number that `v` writes in decimal, after an optional sign,
/// and nothing where `v` holds anything else or the number does not fit.
#[verifier::external_body]
fn parse_i32(v: &str) -> (r: Option<i32>)
    ensures
        r == written_i32(v@),
{
    v.parse().ok()
}

/// Calls `str::parse` for `i64`: the number that `v` writes in decimal, after an optional sign,
/// and nothing where `v` holds anything else or the number does not fit.
#[verifier::external_body]
fn parse_i64(v: &str) -> (r: Option<i64>)
    ensures
        r == written_i64(v@),
{
    v.parse().ok()
}

/// The bytes that `latin1str::Latin1String::encode` gives for a text.
pub uninterp spec fn latin1_encoded(text: Seq<char>) -> Seq<u8>;

/// Calls `latin1str::Latin1String::encode`: the text in the Windows-1252 encoding. Text of ASCII
/// characters alone stays as it is, one byte for each character.
#[verifier::external_body]
fn latin1_encode(v: &str) -> (bytes: Vec<u8>)
    ensures
        bytes@ == latin1_encoded(v@),
        vstd::utf8::is_ascii_chars(v@) ==> bytes@ == Seq::new(v@.len(), |i: int| v@[i] as u8),
{
    latin1str::Latin1String::encode(v).as_bytes().to_vec()
}

/// A key that is no value of the column's type.
#[derive(Clone, Copy, Debug, PartialEq, Eq, Structural)]
pub struct ParseError;

/// The values that keys of a path stand for.
pub struct FastContext;

/// The truth value that `v` writes, if any.
pub open spec fn written_bool(v: Seq<char>) -> Option<bool> {
    if v == "true"@ || v == "1"@ || v == "TRUE"@ {
        Some(true)
    } else if v == "false"@ || v == "0"@ || v == "FALSE"@ {
        Some(false)
    } else {
        None
    }
}

/// The value of type `ty` that `v` writes, if any, where `float` is what `v` is as an IEEE number.
pub open spec fn parsed(v: Seq<char>, ty: ValueType, float: Option<u32>) -> Option<FieldView> {
    match ty {
        ValueType::Nothing => Some(FieldView::Nothing),
        ValueType::Integer => match written_i32(v) {
            Some(i) => Some(FieldView::Integer(i)),
            None => None,
        },
        ValueType::Float => match float {
            Some(bits) => Some(FieldView::Float(bits)),
            None => None,
        },
        ValueType::Text => Some(FieldView::Text(latin1_encoded(v))),
        ValueType::Boolean => match written_bool(v) {
            Some(b) => Some(FieldView::Boolean(b)),
            None => None,
        },
        ValueType::BigInt => match written_i64(v) {
            Some(i) => Some(FieldView::BigInt(i)),
            None => None,
        },
        ValueType::VarChar => None,
    }
}

impl FastContext {
    /// Reads `v` as a value of type `ty`.
    ///
    /// `float` holds the bits of `v` read as a 32-bit IEEE number, or nothing where `v` is none; it
    /// is looked at for that type alone. A text that holds XML cannot be a key.
    pub fn parse_as(v: &str, ty: ValueType, float: Option<u32>) -> (r: Result<Field, ParseError>)
        ensures
            r is Ok <==> parsed(v@, ty, float) is Some,
            r matches Ok(field) ==> parsed(v@, ty, float) == Some(field@),
    {
        match ty {
            ValueType::Nothing => Ok(Field::Nothing),
            ValueType::Integer => match parse_i32(v) {
                Some(i) => Ok(Field::Integer(i)),
                None => Err(ParseError),
            },
            ValueType::Float => match float {
                Some(bits) => Ok(Field::Float(bits)),
                None => Err(ParseError),
            },
            ValueType::Text => Ok(Field::Text(latin1_encode(v))),
            ValueType::Boolean => {
                if path::same_text(v, "true") || path::same_text(v, "1") || path::same_text(
                    v,
                    "TRUE",
                ) {
                    Ok(Field::Boolean(true))
                } else if path::same_text(v, "false") || path::same_text(v, "0")
                    || path::same_text(v, "FALSE") {
                    Ok(Field::Boolean(false))
                } else {
                    Err(ParseError)
                }
            },
            ValueType::BigInt => match parse_i64(v) {
                Some(i) => Ok(Field::BigInt(i)),
                None => Err(ParseError),
            },
            ValueType::VarChar => Err(ParseError),
        }
    }
}

/// The hash that `assembly_fdb::FdbHash` gives for the bytes of a Latin-1 text.
pub uninterp spec fn text_hash(bytes: Seq<u8>) -> u32;

/// Calls `assembly_fdb::FdbHash::hash` on a text, which encodes it as Latin-1 and hashes the bytes.
#[verifier::external_body]
fn hash_text(v: &str) -> (hash: u32)
    ensures
        hash == text_hash(latin1_encoded(v@)),
{
    assembly_fdb::FdbHash::hash(v)
}

/// The hash that picks the bucket of a row by its first field: for numbers the lowest 32 bits.
pub open spec fn field_hash(field: FieldView) -> u32 {
    match field {
        FieldView::Nothing => 0,
        FieldView::Integer(i) => (i as int % 0x1_0000_0000) as u32,
        FieldView::Float(bits) => bits,
        FieldView::Text(bytes) => text_hash(bytes),
        FieldView::Boolean(b) => if b {
            1
        } else {
            0
        },
        FieldView::BigInt(i) => (i as int % 0x1_0000_0000) as u32,
        FieldView::VarChar(bytes) => text_hash(bytes),
    }
}

/// The hash of the key `field` that was read from `v`.
pub(crate) fn key_hash(v: &str, ty: ValueType, field: &Field) -> (hash: u32)
    requires
        exists|float: Option<u32>| parsed(v@, ty, float) == Some(field@),
    ensures
        hash == field_hash(field@),
{
    match field {
        Field::Nothing => 0,
        Field::Integer(i) => {
            let n: i32 = *i;
            let hash: u32 = n as u32;
            assert(hash == (n as int % 0x1_0000_0000) as u32) by {
                assert(n >= 0 ==> hash == n) by (bit_vector)
                    requires hash == n as u32;
                assert(n < 0 ==> hash == n + 0x1_0000_0000) by (bit_vector)
                    requires hash == n as u32;
            }
            hash
        },
        Field::Float(bits) => *bits,
        Field::Text(_) => hash_text(v),
        Field::Boolean(b) => if *b {
            1
        } else {
            0
        },
        Field::BigInt(i) => {
            let n: i64 = *i;
            let hash: u32 = n as u32;
            assert(hash == (n as int % 0x1_0000_0000) as u32) by {
                assert(hash as i64 == n & 0xffff_ffff) by (bit_vector)
                    requires hash == n as u32;
                assert(n & 0xffff_ffff == n % 0x1_0000_0000) by (bit_vector);
            }
            hash
        },
        Field::VarChar(_) => hash_text(v),
    }
}

} // verus!
