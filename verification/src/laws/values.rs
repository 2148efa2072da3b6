//! Laws of field values and keys.
use vstd::prelude::*;

use crate::json;
use crate::tables;
use crate::value;
use crate::value::{Field, FieldView, ValueType};

verus! {

/// Whether a value is one of the two zeros among IEEE numbers.
pub open spec fn is_float_zero(a: FieldView) -> bool {
    a matches FieldView::Float(bits) && value::magnitude(bits) == 0
}

/// Equality of field values goes both ways and along chains. Every value equals itself, but for
/// the IEEE values that are no numbers.
pub proof fn equality(a: FieldView, b: FieldView, c: FieldView)
    ensures
        value::field_eq(a, b) == value::field_eq(b, a),
        value::field_eq(a, b) && value::field_eq(b, c) ==> value::field_eq(a, c),
        value::field_eq(a, a) <==> (a matches FieldView::Float(bits) ==> value::is_number(bits)),
{
}

/// Equal values have equal hashes, but for the two zeros among IEEE numbers, which are equal and
/// have different ones.
pub proof fn equal_values_hash_alike(a: FieldView, b: FieldView)
    requires
        value::field_eq(a, b),
        !is_float_zero(a),
    ensures
        value::field_hash(a) == value::field_hash(b),
{
}

/// A whole number in decimal, with a minus sign where it is below zero.
pub open spec fn integer_text(i: int) -> Seq<char> {
    if i < 0 {
        seq!['-'] + json::decimal((-i) as nat)
    } else {
        json::decimal(i as nat)
    }
}

pub(crate) proof fn lemma_decimal(n: nat)
    ensures
        value::is_decimal(json::decimal(n)),
        value::decimal_value(json::decimal(n)) == n,
    decreases n,
{
    let s = json::decimal(n);
    if n < 10 {
        assert(s.drop_last() =~= Seq::<char>::empty());
        assert(s.last() as nat == '0' as nat + n);
        assert(value::decimal_value(s.drop_last()) == 0);
    } else {
        lemma_decimal(n / 10);
        assert(s.drop_last() =~= json::decimal(n / 10));
        assert(s.last() as nat == '0' as nat + n % 10);
        assert forall|i: int| 0 <= i < s.len() implies '0' <= #[trigger] s[i] <= '9' by {
            assert(i < s.len() - 1 ==> s[i] == json::decimal(n / 10)[i]);
        }
    }
}

/// Every number that a key column can hold can be asked for: written in decimal, it is read as
/// that number.
pub proof fn written_numbers_are_read(i: int, float: Option<u32>)
    ensures
        i32::MIN <= i <= i32::MAX ==> value::parsed(integer_text(i), ValueType::Integer, float)
            == Some(FieldView::Integer(i as i32)),
        i64::MIN <= i <= i64::MAX ==> value::parsed(integer_text(i), ValueType::BigInt, float)
            == Some(FieldView::BigInt(i as i64)),
{
    let s = integer_text(i);
    if i < 0 {
        lemma_decimal((-i) as nat);
        assert(s.drop_first() =~= json::decimal((-i) as nat));
        assert(s[0] == '-');
    } else {
        lemma_decimal(i as nat);
    }
    assert(value::written_integer(s) == Some(i));
}

/// The type of the column decides the type of the key: what is read has that type.
pub proof fn keys_have_the_type(v: Seq<char>, ty: ValueType, float: Option<u32>)
    ensures
        value::parsed(v, ty, float) matches Some(gate) ==> match gate {
            FieldView::Nothing => ty == ValueType::Nothing,
            FieldView::Integer(_) => ty == ValueType::Integer,
            FieldView::Float(_) => ty == ValueType::Float,
            FieldView::Text(_) => ty == ValueType::Text,
            FieldView::Boolean(_) => ty == ValueType::Boolean,
            FieldView::BigInt(_) => ty == ValueType::BigInt,
            FieldView::VarChar(_) => ty == ValueType::VarChar,
        },
        ty == ValueType::VarChar ==> value::parsed(v, ty, float) is None,
{
}

// ---- What is equal ----
/// Values are equal where they have the same type and the same contents. IEEE numbers are equal where
/// their bits are, unless they are no numbers, and the two zeros are equal.
pub proof fn equality_is_by_contents(
    i: i32,
    j: i32,
    x: u32,
    y: u32,
    s: Seq<u8>,
    t: Seq<u8>,
    b: bool,
    c: bool,
    m: i64,
    n: i64,
)
    ensures
        value::field_eq(FieldView::Nothing, FieldView::Nothing),
        value::field_eq(FieldView::Integer(i), FieldView::Integer(j)) <==> i == j,
        value::field_eq(FieldView::Text(s), FieldView::Text(t)) <==> s == t,
        value::field_eq(FieldView::Boolean(b), FieldView::Boolean(c)) <==> b == c,
        value::field_eq(FieldView::BigInt(m), FieldView::BigInt(n)) <==> m == n,
        value::field_eq(FieldView::VarChar(s), FieldView::VarChar(t)) <==> s == t,
        0 <= x <= 0x7f80_0000 && x == y ==> value::field_eq(
            FieldView::Float(x),
            FieldView::Float(y),
        ),
        0x8000_0000 <= x <= 0xff80_0000 && x == y ==> value::field_eq(
            FieldView::Float(x),
            FieldView::Float(y),
        ),
        0x7f80_0000 < x < 0x8000_0000 || 0xff80_0000 < x ==> !value::field_eq(
            FieldView::Float(x),
            FieldView::Float(y),
        ) && !value::field_eq(FieldView::Float(y), FieldView::Float(x)),
        value::field_eq(FieldView::Float(0), FieldView::Float(0x8000_0000)),
        value::field_eq(FieldView::Float(x), FieldView::Float(y)) && x != y ==> (x == 0 && y
            == 0x8000_0000) || (y == 0 && x == 0x8000_0000),
{
}

/// Values of different types are never equal.
pub proof fn types_tell_apart(a: FieldView, b: FieldView)
    ensures
        a is Nothing != b is Nothing || a is Integer != b is Integer || a is Float != b is Float
            || a is Text != b is Text || a is Boolean != b is Boolean || a is BigInt != b is BigInt
            || a is VarChar != b is VarChar ==> !value::field_eq(a, b),
{
}

/// A field is taken for what it holds: numbers and truth values as they are, IEEE numbers by their
/// bits, texts by their bytes.
pub proof fn fields_hold_their_contents(
    i: i32,
    x: u32,
    s: Vec<u8>,
    b: bool,
    n: i64,
)
    ensures
        Field::Nothing@ == FieldView::Nothing,
        Field::Integer(i)@ == FieldView::Integer(i),
        Field::Float(x)@ == FieldView::Float(x),
        Field::Text(s)@ == FieldView::Text(s@),
        Field::Boolean(b)@ == FieldView::Boolean(b),
        Field::BigInt(n)@ == FieldView::BigInt(n),
        Field::VarChar(s)@ == FieldView::VarChar(s@),
{
}

// ---- Buckets ----
/// The bucket of a key: of a number below zero it is that of the number 2^32 above, of a truth value
/// that of one or zero, of an IEEE number that of its bits, of a text that of the text's hash.
pub proof fn buckets(i: i32, x: u32, s: Seq<u8>, b: bool, m: i64, n: int)
    requires
        n > 0,
    ensures
        0 <= i ==> tables::bucket_of(FieldView::Integer(i), n) == i as int % n,
        i < 0 ==> tables::bucket_of(FieldView::Integer(i), n) == (i + 0x1_0000_0000) % n,
        0 <= m <= 0xffff_ffff ==> tables::bucket_of(FieldView::BigInt(m), n) == m as int % n,
        tables::bucket_of(FieldView::BigInt(m), n) == (m as int % 0x1_0000_0000) % n,
        tables::bucket_of(FieldView::Float(x), n) == x as int % n,
        tables::bucket_of(FieldView::Boolean(true), n) == 1int % n,
        tables::bucket_of(FieldView::Boolean(false), n) == 0,
        tables::bucket_of(FieldView::Nothing, n) == 0,
        tables::bucket_of(FieldView::Text(s), n) == value::text_hash(s) as int % n,
        tables::bucket_of(FieldView::VarChar(s), n) == value::text_hash(s) as int % n,
        0 <= tables::bucket_of(FieldView::Integer(i), n) < n,
{
    assert(i < 0 ==> i as int % 0x1_0000_0000 == i + 0x1_0000_0000);
    assert(0 <= m <= 0xffff_ffff ==> m as int % 0x1_0000_0000 == m as int);
    assert(0int % n == 0) by (nonlinear_arith)
        requires n > 0;
}

/// Numbers of 32 bits and of 64 bits that are equal and not below zero are in the same bucket, and
/// so are numbers that differ by 2^32.
pub proof fn buckets_go_by_the_low_bits(m: i64, n: int)
    requires
        n > 0,
    ensures
        0 <= m <= i32::MAX ==> tables::bucket_of(FieldView::BigInt(m), n) == tables::bucket_of(
            FieldView::Integer(m as i32),
            n,
        ),
        m + 0x1_0000_0000 <= i64::MAX ==> tables::bucket_of(FieldView::BigInt(m), n)
            == tables::bucket_of(FieldView::BigInt((m + 0x1_0000_0000) as i64), n),
{
    assert((m + 0x1_0000_0000) % 0x1_0000_0000 == m as int % 0x1_0000_0000);
}

// ---- Reading keys ----
/// Whether `c` is a decimal digit.
pub open spec fn is_digit(c: char) -> bool {
    '0' <= c <= '9'
}

/// Whether `s` has the form of a whole number: digits, at least one, behind one sign or none.
pub open spec fn is_whole(s: Seq<char>) -> bool {
    let start: int = if s.len() > 0 && (s[0] == '+' || s[0] == '-') {
        1
    } else {
        0
    };
    start < s.len() && forall|k: int| start <= k < s.len() ==> is_digit(#[trigger] s[k])
}

/// Which texts are whole numbers, and which numbers: one digit is its own value, a further digit
/// behind makes it ten times as much and its own value more, away from zero where the sign is a
/// minus, and a sign in front negates the digits or leaves them as they are.
pub proof fn whole_numbers(s: Seq<char>, d: char)
    ensures
        value::written_integer(s) is Some <==> is_whole(s),
        is_digit(d) ==> value::written_integer(seq![d]) == Some(d as int - 48),
        is_digit(d) && is_whole(s) ==> value::written_integer(s.push(d)) == Some(
            if s[0] == '-' {
                10 * value::written_integer(s)->0 - (d as int - 48)
            } else {
                10 * value::written_integer(s)->0 + (d as int - 48)
            },
        ),
        is_whole(s) && s[0] != '+' && s[0] != '-' ==> value::written_integer(seq!['-'] + s) == Some(
            -(value::written_integer(s)->0),
        ) && value::written_integer(seq!['+'] + s) == value::written_integer(s),
{
    let one = seq![d];
    assert(one.drop_last() =~= Seq::<char>::empty());
    assert(value::decimal_value(one.drop_last()) == 0);
    if s.len() > 0 {
        let tail = s.drop_first();
        assert forall|k: int| 0 <= k < tail.len() implies tail[k] == s[k + 1] by {}
        if is_whole(s) && (s[0] == '+' || s[0] == '-') {
            assert forall|k: int| 0 <= k < tail.len() implies '0' <= #[trigger] tail[k] <= '9' by {
                assert(is_digit(s[k + 1]));
            }
            assert(value::is_decimal(tail));
        }
        if is_whole(s) && s[0] != '+' && s[0] != '-' {
            assert forall|k: int| 0 <= k < s.len() implies '0' <= #[trigger] s[k] <= '9' by {
                assert(is_digit(s[k]));
            }
            assert(value::is_decimal(s));
        }
        if value::written_integer(s) is Some {
            if value::is_decimal(s) {
                assert forall|k: int| 0 <= k < s.len() implies is_digit(#[trigger] s[k]) by {
                    assert('0' <= s[k] <= '9');
                }
                assert('0' <= s[0] <= '9');
            } else {
                assert forall|k: int| 1 <= k < s.len() implies is_digit(#[trigger] s[k]) by {
                    assert('0' <= tail[k - 1] <= '9');
                }
            }
        }
        if is_digit(d) && is_whole(s) {
            let more = s.push(d);
            assert(more.drop_first() =~= tail.push(d));
            assert(more.drop_last() =~= s);
            assert(tail.push(d).drop_last() =~= tail);
            assert(more[0] == s[0]);
            if value::is_decimal(s) {
                assert forall|k: int| 0 <= k < more.len() implies '0' <= #[trigger] more[k]
                    <= '9' by {
                    assert(k < s.len() ==> more[k] == s[k]);
                }
                assert(value::is_decimal(more));
                assert(s[0] != '-' && s[0] != '+') by {
                    assert('0' <= s[0] <= '9');
                }
            } else {
                let x = tail.push(d);
                assert forall|k: int| 0 <= k < x.len() implies '0' <= #[trigger] x[k] <= '9' by {
                    assert(k < tail.len() ==> x[k] == tail[k]);
                }
                assert(value::is_decimal(x));
                assert(!value::is_decimal(more)) by {
                    assert(!('0' <= more[0] <= '9'));
                }
            }
        }
        if is_whole(s) && s[0] != '+' && s[0] != '-' {
            let minus = seq!['-'] + s;
            let plus = seq!['+'] + s;
            assert(minus.drop_first() =~= s);
            assert(plus.drop_first() =~= s);
            assert(!value::is_decimal(minus)) by {
                assert(!('0' <= minus[0] <= '9'));
            }
            assert(!value::is_decimal(plus)) by {
                assert(!('0' <= plus[0] <= '9'));
            }
        }
    }
}

/// What a key is read as, by the type of the column. A number is read where the text is a whole
/// number that fits; a truth value where it is one of six words; an IEEE number is taken as it comes;
/// a text always; what holds XML never.
pub proof fn keys(v: Seq<char>, float: Option<u32>)
    ensures
        value::parsed(v, ValueType::Nothing, float) == Some(FieldView::Nothing),
        value::parsed(v, ValueType::Text, float) == Some(
            FieldView::Text(value::latin1_encoded(v)),
        ),
        value::parsed(v, ValueType::VarChar, float) is None,
        float is None ==> value::parsed(v, ValueType::Float, float) is None,
        float matches Some(bits) ==> value::parsed(v, ValueType::Float, float) == Some(
            FieldView::Float(bits),
        ),
        value::parsed(v, ValueType::Boolean, float) == Some(FieldView::Boolean(true)) <==> v
            == "true"@ || v == "TRUE"@ || v == "1"@,
        value::parsed(v, ValueType::Boolean, float) == Some(FieldView::Boolean(false)) <==> v
            == "false"@ || v == "FALSE"@ || v == "0"@,
        value::parsed(v, ValueType::Boolean, float) is Some ==> v == "true"@ || v == "TRUE"@ || v
            == "1"@ || v == "false"@ || v == "FALSE"@ || v == "0"@,
        value::parsed(v, ValueType::Integer, float) is Some <==> (value::written_integer(
            v,
        ) matches Some(i) && -0x8000_0000 <= i <= 0x7fff_ffff),
        value::parsed(v, ValueType::BigInt, float) is Some <==> (value::written_integer(
            v,
        ) matches Some(i) && -0x8000_0000_0000_0000 <= i <= 0x7fff_ffff_ffff_ffff),
        value::parsed(v, ValueType::Integer, float) matches Some(gate) ==> (
        gate matches FieldView::Integer(i) && value::written_integer(v) == Some(i as int)),
        value::parsed(v, ValueType::BigInt, float) matches Some(gate) ==> (
        gate matches FieldView::BigInt(i) && value::written_integer(v) == Some(i as int)),
{
    reveal_strlit("true");
    reveal_strlit("TRUE");
    reveal_strlit("1");
    reveal_strlit("false");
    reveal_strlit("FALSE");
    reveal_strlit("0");
    assert("true"@.len() != "false"@.len());
    assert("1"@[0] != "0"@[0]);
}

} // verus!
