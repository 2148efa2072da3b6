//! Laws of percent escapes and JSON texts.
use vstd::prelude::*;
use vstd::utf8;

use crate::json;
use crate::laws::values;
use crate::path;
use crate::percent;
use crate::reply;
use crate::response;
use crate::response::{HeaderName, Response};
use crate::value;

verus! {

// ---- Percent escapes ----
/// The hexadecimal digit for a number below sixteen, in upper case.
pub open spec fn upper_hex(n: int) -> u8 {
    (if n < 10 {
        0x30 + n
    } else {
        0x41 + (n - 10)
    }) as u8
}

/// `bytes` with each byte that `which` picks written as a percent escape.
pub open spec fn percent_escaped(bytes: Seq<u8>, which: spec_fn(u8) -> bool) -> Seq<u8>
    decreases bytes.len(),
{
    if bytes.len() == 0 {
        seq![]
    } else if which(bytes[0]) {
        seq![0x25u8, upper_hex(bytes[0] as int / 16), upper_hex(bytes[0] as int % 16)]
            + percent_escaped(bytes.drop_first(), which)
    } else {
        seq![bytes[0]] + percent_escaped(bytes.drop_first(), which)
    }
}

/// Whatever bytes are escaped, decoding gives them back, as long as the percent sign itself is
/// among those that are.
pub proof fn decode_undoes_escape(bytes: Seq<u8>, which: spec_fn(u8) -> bool)
    requires
        which(0x25),
    ensures
        percent::percent_decoded(percent_escaped(bytes, which)) == bytes,
    decreases bytes.len(),
{
    if bytes.len() > 0 {
        let b = bytes[0];
        let rest = percent_escaped(bytes.drop_first(), which);
        let all = percent_escaped(bytes, which);
        decode_undoes_escape(bytes.drop_first(), which);
        if which(b) {
            let high = b as int / 16;
            let low = b as int % 16;
            assert(percent::hex_value(upper_hex(high)) == Some(high));
            assert(percent::hex_value(upper_hex(low)) == Some(low));
            assert(all.skip(3) =~= rest);
            assert(percent::percent_decoded(all) =~= seq![b] + percent::percent_decoded(rest));
        } else {
            assert(all.skip(1) =~= rest);
        }
        assert(seq![b] + bytes.drop_first() =~= bytes);
    }
}

/// A text that came escaped is read as it was: the escaped bytes of a text decode to that text.
pub proof fn escaped_text_is_read(text: Seq<char>, which: spec_fn(u8) -> bool)
    requires
        which(0x25),
    ensures
        ({
            let decoded = percent::percent_decoded(
                percent_escaped(utf8::encode_utf8(text), which),
            );
            utf8::valid_utf8(decoded) && utf8::decode_utf8(decoded) == text
        }),
{
    decode_undoes_escape(utf8::encode_utf8(text), which);
    utf8::encode_utf8_valid_utf8(text);
    utf8::encode_utf8_decode_utf8(text);
}

proof fn lemma_no_percent_scalar(c: char)
    requires
        c != '%',
    ensures
        forall|i: int|
            0 <= i < utf8::encode_scalar(c as u32).len() ==> #[trigger] utf8::encode_scalar(
                c as u32,
            )[i] != 0x25,
{
    let v: u32 = c as u32;
    assert(v <= 0x7f && v != 0x25 ==> (v & 0x7f) as u8 != 0x25u8) by (bit_vector);
    assert((0xc0u8 | ((v >> 6) & 0x1f) as u8) != 0x25u8) by (bit_vector);
    assert((0xe0u8 | ((v >> 12) & 0x0f) as u8) != 0x25u8) by (bit_vector);
    assert((0xf0u8 | ((v >> 18) & 0x7) as u8) != 0x25u8) by (bit_vector);
    assert((0x80u8 | (v & 0x3f) as u8) != 0x25u8) by (bit_vector);
    assert((0x80u8 | ((v >> 6) & 0x3f) as u8) != 0x25u8) by (bit_vector);
    assert((0x80u8 | ((v >> 12) & 0x3f) as u8) != 0x25u8) by (bit_vector);
}

proof fn lemma_no_percent(text: Seq<char>)
    requires
        !text.contains('%'),
    ensures
        !utf8::encode_utf8(text).contains(0x25),
    decreases text.len(),
{
    if text.len() > 0 {
        let rest = text.drop_first();
        assert forall|i: int| 0 <= i < rest.len() implies rest[i] != '%' by {
            assert(text[i + 1] != '%');
        }
        lemma_no_percent(rest);
        assert(text[0] != '%');
        lemma_no_percent_scalar(text[0]);
        let head = utf8::encode_scalar(text[0] as u32);
        let tail = utf8::encode_utf8(rest);
        assert forall|i: int| 0 <= i < utf8::encode_utf8(text).len() implies utf8::encode_utf8(
            text,
        )[i] != 0x25 by {
            if i < head.len() {
                assert(utf8::encode_utf8(text)[i] == head[i]);
            } else {
                assert(utf8::encode_utf8(text)[i] == tail[i - head.len()]);
            }
        }
    }
}

proof fn lemma_nothing_to_decode(bytes: Seq<u8>)
    requires
        !bytes.contains(0x25),
    ensures
        percent::percent_decoded(bytes) == bytes,
    decreases bytes.len(),
{
    if bytes.len() > 0 {
        assert(bytes[0] != 0x25);
        assert forall|i: int| 0 <= i < bytes.skip(1).len() implies bytes.skip(1)[i] != 0x25 by {
            assert(bytes[i + 1] != 0x25);
        }
        lemma_nothing_to_decode(bytes.skip(1));
        assert(seq![bytes[0]] + bytes.skip(1) =~= bytes);
    }
}

/// A text without a percent sign decodes to itself.
pub proof fn plain_text_is_kept(text: Seq<char>)
    requires
        !text.contains('%'),
    ensures
        ({
            let decoded = percent::percent_decoded(utf8::encode_utf8(text));
            utf8::valid_utf8(decoded) && utf8::decode_utf8(decoded) == text
        }),
{
    lemma_no_percent(text);
    lemma_nothing_to_decode(utf8::encode_utf8(text));
    utf8::encode_utf8_valid_utf8(text);
    utf8::encode_utf8_decode_utf8(text);
}

// ---- JSON texts ----
/// Neither a JSON string nor a JSON array of strings is ever the text `null`, so none of them is
/// taken for what is not there.
pub proof fn never_null(text: Seq<char>, texts: Seq<Seq<char>>)
    ensures
        json::quoted(text) != "null"@,
        json::quoted_list(texts) != "null"@,
{
    reveal_strlit("null");
    assert(json::quoted(text)[0] == '"');
    assert(json::quoted_list(texts)[0] == '[');
}

proof fn lemma_escaped_char(c: char)
    ensures
        json::escaped_char(c).len() > 0,
        json::escaped_char(c)[0] != '"',
        json::escaped_char(c)[0] == '\\' || json::escaped_char(c) == seq![c],
{
}

/// Where two escaped texts agree, so do their first characters and what follows them.
proof fn lemma_first_escape(a: char, b: char, x: Seq<char>, y: Seq<char>)
    requires
        json::escaped_char(a) + x == json::escaped_char(b) + y,
    ensures
        a == b,
        x == y,
{
    let ea = json::escaped_char(a);
    let eb = json::escaped_char(b);
    let s = ea + x;
    let t = eb + y;
    assert(s[0] == ea[0] && t[0] == eb[0]);
    if ea.len() >= 2 && eb.len() >= 2 {
        assert(s[1] == ea[1] && t[1] == eb[1]);
        if ea.len() == 6 && eb.len() == 6 {
            assert(s[4] == ea[4] && t[4] == eb[4]);
            assert(s[5] == ea[5] && t[5] == eb[5]);
            assert(a as nat / 16 < 2 && b as nat / 16 < 2);
            assert(json::hex_digit(a as nat / 16) == json::hex_digit(b as nat / 16));
            assert(json::hex_digit(a as nat % 16) == json::hex_digit(b as nat % 16));
            lemma_hex_digit(a as nat % 16, b as nat % 16);
            lemma_hex_digit(a as nat / 16, b as nat / 16);
        }
    }
    assert(a == b);
    assert(x =~= s.skip(ea.len() as int));
    assert(y =~= t.skip(eb.len() as int));
}

proof fn lemma_hex_digit(m: nat, n: nat)
    requires
        m < 16,
        n < 16,
        json::hex_digit(m) == json::hex_digit(n),
    ensures
        m == n,
{
}

proof fn lemma_escaped(a: Seq<char>, b: Seq<char>)
    requires
        json::escaped(a) == json::escaped(b),
    ensures
        a == b,
    decreases a.len(),
{
    if a.len() > 0 {
        lemma_escaped_char(a[0]);
    }
    if b.len() > 0 {
        lemma_escaped_char(b[0]);
    }
    if a.len() > 0 && b.len() > 0 {
        lemma_first_escape(
            a[0],
            b[0],
            json::escaped(a.drop_first()),
            json::escaped(b.drop_first()),
        );
        lemma_escaped(a.drop_first(), b.drop_first());
        assert(a =~= seq![a[0]] + a.drop_first());
        assert(b =~= seq![b[0]] + b.drop_first());
    } else {
        assert(a.len() > 0 ==> json::escaped(a).len() > 0);
        assert(b.len() > 0 ==> json::escaped(b).len() > 0);
        assert(a =~= b);
    }
}

/// Different texts, such as messages of errors, are different JSON strings.
pub proof fn quoted_tells_apart(a: Seq<char>, b: Seq<char>)
    requires
        json::quoted(a) == json::quoted(b),
    ensures
        a == b,
{
    let n = json::escaped(a).len() as int;
    let m = json::escaped(b).len() as int;
    assert(json::quoted(a).len() == n + 2 && json::quoted(b).len() == m + 2);
    assert(json::escaped(a) =~= json::quoted(a).subrange(1, n + 1));
    assert(json::escaped(b) =~= json::quoted(b).subrange(1, n + 1));
    lemma_escaped(a, b);
}

// ---- Percent escapes, byte by byte ----
/// The value of two hexadecimal digits in either case, or nothing where one is no such digit.
pub open spec fn two_digits(high: u8, low: u8) -> Option<int> {
    let of = |b: u8|
        if 48 <= b <= 57 {
            b - 48
        } else if 65 <= b <= 70 {
            b - 55
        } else if 97 <= b <= 102 {
            b - 87
        } else {
            -1
        };
    if of(high) >= 0 && of(low) >= 0 {
        Some(16 * of(high) + of(low))
    } else {
        None
    }
}

/// A percent sign with two hexadecimal digits behind it, in either case, becomes one byte, and
/// decoding goes on behind them. Every other byte stays, and decoding goes on behind it.
pub proof fn decoding(b: u8, high: u8, low: u8, rest: Seq<u8>)
    ensures
        percent::percent_decoded(Seq::<u8>::empty()) == Seq::<u8>::empty(),
        two_digits(high, low) matches Some(n) ==> percent::percent_decoded(
            seq![37u8, high, low] + rest,
        ) == seq![n as u8] + percent::percent_decoded(rest),
        two_digits(high, low) is None ==> percent::percent_decoded(seq![37u8, high, low] + rest)
            == seq![37u8] + percent::percent_decoded(seq![high, low] + rest),
        b != 37 ==> percent::percent_decoded(seq![b] + rest) == seq![b] + percent::percent_decoded(
            rest,
        ),
        percent::percent_decoded(seq![37u8]) == seq![37u8],
        high != 37 ==> percent::percent_decoded(seq![37u8, high]) == seq![37u8, high],
{
    let all = seq![37u8, high, low] + rest;
    assert(percent::percent_decoded(Seq::<u8>::empty()) =~= Seq::<u8>::empty());
    assert(all.skip(3) =~= rest);
    assert(all.skip(1) =~= seq![high, low] + rest);
    assert((seq![b] + rest).skip(1) =~= rest);
    let one = seq![37u8];
    let two = seq![37u8, high];
    assert(one.skip(1) =~= Seq::<u8>::empty());
    assert(percent::percent_decoded(one) =~= one);
    assert(two.skip(1) =~= seq![high]);
    assert(seq![high].skip(1) =~= Seq::<u8>::empty());
    assert(percent::percent_decoded(seq![high]) =~= seq![high]);
    assert(percent::percent_decoded(two) =~= two);
}

// ---- Numbers and strings ----
/// The number that decimal digits stand for is read from the front: what comes before the last digit
/// counts ten times.
pub proof fn decimals(n: nat)
    ensures
        value::is_decimal(json::decimal(n)),
        json::decimal(n).len() > 1 ==> json::decimal(n)[0] != '0',
        json::decimal(n)[json::decimal(n).len() - 1] as nat == 48 + n % 10,
        n < 10 ==> json::decimal(n).len() == 1,
        n >= 10 ==> json::decimal(n).drop_last() == json::decimal(n / 10),
    decreases n,
{
    let s = json::decimal(n);
    if n >= 10 {
        decimals(n / 10);
        let before = json::decimal(n / 10);
        assert(s.drop_last() =~= before);
        assert(s[0] == before[0]);
        if before.len() == 1 {
            assert(n / 10 < 10) by {
                if n / 10 >= 10 {
                    decimals(n / 100);
                    assert(before.drop_last().len() == 0);
                }
            }
            assert(before[0] as nat == 48 + (n / 10) % 10);
        }
        assert forall|i: int| 0 <= i < s.len() implies '0' <= #[trigger] s[i] <= '9' by {
            assert(i < s.len() - 1 ==> s[i] == before[i]);
        }
    }
}

/// A JSON string is the text between quotation marks, where each character stands for itself but
/// for quotation marks, backslashes and control characters.
pub proof fn strings(c: char, rest: Seq<char>)
    ensures
        json::quoted(Seq::<char>::empty()) == seq!['"', '"'],
        json::quoted(seq![c] + rest) == seq!['"'] + json::escaped_char(c) + json::quoted(rest).skip(
            1,
        ),
        c as nat >= 32 && c != '"' && c != '\\' ==> json::escaped_char(c) == seq![c],
        json::escaped_char('"') == seq!['\\', '"'],
        json::escaped_char('\\') == seq!['\\', '\\'],
        json::escaped_char('\n') == seq!['\\', 'n'],
        json::escaped_char('\r') == seq!['\\', 'r'],
        json::escaped_char('\t') == seq!['\\', 't'],
        c as nat == 8 ==> json::escaped_char(c) == seq!['\\', 'b'],
        c as nat == 12 ==> json::escaped_char(c) == seq!['\\', 'f'],
        (c as nat) < 32 && !(8 <= c as nat <= 13) ==> json::escaped_char(c).len() == 6
            && json::escaped_char(c).take(4) == seq!['\\', 'u', '0', '0'] && json::escaped_char(
            c,
        )[4] as nat == 48 + c as nat / 16 && json::escaped_char(c)[5] as nat == (if c as nat % 16
            < 10 {
            48 + c as nat % 16
        } else {
            87 + c as nat % 16
        }),
{
    let none = Seq::<char>::empty();
    assert(json::escaped(none) =~= none);
    assert(json::quoted(none) =~= seq!['"', '"']);
    assert((seq![c] + rest).drop_first() =~= rest);
    assert(json::quoted(rest).skip(1) =~= json::escaped(rest) + seq!['"']);
    assert(json::quoted(seq![c] + rest) =~= seq!['"'] + json::escaped_char(c) + json::quoted(
        rest,
    ).skip(1));
    if (c as nat) < 32 && !(8 <= c as nat <= 13) {
        assert(json::escaped_char(c).take(4) =~= seq!['\\', 'u', '0', '0']);
    }
}

/// A JSON array holds the texts as JSON strings, all of them in order, with commas between them.
pub proof fn arrays(text: Seq<char>, rest: Seq<Seq<char>>)
    ensures
        json::quoted_list(Seq::<Seq<char>>::empty()) == seq!['[', ']'],
        json::quoted_list(seq![text]) == seq!['['] + json::quoted(text) + seq![']'],
        rest.len() > 0 ==> json::quoted_list(seq![text] + rest) == seq!['['] + json::quoted(text)
            + seq![','] + json::quoted_list(rest).skip(1),
{
    let q = |s: Seq<char>| json::quoted(s);
    let none = Seq::<Seq<char>>::empty();
    assert(none.map_values(q) =~= none);
    assert(json::quoted_list(none) =~= seq!['[', ']']);
    assert(seq![text].map_values(q) =~= seq![json::quoted(text)]);
    assert(json::quoted_list(seq![text]) =~= seq!['['] + json::quoted(text) + seq![']']);
    if rest.len() > 0 {
        let all = (seq![text] + rest).map_values(q);
        let tail = rest.map_values(q);
        assert(all =~= seq![json::quoted(text)] + tail);
        assert(all.drop_first() =~= tail);
        assert(json::quoted_list(rest).skip(1) =~= path::join(tail, ',') + seq![']']);
        assert(json::quoted_list(seq![text] + rest) =~= seq!['['] + json::quoted(text) + seq![',']
            + json::quoted_list(rest).skip(1));
    }
}

// ---- Responses ----
/// The status of a JSON response is 404 if and only if its body is the text `null`, and it is 200
/// for every other body.
pub proof fn statuses(r: Response, body: Seq<char>)
    requires
        response::is_json(r, response::json_status(body), body),
    ensures
        r.body@ == body,
        r.status == 404 <==> r.body@ == "null"@,
        r.status == 200 <==> r.body@ != "null"@,
{
}

/// A response has two headers: the number of bytes of its body, and the type of the body.
pub proof fn responses_describe_their_body(r: Response, status: u16, body: Seq<char>)
    requires
        response::is_json(r, status, body),
    ensures
        r.status == status,
        r.body@ == body,
        r.headers@.len() == 2,
        r.headers@[0].0 == HeaderName::ContentLength,
        value::is_decimal(r.headers@[0].1@),
        value::written_integer(r.headers@[0].1@) == Some(utf8::encode_utf8(body).len() as int),
        r.headers@[1].0 == HeaderName::ContentType,
        r.headers@[1].1@ == "application/json; charset=utf-8"@,
{
    let view = response::headers_view(r.headers@);
    assert(view.len() == r.headers@.len());
    assert(view[0] == (r.headers@[0].0, r.headers@[0].1@));
    assert(view[1] == (r.headers@[1].0, r.headers@[1].1@));
    values::lemma_decimal(utf8::encode_utf8(body).len());
}

/// The numbers of the statuses.
pub proof fn status_numbers()
    ensures
        reply::OK == 200,
        reply::NOT_FOUND == 404,
        reply::INTERNAL_SERVER_ERROR == 500,
{
}

} // verus!
