use paradox_api::value::{FastContext, Field, ParseError, ValueType};

fn bits(v: &str) -> Option<u32> {
    v.parse::<f32>().ok().map(f32::to_bits)
}

fn parse(v: &str, ty: ValueType) -> Option<Field> {
    match FastContext::parse_as(v, ty, bits(v)) {
        Ok(field) => Some(field),
        Err(ParseError) => None,
    }
}

#[test]
fn integers_are_read() {
    assert!(matches!(parse("0", ValueType::Integer), Some(Field::Integer(0))));
    assert!(matches!(parse("+007", ValueType::Integer), Some(Field::Integer(7))));
    assert!(matches!(parse("-12", ValueType::Integer), Some(Field::Integer(-12))));
    assert!(matches!(parse("2147483647", ValueType::Integer), Some(Field::Integer(i32::MAX))));
    assert!(matches!(parse("-2147483648", ValueType::Integer), Some(Field::Integer(i32::MIN))));
    for v in ["", "+", "-", " 1", "1 ", "1.0", "0x1", "2147483648", "-2147483649", "--1", "٣"] {
        assert!(parse(v, ValueType::Integer).is_none());
    }
}

#[test]
fn long_integers_are_read() {
    assert!(matches!(parse("2147483648", ValueType::BigInt), Some(Field::BigInt(2147483648))));
    assert!(matches!(
        parse("-9223372036854775808", ValueType::BigInt),
        Some(Field::BigInt(i64::MIN))
    ));
    assert!(matches!(
        parse("9223372036854775807", ValueType::BigInt),
        Some(Field::BigInt(i64::MAX))
    ));
    assert!(parse("9223372036854775808", ValueType::BigInt).is_none());
    assert!(parse("one", ValueType::BigInt).is_none());
}

#[test]
fn every_written_number_is_read() {
    for i in [i32::MIN, -4000, -1, 0, 9, 10, 99, 100, 123456, i32::MAX] {
        let v = format!("{}", i);
        assert!(matches!(parse(&v, ValueType::Integer), Some(Field::Integer(j)) if j == i));
        assert!(matches!(parse(&v, ValueType::BigInt), Some(Field::BigInt(j)) if j == i as i64));
    }
}

#[test]
fn truth_values_are_read() {
    for v in ["true", "1", "TRUE"] {
        assert!(matches!(parse(v, ValueType::Boolean), Some(Field::Boolean(true))));
    }
    for v in ["false", "0", "FALSE"] {
        assert!(matches!(parse(v, ValueType::Boolean), Some(Field::Boolean(false))));
    }
    for v in ["", "True", "yes", "01"] {
        assert!(parse(v, ValueType::Boolean).is_none());
    }
}

#[test]
fn floats_are_taken_as_they_were_read() {
    assert!(matches!(
        parse("1.5", ValueType::Float),
        Some(Field::Float(b)) if b == 1.5f32.to_bits()
    ));
    assert!(parse("one", ValueType::Float).is_none());
    assert!(matches!(
        FastContext::parse_as("anything", ValueType::Float, Some(3)),
        Ok(Field::Float(3))
    ));
}

#[test]
fn texts_are_encoded() {
    assert!(matches!(parse("abc", ValueType::Text), Some(Field::Text(b)) if b == b"abc"));
    assert!(matches!(parse("", ValueType::Text), Some(Field::Text(b)) if b.is_empty()));
    assert!(matches!(parse("ä€", ValueType::Text), Some(Field::Text(b)) if b == [0xe4, 0x80]));
}

#[test]
fn other_types_have_no_texts() {
    assert!(matches!(parse("anything", ValueType::Nothing), Some(Field::Nothing)));
    assert!(parse("<a/>", ValueType::VarChar).is_none());
    assert!(matches!(
        FastContext::parse_as("<a/>", ValueType::VarChar, None),
        Err(ParseError)
    ));
}

#[test]
fn floats_are_equal_as_numbers() {
    let mut all = vec![
        0.0f32,
        -0.0,
        1.0,
        -1.0,
        f32::MIN_POSITIVE,
        f32::MAX,
        f32::INFINITY,
        f32::NEG_INFINITY,
        f32::NAN,
        -f32::NAN,
    ];
    all.push(f32::from_bits(1));
    all.push(f32::from_bits(0x7f80_0001));
    all.push(f32::from_bits(0xffff_ffff));
    for x in &all {
        for y in &all {
            let same = Field::Float(x.to_bits()).same(&Field::Float(y.to_bits()));
            assert_eq!(same, x == y);
        }
    }
}

#[test]
fn fields_are_equal_within_their_type() {
    let all = || {
        vec![
            Field::Nothing,
            Field::Integer(1),
            Field::Integer(2),
            Field::Float(1),
            Field::Text(b"1".to_vec()),
            Field::Text(b"12".to_vec()),
            Field::Boolean(true),
            Field::Boolean(false),
            Field::BigInt(1),
            Field::BigInt(2),
            Field::VarChar(b"1".to_vec()),
            Field::VarChar(b"2".to_vec()),
        ]
    };
    for (i, x) in all().iter().enumerate() {
        for (j, y) in all().iter().enumerate() {
            assert_eq!(x.same(y), i == j);
            assert_eq!(x.same(y), y.same(x));
        }
    }
}

#[test]
fn texts_of_fields_are_decoded() {
    let text = |bytes: &[u8]| Field::Text(bytes.to_vec()).text();
    assert_eq!(text(b"abc").as_deref(), Some("abc"));
    assert_eq!(text(b"").as_deref(), Some(""));
    assert_eq!(text(b"\xe4\x80").as_deref(), Some("ä€"));
    assert_eq!(text(b"ab\0c").as_deref(), Some("ab"));
    assert_eq!(Field::VarChar(b"<\xfc/>".to_vec()).text().as_deref(), Some("<ü/>"));
    assert_eq!(Field::Integer(1).text(), None);
    assert_eq!(Field::Nothing.text(), None);
}
