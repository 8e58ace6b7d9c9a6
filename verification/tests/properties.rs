use resp3::errors::ParseError;
use resp3::value::{
    Array, Attribute, BigNumber, BlobError, BlobString, Boolean, Double, Null, Number, Sign,
    SimpleError, SimpleString, Value, ValueMap, ValueSet, VerbatimString,
};

#[test]
fn round_trip_simple_values() {
    let values = vec![
        Value::Null(Null::default()),
        Value::Boolean(Boolean::new(true)),
        Value::Number(Number::new(-9223372036854775808)),
        Value::Number(Number::new(9223372036854775807)),
        Value::BigNumber(BigNumber::new(true, b"123456789012345678901234567890".to_vec())),
        Value::Double(Double::inf(Sign::Plus)),
        Value::SimpleString(SimpleString::new(b"hello world".to_vec())),
        Value::SimpleError(SimpleError::new(b"ERR".to_vec(), b"broken".to_vec())),
        Value::BlobString(BlobString::new(b"raw\r\nbytes".to_vec())),
        Value::BlobError(BlobError::new(b"FATAL".to_vec(), b"dis\r\nk".to_vec())),
        Value::VerbatimString(VerbatimString::mkd(b"# heading".to_vec())),
    ];
    for v in values {
        let bytes = v.serialize();
        let (rest, parsed) = Value::parse(&bytes).unwrap();
        assert!(rest.is_empty());
        assert_eq!(parsed, v);
    }
}

#[test]
fn round_trip_nested_containers() {
    let attr = Attribute::new(vec![(
        Value::SimpleString(SimpleString::new(b"ttl".to_vec())),
        Value::Number(Number::new(3600)),
    )]);
    let inner = Value::Array(Array::new(vec![
        Value::Number(Number::new(1)),
        Value::ValueSet(ValueSet::new(vec![
            Value::Boolean(Boolean::new(false)),
            Value::Boolean(Boolean::new(true)),
        ])),
    ]));
    let v = Value::ValueMap(
        ValueMap::new(vec![
            (Value::SimpleString(SimpleString::new(b"k".to_vec())), inner),
            (
                Value::Number(Number::new(2)),
                Value::Null(Null::default()),
            ),
        ])
        .with_attr(attr),
    );
    let bytes = v.serialize();
    let (rest, parsed) = Value::parse(&bytes).unwrap();
    assert!(rest.is_empty());
    assert_eq!(parsed, v);
}

#[test]
fn serialization_deterministic_across_insertion_order() {
    let a = Value::SimpleString(SimpleString::new(b"a".to_vec()));
    let b = Value::SimpleString(SimpleString::new(b"b".to_vec()));
    let a2 = Value::SimpleString(SimpleString::new(b"a".to_vec()));
    let b2 = Value::SimpleString(SimpleString::new(b"b".to_vec()));
    let s1 = ValueSet::new(vec![a, b]);
    let s2 = ValueSet::new(vec![b2, a2]);
    assert_eq!(s1, s2);
    assert_eq!(s1.serialize(), s2.serialize());

    let m1 = ValueMap::new(vec![
        (
            Value::SimpleString(SimpleString::new(b"x".to_vec())),
            Value::Number(Number::new(1)),
        ),
        (
            Value::SimpleString(SimpleString::new(b"y".to_vec())),
            Value::Number(Number::new(2)),
        ),
    ]);
    let m2 = ValueMap::new(vec![
        (
            Value::SimpleString(SimpleString::new(b"y".to_vec())),
            Value::Number(Number::new(2)),
        ),
        (
            Value::SimpleString(SimpleString::new(b"x".to_vec())),
            Value::Number(Number::new(1)),
        ),
    ]);
    assert_eq!(m1, m2);
    assert_eq!(m1.serialize(), m2.serialize());
}

#[test]
fn double_literal_fidelity() {
    let one_fifty = Value::parse(&b",1.50\r\n"[..]).unwrap().1;
    let one_five = Value::parse(&b",1.5\r\n"[..]).unwrap().1;
    assert_ne!(one_fifty, one_five);

    assert_eq!(one_fifty.serialize(), b",1.50\r\n".to_vec());
    assert_eq!(one_five.serialize(), b",1.5\r\n".to_vec());
}

#[test]
fn double_preserves_exact_digit_runs() {
    let (_, a) = Value::parse(&b",1.05\r\n"[..]).unwrap();
    let (_, b) = Value::parse(&b",1.5\r\n"[..]).unwrap();
    assert_ne!(a, b);
    assert_eq!(a.serialize(), b",1.05\r\n".to_vec());

    let (_, c) = Value::parse(&b",01\r\n"[..]).unwrap();
    assert_eq!(c.serialize(), b",01\r\n".to_vec());
}

#[test]
fn double_accepts_unbounded_literals() {
    let raw = &b",99999999999999999999999.000000000000000000001\r\n"[..];
    let (rest, v) = Value::parse(raw).unwrap();
    assert!(rest.is_empty());
    assert_eq!(v.serialize(), raw.to_vec());
}

#[test]
fn blob_length_prefix_integrity() {
    assert_eq!(
        BlobString::parse(&b"$11\r\nhello world\r\n"[..]),
        Ok((&b""[..], BlobString::new(b"hello world".to_vec())))
    );

    assert_eq!(
        BlobString::parse(&b"$5\r\nhello world\r\n"[..]),
        Err(ParseError::MissingDelimiter)
    );
}

#[test]
fn empty_array_consumes_exactly_four_bytes() {
    let (rest, arr) = Array::parse(&b"*0\r\n:1\r\n"[..]).unwrap();
    assert_eq!(arr, Array::new(vec![]));
    assert_eq!(rest, &b":1\r\n"[..]);
}

#[test]
fn blob_error_code_extraction() {
    let (rest, e) = BlobError::parse(&b"!10\r\nERR reason\r\n"[..]).unwrap();
    assert!(rest.is_empty());
    assert_eq!(e.code(), &b"ERR".to_vec());
    assert_eq!(e.msg(), &b"reason".to_vec());
}

#[test]
fn attribute_attach_detach() {
    let raw = &b"|1\r\n+k\r\n+v\r\n#t\r\n"[..];
    let (rest, v) = Value::parse(raw).unwrap();
    assert!(rest.is_empty());

    let expected_attr = Attribute::new(vec![(
        Value::SimpleString(SimpleString::new(b"k".to_vec())),
        Value::SimpleString(SimpleString::new(b"v".to_vec())),
    )]);
    assert_eq!(v, Value::Boolean(Boolean::new(true).with_attr(expected_attr)));

    assert_eq!(v.serialize(), raw.to_vec());
}

#[test]
fn infinity_signedness() {
    let (_, pos) = Double::parse(&b",inf\r\n"[..]).unwrap();
    let (_, neg) = Double::parse(&b",-inf\r\n"[..]).unwrap();
    assert_ne!(pos, neg);

    assert_eq!(pos.serialize(), b",inf\r\n".to_vec());
    assert_eq!(neg.serialize(), b",-inf\r\n".to_vec());

    let pos_lit = &pos.serialize()[1..4];
    let neg_lit = &neg.serialize()[1..5];
    let pos_f = std::str::from_utf8(pos_lit).unwrap().parse::<f64>().unwrap();
    let neg_f = std::str::from_utf8(neg_lit).unwrap().parse::<f64>().unwrap();
    assert_eq!(pos_f, f64::INFINITY);
    assert_eq!(neg_f, f64::NEG_INFINITY);
}

#[test]
fn error_malformed_discriminator() {
    assert_eq!(
        Value::parse(&b"@\r\n"[..]),
        Err(ParseError::MalformedDiscriminator)
    );
}

#[test]
fn error_invalid_length() {
    assert_eq!(
        Value::parse(&b"$x\r\n"[..]),
        Err(ParseError::InvalidLength)
    );
    assert_eq!(
        Value::parse(&b"=3\r\nabc\r\n"[..]),
        Err(ParseError::InvalidLength)
    );
}

#[test]
fn error_truncated_input() {
    assert_eq!(
        Value::parse(&b"$5\r\nhel"[..]),
        Err(ParseError::TruncatedInput)
    );
    assert_eq!(Value::parse(&b""[..]), Err(ParseError::TruncatedInput));
}

#[test]
fn error_missing_delimiter() {
    assert_eq!(
        Value::parse(&b"_xy"[..]),
        Err(ParseError::MissingDelimiter)
    );
}

#[test]
fn error_invalid_encoding() {
    assert_eq!(
        Value::parse(&b"#x\r\n"[..]),
        Err(ParseError::InvalidEncoding)
    );
    assert_eq!(
        Value::parse(&b"+\xff\xfe\r\n"[..]),
        Err(ParseError::InvalidEncoding)
    );
}

#[test]
fn error_invalid_code_format() {
    assert_eq!(
        Value::parse(&b"-err reason\r\n"[..]),
        Err(ParseError::InvalidCodeFormat)
    );
    assert_eq!(
        Value::parse(&b"!5\r\nnocod\r\n"[..]),
        Err(ParseError::InvalidCodeFormat)
    );
}

#[test]
fn error_numeric_overflow() {
    assert_eq!(
        Value::parse(&b":99999999999999999999\r\n"[..]),
        Err(ParseError::NumericOverflow)
    );
    assert_eq!(
        Value::parse(&b":9223372036854775808\r\n"[..]),
        Err(ParseError::NumericOverflow)
    );
    assert_eq!(
        Value::parse(&b":-9223372036854775808\r\n"[..]).unwrap().1,
        Value::Number(Number::new(i64::MIN))
    );
}

#[test]
fn error_unknown_subtype() {
    assert_eq!(
        Value::parse(&b"=9\r\nabc:hello\r\n"[..]),
        Err(ParseError::UnknownSubtype)
    );
}

#[test]
fn error_recursion_limit() {
    let mut raw: Vec<u8> = Vec::new();
    for _ in 0..150 {
        raw.extend_from_slice(b"*1\r\n");
    }
    raw.extend_from_slice(b"_\r\n");
    assert_eq!(
        Value::parse(&raw),
        Err(ParseError::RecursionLimitExceeded)
    );
}

#[test]
fn big_number_normalization() {
    let (_, v) = Value::parse(&b"(0012\r\n"[..]).unwrap();
    assert_eq!(v.serialize(), b"(12\r\n".to_vec());

    let (_, z) = Value::parse(&b"(-0\r\n"[..]).unwrap();
    assert_eq!(z.serialize(), b"(0\r\n".to_vec());
}

#[test]
fn number_leading_zeros_normalize() {
    let (_, v) = Value::parse(&b":0012\r\n"[..]).unwrap();
    assert_eq!(v, Value::Number(Number::new(12)));
    assert_eq!(v.serialize(), b":12\r\n".to_vec());
}

#[test]
fn map_duplicate_key_last_wins() {
    let (_, v) = Value::parse(&b"%2\r\n+k\r\n:1\r\n+k\r\n:2\r\n"[..]).unwrap();
    assert_eq!(
        v,
        Value::ValueMap(ValueMap::new(vec![(
            Value::SimpleString(SimpleString::new(b"k".to_vec())),
            Value::Number(Number::new(2))
        )]))
    );
    assert_eq!(v.serialize(), b"%1\r\n+k\r\n:2\r\n".to_vec());
}

#[test]
fn set_deduplicates_and_orders() {
    let (_, v) = Value::parse(&b"~3\r\n+b\r\n+a\r\n+a\r\n"[..]).unwrap();
    assert_eq!(v.serialize(), b"~2\r\n+a\r\n+b\r\n".to_vec());
}

#[test]
fn trailing_bytes_stay_unconsumed() {
    let (rest, v) = Value::parse(&b":1\r\n:2\r\n"[..]).unwrap();
    assert_eq!(v, Value::Number(Number::new(1)));
    assert_eq!(rest, &b":2\r\n"[..]);
}
