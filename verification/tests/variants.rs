use resp3::value::{
    Array, Boolean, Double, Null, Number, Parts, Sign, SimpleString, Value, ValueMap,
    SimpleError, BigNumber, BlobError, BlobString, VerbatimString,
};

#[test]
fn mod_test_basic() {
    assert_eq!(Null::parse(&b"_\r\n"[..]), Ok((&b""[..], Null::default())));
}

#[test]
fn mod_test_positive_number() {
    assert_eq!(
        Number::parse(&b":1234\r\n"[..]),
        Ok((&b""[..], Number::new(1234)))
    );
}

#[test]
fn mod_test_negative_number() {
    assert_eq!(
        Number::parse(&b":-1234\r\n"[..]),
        Ok((&b""[..], Number::new(-1234)))
    );
}

#[test]
fn mod_test_positive_infinity() {
    assert_eq!(
        Double::parse(&b",inf\r\n"[..]),
        Ok((&b""[..], Double::inf(Sign::Plus)))
    );
}

#[test]
fn mod_test_negative_infinity() {
    assert_eq!(
        Double::parse(&b",-inf\r\n"[..]),
        Ok((&b""[..], Double::inf(Sign::Minus)))
    );
}

#[test]
fn mod_test_empty() {
    assert_eq!(
        Array::parse(&b"*0\r\n"[..]),
        Ok((&b""[..], Array::new(vec![])))
    );
}

#[test]
fn mod_test_heterogenous_simple() {
    let raw = "\
                   *10\r\n\
                   (12345\r\n\
                   !10\r\nERR reason\r\n\
                   $4\r\ntest\r\n\
                   #f\r\n\
                   ,-inf\r\n\
                   _\r\n\
                   :1234\r\n\
                   -ERR reason\r\n\
                   +test\r\n\
                   =8\r\ntxt:test\r\n\
                   ";

    assert_eq!(
        Array::parse(raw.as_bytes()),
        Ok((
            &b""[..],
            Array::new(vec![
                Value::BigNumber(BigNumber::new(false, b"12345".to_vec())),
                Value::BlobError(BlobError::new(b"ERR".to_vec(), b"reason".to_vec())),
                Value::BlobString(BlobString::new(b"test".to_vec())),
                Value::Boolean(Boolean::new(false)),
                Value::Double(Double::inf(Sign::Minus)),
                Value::Null(Null::default()),
                Value::Number(Number::new(1234)),
                Value::SimpleError(SimpleError::new(b"ERR".to_vec(), b"reason".to_vec())),
                Value::SimpleString(SimpleString::new(b"test".to_vec())),
                Value::VerbatimString(VerbatimString::txt(b"test".to_vec())),
            ])
        ))
    );
}

#[test]
fn mod_test_nested_array() {
    let raw = "\
                   *2\r\n\
                   *1\r\n+test\r\n\
                   *2\r\n#f\r\n:-1\r\n\
                   ";

    assert_eq!(
        Array::parse(raw.as_bytes()),
        Ok((
            &b""[..],
            Array::new(vec![
                Value::Array(Array::new(vec![Value::SimpleString(SimpleString::new(
                    b"test".to_vec()
                ))])),
                Value::Array(Array::new(vec![
                    Value::Boolean(Boolean::new(false)),
                    Value::Number(Number::new(-1))
                ])),
            ])
        ))
    );
}

#[test]
fn mod_test_heterogenous_keys_simple() {
    let raw = "\
                   %2\r\n\
                   :1234\r\n_\r\n\
                   +test\r\n_\r\n\
                   ";

    assert_eq!(
        ValueMap::parse(raw.as_bytes()),
        Ok((
            &b""[..],
            ValueMap::new(vec![
                (
                    Value::Number(Number::new(1234)),
                    Value::Null(Null::default())
                ),
                (
                    Value::SimpleString(SimpleString::new(b"test".to_vec())),
                    Value::Null(Null::default())
                ),
            ])
        ))
    );
}

#[test]
fn mod_test_heterogenous_value_simple() {
    let raw = "\
                   %2\r\n\
                   :0\r\n#t\r\n\
                   :1\r\n+test\r\n\
                   ";

    assert_eq!(
        ValueMap::parse(raw.as_bytes()),
        Ok((
            &b""[..],
            ValueMap::new(vec![
                (
                    Value::Number(Number::new(0)),
                    Value::Boolean(Boolean::new(true))
                ),
                (
                    Value::Number(Number::new(1)),
                    Value::SimpleString(SimpleString::new(b"test".to_vec()))
                ),
            ])
        ))
    );
}

#[test]
fn mod_test_nested_map_key() {
    let raw = "\
            %1\r\n\
                %1\r\n:1\r\n#f\r\n\
                _\r\n";

    assert_eq!(
        ValueMap::parse(raw.as_bytes()),
        Ok((
            &b""[..],
            ValueMap::new(vec![(
                Value::ValueMap(ValueMap::new(vec![(
                    Value::Number(Number::new(1)),
                    Value::Boolean(Boolean::new(false))
                )])),
                Value::Null(Null::default())
            )])
        ))
    );
}

#[test]
fn mod_test_nested_map_value() {
    let raw = "\
            %1\r\n\
                _\r\n\
                %1\r\n:1\r\n#f\r\n";

    assert_eq!(
        ValueMap::parse(raw.as_bytes()),
        Ok((
            &b""[..],
            ValueMap::new(vec![(
                Value::Null(Null::default()),
                Value::ValueMap(ValueMap::new(vec![(
                    Value::Number(Number::new(1)),
                    Value::Boolean(Boolean::new(false))
                )]))
            )])
        ))
    );
}

#[test]
fn mod_test_invalid_characters() {
    assert!(SimpleString::parse(&b"+hello\nworld\r\n"[..]).is_err());
    assert!(SimpleString::parse(&b"+hello\rworld\r\n"[..]).is_err());
}

#[test]
fn double_round_trip_parts() {
    let d = Double::from_parts(Parts {
        sign: Sign::Minus,
        int: b"10".to_vec(),
        frac: Some(b"25".to_vec()),
    });
    let bytes = d.serialize();
    assert_eq!(bytes, b",-10.25\r\n".to_vec());
    assert_eq!(Double::parse(&bytes), Ok((&b""[..], d)));
}
