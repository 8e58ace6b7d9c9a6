use resp3::value::{
    Array, Attribute, BigNumber, BlobError, BlobString, Boolean, Double, Null, Number, Parts,
    Sign, SimpleError, SimpleString, Value, ValueMap, ValueSet, VerbatimString,
};

#[test]
fn null_test_basic() {
    assert_eq!(Null::parse(&b"_\r\n"[..]), Ok((&b""[..], Null::default())));
}

#[test]
fn boolean_test_basic() {
    assert_eq!(
        Boolean::parse(&b"#t\r\n"[..]),
        Ok((&b""[..], Boolean::new(true)))
    );

    assert_eq!(
        Boolean::parse(&b"#f\r\n"[..]),
        Ok((&b""[..], Boolean::new(false)))
    );
}

#[test]
fn number_test_positive_number() {
    assert_eq!(
        Number::parse(&b":1234\r\n"[..]),
        Ok((&b""[..], Number::new(1234)))
    );
}

#[test]
fn number_test_negative_number() {
    assert_eq!(
        Number::parse(&b":-1234\r\n"[..]),
        Ok((&b""[..], Number::new(-1234)))
    );
}

#[test]
fn big_number_test_positive_number() {
    let digits = ['1'; 100].into_iter().collect::<String>();
    let raw = format!("({digits}\r\n");

    let (i, o) = BigNumber::parse(raw.as_bytes()).unwrap();

    assert!(i.is_empty());
    assert_eq!(o.literal(), digits.as_bytes().to_vec());
}

#[test]
fn big_number_test_negative_number() {
    let digits = ['1'; 100].into_iter().collect::<String>();
    let lit = format!("-{digits}");
    let raw = format!("({lit}\r\n");

    let (i, o) = BigNumber::parse(raw.as_bytes()).unwrap();

    assert!(i.is_empty());
    assert_eq!(o.literal(), lit.as_bytes().to_vec());
}

#[test]
fn double_test_positive_number() {
    assert_eq!(
        Double::parse(&b",1.234\r\n"[..]),
        Ok((
            &b""[..],
            Double::from_parts(Parts {
                sign: Sign::Plus,
                int: b"1".to_vec(),
                frac: Some(b"234".to_vec())
            })
        ))
    );
}

#[test]
fn double_test_negative_number() {
    assert_eq!(
        Double::parse(&b",-1.234\r\n"[..]),
        Ok((
            &b""[..],
            Double::from_parts(Parts {
                sign: Sign::Minus,
                int: b"1".to_vec(),
                frac: Some(b"234".to_vec())
            })
        ))
    );
}

#[test]
fn double_test_positive_infinity() {
    assert_eq!(
        Double::parse(&b",inf\r\n"[..]),
        Ok((&b""[..], Double::inf(Sign::Plus)))
    );
}

#[test]
fn double_test_negative_infinity() {
    assert_eq!(
        Double::parse(&b",-inf\r\n"[..]),
        Ok((&b""[..], Double::inf(Sign::Minus)))
    );
}

#[test]
fn simple_string_test_basic() {
    assert_eq!(
        SimpleString::parse(&b"+hello world\r\n"[..]),
        Ok((&b""[..], SimpleString::new(b"hello world".to_vec())))
    );
}

#[test]
fn simple_string_test_invalid_characters() {
    assert!(SimpleString::parse(&b"+hello\nworld\r\n"[..]).is_err());
    assert!(SimpleString::parse(&b"+hello\rworld\r\n"[..]).is_err());
}

#[test]
fn simple_error_test_basic() {
    assert_eq!(
        SimpleError::parse(&b"-ERR reason\r\n"[..]),
        Ok((
            &b""[..],
            SimpleError::new(b"ERR".to_vec(), b"reason".to_vec())
        ))
    );
}

#[test]
fn simple_error_test_invalid_characters() {
    assert!(SimpleError::parse(&b"-ERR hello\nworld\r\n"[..]).is_err());
    assert!(SimpleError::parse(&b"-ERR hello\rworld\r\n"[..]).is_err());
}

#[test]
fn blob_string_test_basic() {
    assert_eq!(
        BlobString::parse(&b"$11\r\nhello world\r\n"[..]),
        Ok((&b""[..], BlobString::new(b"hello world".to_vec())))
    );
}

#[test]
fn blob_error_test_basic() {
    assert_eq!(
        BlobError::parse(&b"!10\r\nERR reason\r\n"[..]),
        Ok((&b""[..], BlobError::new(b"ERR".to_vec(), b"reason".to_vec())))
    );
}

#[test]
fn verbatim_string_test_basic() {
    assert_eq!(
        VerbatimString::parse(&b"=15\r\ntxt:hello world\r\n"[..]),
        Ok((&b""[..], VerbatimString::txt(b"hello world".to_vec())))
    );

    assert_eq!(
        VerbatimString::parse(&b"=15\r\nmkd:hello world\r\n"[..]),
        Ok((&b""[..], VerbatimString::mkd(b"hello world".to_vec())))
    );
}

#[test]
fn array_test_empty() {
    assert_eq!(
        Array::parse(&b"*0\r\n"[..]),
        Ok((&b""[..], Array::new(vec![])))
    );
}

#[test]
fn array_test_heterogenous_simple() {
    let raw = "\
                   *10\r\n\
                   (12345\r\n\
                   !10\r\nERR reason\r\n\
                   $4\r\ntest\r\n\
                   #f\r\n\
                   ,-inf\r\n\
                   _\r\n\
                   :1234\r\n\
                   -ERR reason\r\n\
                   +test\r\n\
                   =8\r\ntxt:test\r\n\
                   ";

    assert_eq!(
        Array::parse(raw.as_bytes()),
        Ok((
            &b""[..],
            Array::new(vec![
                Value::BigNumber(BigNumber::new(false, b"12345".to_vec())),
                Value::BlobError(BlobError::new(b"ERR".to_vec(), b"reason".to_vec())),
                Value::BlobString(BlobString::new(b"test".to_vec())),
                Value::Boolean(Boolean::new(false)),
                Value::Double(Double::inf(Sign::Minus)),
                Value::Null(Null::default()),
                Value::Number(Number::new(1234)),
                Value::SimpleError(SimpleError::new(b"ERR".to_vec(), b"reason".to_vec())),
                Value::SimpleString(SimpleString::new(b"test".to_vec())),
                Value::VerbatimString(VerbatimString::txt(b"test".to_vec())),
            ])
        ))
    );
}

#[test]
fn array_test_nested_array() {
    let raw = "\
                   *2\r\n\
                   *1\r\n+test\r\n\
                   *2\r\n#f\r\n:-1\r\n\
                   ";

    assert_eq!(
        Array::parse(raw.as_bytes()),
        Ok((
            &b""[..],
            Array::new(vec![
                Value::Array(Array::new(vec![Value::SimpleString(SimpleString::new(
                    b"test".to_vec()
                ))])),
                Value::Array(Array::new(vec![
                    Value::Boolean(Boolean::new(false)),
                    Value::Number(Number::new(-1))
                ])),
            ])
        ))
    );
}

#[test]
fn set_test_empty() {
    assert_eq!(
        ValueSet::parse(&b"~0\r\n"[..]),
        Ok((&b""[..], ValueSet::new(vec![])))
    );
}

#[test]
fn set_test_heterogenous_simple() {
    let raw = "\
           ~10\r\n\
               (12345\r\n\
               !10\r\nERR reason\r\n\
               $4\r\ntest\r\n\
               #f\r\n\
               ,-inf\r\n\
               _\r\n\
               :1234\r\n\
               -ERR reason\r\n\
               +test\r\n\
               =8\r\ntxt:test\r\n\
                   ";

    assert_eq!(
        ValueSet::parse(raw.as_bytes()),
        Ok((
            &b""[..],
            ValueSet::new(vec![
                Value::BigNumber(BigNumber::new(false, b"12345".to_vec())),
                Value::BlobError(BlobError::new(b"ERR".to_vec(), b"reason".to_vec())),
                Value::BlobString(BlobString::new(b"test".to_vec())),
                Value::Boolean(Boolean::new(false)),
                Value::Double(Double::inf(Sign::Minus)),
                Value::Null(Null::default()),
                Value::Number(Number::new(1234)),
                Value::SimpleError(SimpleError::new(b"ERR".to_vec(), b"reason".to_vec())),
                Value::SimpleString(SimpleString::new(b"test".to_vec())),
                Value::VerbatimString(VerbatimString::txt(b"test".to_vec())),
            ])
        ))
    );
}

#[test]
fn set_test_nested_array() {
    let raw = "\
           ~2\r\n\
               ~1\r\n+test\r\n\
               ~2\r\n#f\r\n:-1\r\n\
                   ";

    assert_eq!(
        ValueSet::parse(raw.as_bytes()),
        Ok((
            &b""[..],
            ValueSet::new(vec![
                Value::ValueSet(ValueSet::new(vec![Value::SimpleString(
                    SimpleString::new(b"test".to_vec())
                )])),
                Value::ValueSet(ValueSet::new(vec![
                    Value::Boolean(Boolean::new(false)),
                    Value::Number(Number::new(-1))
                ])),
            ])
        ))
    );
}

#[test]
fn map_test_empty() {
    assert_eq!(
        ValueMap::parse(&b"%0\r\n"[..]),
        Ok((&b""[..], ValueMap::new(vec![])))
    );
}

#[test]
fn map_test_heterogenous_keys_simple() {
    let raw = "\
                   %10\r\n\
                   (12345\r\n_\r\n\
                   !10\r\nERR reason\r\n_\r\n\
                   $4\r\ntest\r\n_\r\n\
                   #f\r\n_\r\n\
                   ,-inf\r\n_\r\n\
                   _\r\n_\r\n\
                   :1234\r\n_\r\n\
                   -ERR reason\r\n_\r\n\
                   +test\r\n_\r\n\
                   =8\r\ntxt:test\r\n_\r\n\
                   ";

    assert_eq!(
        ValueMap::parse(raw.as_bytes()),
        Ok((
            &b""[..],
            ValueMap::new(vec![
                (
                    Value::BigNumber(BigNumber::new(false, b"12345".to_vec())),
                    Value::Null(Null::default())
                ),
                (
                    Value::BlobError(BlobError::new(b"ERR".to_vec(), b"reason".to_vec())),
                    Value::Null(Null::default())
                ),
                (
                    Value::BlobString(BlobString::new(b"test".to_vec())),
                    Value::Null(Null::default())
                ),
                (
                    Value::Boolean(Boolean::new(false)),
                    Value::Null(Null::default())
                ),
                (
                    Value::Double(Double::inf(Sign::Minus)),
                    Value::Null(Null::default())
                ),
                (
                    Value::Null(Null::default()),
                    Value::Null(Null::default())
                ),
                (
                    Value::Number(Number::new(1234)),
                    Value::Null(Null::default())
                ),
                (
                    Value::SimpleError(SimpleError::new(b"ERR".to_vec(), b"reason".to_vec())),
                    Value::Null(Null::default())
                ),
                (
                    Value::SimpleString(SimpleString::new(b"test".to_vec())),
                    Value::Null(Null::default())
                ),
                (
                    Value::VerbatimString(VerbatimString::txt(b"test".to_vec())),
                    Value::Null(Null::default())
                ),
            ])
        ))
    );
}

#[test]
fn map_test_heterogenous_value_simple() {
    let raw = "\
                   %10\r\n\
                   :0\r\n(12345\r\n\
                   :1\r\n!10\r\nERR reason\r\n\
                   :2\r\n$4\r\ntest\r\n\
                   :3\r\n#f\r\n\
                   :4\r\n,-inf\r\n\
                   :5\r\n_\r\n\
                   :6\r\n:1234\r\n\
                   :7\r\n-ERR reason\r\n\
                   :8\r\n+test\r\n\
                   :9\r\n=8\r\ntxt:test\r\n\
                   ";

    assert_eq!(
        ValueMap::parse(raw.as_bytes()),
        Ok((
            &b""[..],
            ValueMap::new(vec![
                (
                    Value::Number(Number::new(0)),
                    Value::BigNumber(BigNumber::new(false, b"12345".to_vec()))
                ),
                (
                    Value::Number(Number::new(1)),
                    Value::BlobError(BlobError::new(b"ERR".to_vec(), b"reason".to_vec()))
                ),
                (
                    Value::Number(Number::new(2)),
                    Value::BlobString(BlobString::new(b"test".to_vec()))
                ),
                (
                    Value::Number(Number::new(3)),
                    Value::Boolean(Boolean::new(false))
                ),
                (
                    Value::Number(Number::new(4)),
                    Value::Double(Double::inf(Sign::Minus))
                ),
                (
                    Value::Number(Number::new(5)),
                    Value::Null(Null::default())
                ),
                (
                    Value::Number(Number::new(6)),
                    Value::Number(Number::new(1234))
                ),
                (
                    Value::Number(Number::new(7)),
                    Value::SimpleError(SimpleError::new(b"ERR".to_vec(), b"reason".to_vec()))
                ),
                (
                    Value::Number(Number::new(8)),
                    Value::SimpleString(SimpleString::new(b"test".to_vec()))
                ),
                (
                    Value::Number(Number::new(9)),
                    Value::VerbatimString(VerbatimString::txt(b"test".to_vec()))
                ),
            ])
        ))
    );
}

#[test]
fn map_test_nested_map_key() {
    let raw = "\
            %1\r\n\
                %2\r\n\
                    :1\r\n#f\r\n\
                    :2\r\n#t\r\n\
                _\r\n";

    assert_eq!(
        ValueMap::parse(raw.as_bytes()),
        Ok((
            &b""[..],
            ValueMap::new(vec![(
                Value::ValueMap(ValueMap::new(vec![
                    (
                        Value::Number(Number::new(1)),
                        Value::Boolean(Boolean::new(false))
                    ),
                    (
                        Value::Number(Number::new(2)),
                        Value::Boolean(Boolean::new(true))
                    ),
                ])),
                Value::Null(Null::default())
            )])
        ))
    );
}

#[test]
fn map_test_nested_map_value() {
    let raw = "\
            %1\r\n\
                _\r\n\
                %2\r\n\
                    :1\r\n#f\r\n\
                    :2\r\n#t\r\n\
                  ";

    assert_eq!(
        ValueMap::parse(raw.as_bytes()),
        Ok((
            &b""[..],
            ValueMap::new(vec![(
                Value::Null(Null::default()),
                Value::ValueMap(ValueMap::new(vec![
                    (
                        Value::Number(Number::new(1)),
                        Value::Boolean(Boolean::new(false))
                    ),
                    (
                        Value::Number(Number::new(2)),
                        Value::Boolean(Boolean::new(true))
                    ),
                ]))
            )])
        ))
    );
}

#[test]
fn attribute_test_empty() {
    assert_eq!(
        Attribute::parse(&b"|0\r\n"[..]),
        Ok((&b""[..], Attribute::new(vec![])))
    );
}

#[test]
fn attribute_test_heterogenous_keys_simple() {
    let raw = "\
                   |2\r\n\
                   :1234\r\n_\r\n\
                   +test\r\n_\r\n\
                   ";

    assert_eq!(
        Attribute::parse(raw.as_bytes()),
        Ok((
            &b""[..],
            Attribute::new(vec![
                (
                    Value::Number(Number::new(1234)),
                    Value::Null(Null::default())
                ),
                (
                    Value::SimpleString(SimpleString::new(b"test".to_vec())),
                    Value::Null(Null::default())
                ),
            ])
        ))
    );
}
