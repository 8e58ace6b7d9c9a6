use resp3::value::{
    Array, Attribute, BigNumber, BlobError, BlobString, Boolean, Double, Null, Number, Sign,
    SimpleError, SimpleString, Value, ValueMap, ValueSet, VerbatimString,
};

#[test]
fn test_basic_array() {
    assert_eq!(
        Value::parse(&b"*1\r\n+test\r\n"[..]),
        Ok((
            &b""[..],
            Value::Array(Array::new(vec![Value::SimpleString(SimpleString::new(
                b"test".to_vec()
            ))]))
        ))
    );
}

#[test]
fn test_basic_boolean() {
    assert_eq!(
        Value::parse(&b"#f\r\n"[..]),
        Ok((&b""[..], Value::Boolean(Boolean::new(false))))
    );
}

#[test]
fn test_basic_big_number() {
    let raw = ['1'; 100].into_iter().collect::<String>();
    let input = format!("({raw}\r\n");

    assert_eq!(
        Value::parse(input.as_bytes()),
        Ok((
            &b""[..],
            Value::BigNumber(BigNumber::new(false, raw.as_bytes().to_vec()))
        ))
    );
}

#[test]
fn test_basic_blob_error() {
    assert_eq!(
        Value::parse(&b"!10\r\nERR reason\r\n"[..]),
        Ok((
            &b""[..],
            Value::BlobError(BlobError::new(b"ERR".to_vec(), b"reason".to_vec()))
        ))
    );
}

#[test]
fn test_basic_blob_string() {
    assert_eq!(
        Value::parse(&b"$4\r\ntest\r\n"[..]),
        Ok((&b""[..], Value::BlobString(BlobString::new(b"test".to_vec()))))
    );
}

#[test]
fn test_basic_double() {
    assert_eq!(
        Value::parse(&b",-inf\r\n"[..]),
        Ok((&b""[..], Value::Double(Double::inf(Sign::Minus))))
    );
}

#[test]
fn test_basic_number() {
    assert_eq!(
        Value::parse(&b":0\r\n"[..]),
        Ok((&b""[..], Value::Number(Number::new(0))))
    );
}

#[test]
fn test_basic_null() {
    assert_eq!(
        Value::parse(&b"_\r\n"[..]),
        Ok((&b""[..], Value::Null(Null::default())))
    );
}

#[test]
fn test_basic_simple_error() {
    assert_eq!(
        Value::parse(&b"-ERR reason\r\n"[..]),
        Ok((
            &b""[..],
            Value::SimpleError(SimpleError::new(b"ERR".to_vec(), b"reason".to_vec()))
        ))
    );
}

#[test]
fn test_basic_simple_string() {
    assert_eq!(
        Value::parse(&b"+test\r\n"[..]),
        Ok((
            &b""[..],
            Value::SimpleString(SimpleString::new(b"test".to_vec()))
        ))
    );
}

#[test]
fn test_basic_verbatim_string() {
    assert_eq!(
        Value::parse(&b"=10\r\ntxt:123456\r\n"[..]),
        Ok((
            &b""[..],
            Value::VerbatimString(VerbatimString::txt(b"123456".to_vec()))
        ))
    );
}

#[test]
fn test_codec() {
    assert_eq!(
        Null::parse(&Null::default().serialize()),
        Ok((&b""[..], Null::default()))
    );
}

#[test]
fn test_basic_map_value() {
    assert_eq!(
        Value::parse(&b"%1\r\n+k\r\n:7\r\n"[..]),
        Ok((
            &b""[..],
            Value::ValueMap(ValueMap::new(vec![(
                Value::SimpleString(SimpleString::new(b"k".to_vec())),
                Value::Number(Number::new(7))
            )]))
        ))
    );
}

#[test]
fn test_basic_set_value() {
    assert_eq!(
        Value::parse(&b"~1\r\n:5\r\n"[..]),
        Ok((
            &b""[..],
            Value::ValueSet(ValueSet::new(vec![Value::Number(Number::new(5))]))
        ))
    );
}

#[test]
fn test_basic_attribute() {
    assert_eq!(
        Attribute::parse(&b"|0\r\n#t\r\n"[..]),
        Ok((&b"#t\r\n"[..], Attribute::new(vec![])))
    );
}
