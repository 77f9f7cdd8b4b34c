use resp_server::decimal::{parse_decimal, write_decimal, IntError};
use resp_server::resp::{parse_integer, RespError, RespParser, RespValue};

fn encode(v: &RespValue) -> Vec<u8> {
    let mut out = Vec::new();
    assert!(v.write(&mut out).is_ok());
    out
}

#[test]
fn round_trip_nested_and_empty_values() {
    let values = vec![
        RespValue::Array(vec![]),
        RespValue::NullArray,
        RespValue::NullBulkString,
        RespValue::BulkString(b""),
        RespValue::Array(vec![
            RespValue::Array(vec![RespValue::SimpleInteger(i64::MIN), RespValue::NullArray]),
            RespValue::BulkString(b"a\r\nb\0\xff"),
            RespValue::SimpleError(b"err\rx"),
        ]),
        RespValue::SimpleInteger(i64::MAX),
        RespValue::SimpleString(b""),
    ];
    let mut bytes = Vec::new();
    for v in &values {
        let one = encode(v);
        let parser = RespParser::new();
        assert_eq!(parser.get_values(&one).unwrap(), vec![clone_value(v)]);
        bytes.extend_from_slice(&one);
    }
    let parser = RespParser::new();
    let parsed = parser.get_values(&bytes).unwrap();
    assert_eq!(parsed.len(), values.len());
    for (a, b) in parsed.iter().zip(values.iter()) {
        assert_eq!(a, b);
    }
}

fn clone_value<'a>(v: &RespValue<'a>) -> RespValue<'a> {
    match v {
        RespValue::SimpleString(s) => RespValue::SimpleString(s),
        RespValue::SimpleError(s) => RespValue::SimpleError(s),
        RespValue::SimpleInteger(n) => RespValue::SimpleInteger(*n),
        RespValue::BulkString(s) => RespValue::BulkString(s),
        RespValue::NullBulkString => RespValue::NullBulkString,
        RespValue::Array(vs) => RespValue::Array(vs.iter().map(clone_value).collect()),
        RespValue::NullArray => RespValue::NullArray,
    }
}

#[test]
fn writes_nested_array_exactly() {
    let v = RespValue::Array(vec![
        RespValue::SimpleInteger(0),
        RespValue::Array(vec![]),
        RespValue::BulkString(b"x"),
    ]);
    assert_eq!(encode(&v), b"*3\r\n:0\r\n*0\r\n$1\r\nx\r\n");
}

#[test]
fn empty_input_gives_no_values() {
    assert_eq!(RespParser::new().get_values(b"").unwrap(), vec![]);
}

#[test]
fn word_ends_at_first_crlf_only() {
    let parser = RespParser::new();
    let step = parser.next_value(b"+a\rb\n\r\nrest").unwrap();
    assert_eq!(step.value, RespValue::SimpleString(b"a\rb\n"));
    assert_eq!(step.remainder, b"rest");
}

#[test]
fn integer_errors() {
    let parser = RespParser::new();
    assert!(matches!(
        parser.next_value(b":\r\n"),
        Err(RespError::IntParseFailure(IntError::Empty))
    ));
    assert!(matches!(
        parser.next_value(b":-\r\n"),
        Err(RespError::IntParseFailure(IntError::Empty))
    ));
    assert!(matches!(
        parser.next_value(b":9223372036854775808\r\n"),
        Err(RespError::IntParseFailure(IntError::OutOfRange))
    ));
    assert_eq!(
        parser.next_value(b":-9223372036854775808\r\n").unwrap().value,
        RespValue::SimpleInteger(i64::MIN)
    );
    assert!(matches!(
        parser.next_value(b"$x\r\n"),
        Err(RespError::IntParseFailure(IntError::InvalidDigit))
    ));
}

#[test]
fn empty_word_is_unexpected_end() {
    let parser = RespParser::new();
    assert!(matches!(parser.next_value(b"\r\n"), Err(RespError::UnexpectedEnd)));
}

#[test]
fn array_error_propagates() {
    let parser = RespParser::new();
    assert!(matches!(
        parser.next_value(b"*2\r\n+OK\r\n~\r\n"),
        Err(RespError::UnknownStartingByte(b'~'))
    ));
}

#[test]
fn decimal_forms() {
    let mut out = Vec::new();
    write_decimal(-120, &mut out);
    write_decimal(0, &mut out);
    write_decimal(i64::MIN, &mut out);
    assert_eq!(out, b"-1200-9223372036854775808");
    assert_eq!(parse_decimal(b"+0042"), Ok(42));
    assert_eq!(parse_decimal(b"-0"), Ok(0));
    assert_eq!(parse_decimal(b"1 2"), Err(IntError::InvalidDigit));
    assert_eq!(parse_integer(b"7"), Ok(7));
    assert_eq!(
        parse_integer(b"99999999999999999999"),
        Err(RespError::IntParseFailure(IntError::OutOfRange))
    );
}

#[test]
fn type_strings() {
    assert_eq!(RespValue::SimpleString(b"x").type_string(), "SimpleString");
    assert_eq!(RespValue::SimpleError(b"x").type_string(), "SimpleError");
    assert_eq!(RespValue::SimpleInteger(1).type_string(), "SimpleInteger");
    assert_eq!(RespValue::BulkString(b"x").type_string(), "BulkString");
    assert_eq!(RespValue::NullBulkString.type_string(), "NullBulkString");
    assert_eq!(RespValue::Array(vec![]).type_string(), "Array");
    assert_eq!(RespValue::NullArray.type_string(), "NullArray");
}

#[test]
fn non_utf8_number_is_utf8_failure() {
    let parser = RespParser::new();
    assert!(matches!(parser.next_value(b":\xff\r\n"), Err(RespError::Utf8Failure)));
    assert!(matches!(parser.next_value(b"$1\xc3\r\n"), Err(RespError::Utf8Failure)));
    assert_eq!(parse_integer(b"\xff"), Err(RespError::Utf8Failure));
    assert!(matches!(
        parse_integer("\u{e9}".as_bytes()),
        Err(RespError::IntParseFailure(IntError::InvalidDigit))
    ));
}
