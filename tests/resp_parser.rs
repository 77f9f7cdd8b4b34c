use resp_server::resp::{RespError, RespParseStep, RespParser, RespValue};

#[test]
fn parses_simple_string() {
    let parser = RespParser::new();
    let parsed = parser.next_value(b"+OK\r\n");
    assert!(
        parsed.is_ok(),
        "Expected ok result, got: {:?}",
        parsed.err().unwrap()
    );
    assert_eq!(
        parsed.unwrap(),
        RespParseStep {
            value: RespValue::SimpleString(b"OK"),
            remainder: &[]
        }
    );
}

#[test]
fn parses_error() {
    let parser = RespParser::new();
    let parsed = parser.next_value(b"-SomeError\r\n");
    assert!(
        parsed.is_ok(),
        "Expected ok result, got: {:?}",
        parsed.err().unwrap()
    );
    assert_eq!(
        parsed.unwrap(),
        RespParseStep {
            value: RespValue::SimpleError(b"SomeError"),
            remainder: &[]
        }
    );
}

#[test]
fn parses_int() {
    let parser = RespParser::new();
    let parsed = parser.next_value(b":+1000\r\n");
    assert!(
        parsed.is_ok(),
        "Expected ok result, got: {:?}",
        parsed.err().unwrap()
    );
    assert_eq!(
        parsed.unwrap(),
        RespParseStep {
            value: RespValue::SimpleInteger(1000),
            remainder: &[]
        }
    );
}

#[test]
fn parses_negative_int() {
    let parser = RespParser::new();
    let parsed = parser.next_value(b":-33\r\n");
    assert!(
        parsed.is_ok(),
        "Expected ok result, got: {:?}",
        parsed.err().unwrap()
    );
    assert_eq!(
        parsed.unwrap(),
        RespParseStep {
            value: RespValue::SimpleInteger(-33),
            remainder: &[]
        }
    );
}

#[test]
fn parses_bulk_string() {
    let parser = RespParser::new();
    let parsed = parser.next_value(b"$13\r\nImABulkString\r\n");
    assert!(
        parsed.is_ok(),
        "Expected ok result, got: {:?}",
        parsed.err().unwrap()
    );
    assert_eq!(
        parsed.unwrap(),
        RespParseStep {
            value: RespValue::BulkString(b"ImABulkString"),
            remainder: &[]
        }
    );
}

#[test]
fn parses_null_bulk_string() {
    let parser = RespParser::new();
    let parsed = parser.next_value(b"$-1\r\n");
    assert!(
        parsed.is_ok(),
        "Expected ok result, got: {:?}",
        parsed.err().unwrap()
    );
    assert_eq!(
        parsed.unwrap(),
        RespParseStep {
            value: RespValue::NullBulkString,
            remainder: &[]
        }
    );
}

#[test]
fn parses_array() {
    let parser = RespParser::new();
    let parsed = parser.next_value(b"*2\r\n+OK\r\n$3\r\nBlk\r\n");
    assert!(
        parsed.is_ok(),
        "Expected ok result, got: {:?}",
        parsed.err().unwrap()
    );
    assert_eq!(
        parsed.unwrap(),
        RespParseStep {
            value: RespValue::Array(vec![
                RespValue::SimpleString(b"OK"),
                RespValue::BulkString(b"Blk")
            ]),
            remainder: &[]
        }
    );
}

#[test]
fn parses_null_array() {
    let parser = RespParser::new();
    let parsed = parser.next_value(b"*-1\r\n");
    assert!(
        parsed.is_ok(),
        "Expected ok result, got: {:?}",
        parsed.err().unwrap()
    );
    assert_eq!(
        parsed.unwrap(),
        RespParseStep {
            value: RespValue::NullArray,
            remainder: &[]
        }
    );
}

#[test]
fn parse_leaves_remainder() {
    let parser = RespParser::new();
    let parsed = parser.next_value(b"-SomeError\r\nStuffAfterError");
    assert!(
        parsed.is_ok(),
        "Expected ok result, got: {:?}",
        parsed.err().unwrap()
    );
    assert_eq!(
        parsed.unwrap(),
        RespParseStep {
            value: RespValue::SimpleError(b"SomeError"),
            remainder: b"StuffAfterError"
        }
    );
}

#[test]
fn get_values() {
    let parser = RespParser::new();
    let parsed = parser.get_values(b"+OK\r\n:33\r\n");
    assert!(
        parsed.is_ok(),
        "Expected ok result, got: {:?}",
        parsed.err().unwrap()
    );
    assert_eq!(
        parsed.unwrap(),
        vec![RespValue::SimpleString(b"OK"), RespValue::SimpleInteger(33)]
    );
 
}

#[test]
fn writes_simple_string() {
    let value = RespValue::SimpleString(b"OK");

    let mut buffer = Vec::new();
    assert!(value.write(&mut buffer).is_ok());

    assert_eq!(buffer, b"+OK\r\n");
}

#[test]
fn writes_error() {
    let value = RespValue::SimpleError(b"SomeError");

    let mut buffer = Vec::new();
    assert!(value.write(&mut buffer).is_ok());

    assert_eq!(buffer, b"-SomeError\r\n");
}

#[test]
fn writes_integer() {
    let value = RespValue::SimpleInteger(-1);

    let mut buffer = Vec::new();
    assert!(value.write(&mut buffer).is_ok());

    assert_eq!(buffer, b":-1\r\n");
}

#[test]
fn writes_bulk_string() {
    let value = RespValue::BulkString(b"ImABulkString");

    let mut buffer = Vec::new();
    assert!(value.write(&mut buffer).is_ok());

    assert_eq!(buffer, b"$13\r\nImABulkString\r\n");
}

#[test]
fn writes_null_bulk_string() {
    let value = RespValue::NullBulkString;

    let mut buffer = Vec::new();
    assert!(value.write(&mut buffer).is_ok());

    assert_eq!(buffer, b"$-1\r\n");
}

#[test]
fn writes_array() {
    let value = RespValue::Array(vec![
        RespValue::SimpleString(b"hello"),
        RespValue::SimpleError(b"error"),
    ]);

    let mut buffer = Vec::new();
    assert!(value.write(&mut buffer).is_ok());

    assert_eq!(buffer, b"*2\r\n+hello\r\n-error\r\n");
}

#[test]
fn writes_null_array() {
    let value = RespValue::NullArray;

    let mut buffer = Vec::new();
    assert!(value.write(&mut buffer).is_ok());

    assert_eq!(buffer, b"*-1\r\n");
}

#[test]
fn round_trips_simple_string() {
    let value = RespValue::SimpleString(b"string");

    let mut buffer = Vec::new();
    assert!(value.write(&mut buffer).is_ok());

    let parser = RespParser::new();
    let round_tripped_value = parser.next_value(&buffer);
    assert!(round_tripped_value.is_ok());

    assert!(matches!(
        round_tripped_value.unwrap(),
        RespParseStep {
            value,
            remainder: &[]
        }
    ));
}

#[test]
fn round_trips_simple_error() {
    let value = RespValue::SimpleError(b"err");

    let mut buffer = Vec::new();
    assert!(value.write(&mut buffer).is_ok());

    let parser = RespParser::new();
    let round_tripped_value = parser.next_value(&buffer);
    assert!(round_tripped_value.is_ok());

    assert!(matches!(
        round_tripped_value.unwrap(),
        RespParseStep {
            value,
            remainder: &[]
        }
    ));
}

#[test]
fn round_trips_simple_int() {
    let value = RespValue::SimpleInteger(202034);

    let mut buffer = Vec::new();
    assert!(value.write(&mut buffer).is_ok());

    let parser = RespParser::new();
    let round_tripped_value = parser.next_value(&buffer);
    assert!(round_tripped_value.is_ok());

    assert!(matches!(
        round_tripped_value.unwrap(),
        RespParseStep {
            value,
            remainder: &[]
        }
    ));
}

#[test]
fn round_trips_bulk_string() {
    let value = RespValue::BulkString(b"IAmABulkStringMyFriend");

    let mut buffer = Vec::new();
    assert!(value.write(&mut buffer).is_ok());

    let parser = RespParser::new();
    let round_tripped_value = parser.next_value(&buffer);
    assert!(
        round_tripped_value.is_ok(),
        "Expected successful round trip, got {:?}",
        round_tripped_value.unwrap_err()
    );

    assert!(matches!(
        round_tripped_value.unwrap(),
        RespParseStep {
            value,
            remainder: &[]
        }
    ));
}

#[test]
fn round_trips_null_bulk_string() {
    let value = RespValue::NullBulkString;

    let mut buffer = Vec::new();
    assert!(value.write(&mut buffer).is_ok());

    let parser = RespParser::new();
    let round_tripped_value = parser.next_value(&buffer);
    assert!(
        round_tripped_value.is_ok(),
        "Expected successful round trip, got {:?}",
        round_tripped_value.unwrap_err()
    );

    assert!(matches!(
        round_tripped_value.unwrap(),
        RespParseStep {
            value,
            remainder: &[]
        }
    ));
}

#[test]
fn round_trips_array() {
    let value = RespValue::Array(vec![
        RespValue::BulkString(b"Blk"),
        RespValue::SimpleInteger(22),
        RespValue::NullArray,
    ]);

    let mut buffer = Vec::new();
    assert!(value.write(&mut buffer).is_ok());

    let parser = RespParser::new();
    let round_tripped_value = parser.next_value(&buffer);
    assert!(
        round_tripped_value.is_ok(),
        "Expected successful round trip, got {:?}",
        round_tripped_value.unwrap_err()
    );

    assert!(matches!(
        round_tripped_value.unwrap(),
        RespParseStep {
            value,
            remainder: &[]
        }
    ));
}

#[test]
fn round_trips_null_array() {
    let value = RespValue::NullArray;

    let mut buffer = Vec::new();
    assert!(value.write(&mut buffer).is_ok());

    let parser = RespParser::new();
    let round_tripped_value = parser.next_value(&buffer);
    assert!(
        round_tripped_value.is_ok(),
        "Expected successful round trip, got {:?}",
        round_tripped_value.unwrap_err()
    );

    assert!(matches!(
        round_tripped_value.unwrap(),
        RespParseStep {
            value,
            remainder: &[]
        }
    ));
}

#[test]
fn missing_separator_is_error() {
    let parser = RespParser::new();
    let resp = parser.next_value(b"+OK");
    assert!(resp.is_err());
    assert!(matches!(resp.unwrap_err(), RespError::UnexpectedEnd));
}

#[test]
fn unknown_starting_byte_is_error() {
    let parser = RespParser::new();
    let resp = parser.next_value(b"~24\r\n");
    assert!(resp.is_err());
    assert!(matches!(
        resp.unwrap_err(),
        RespError::UnknownStartingByte(b'~')
    ));
}

#[test]
fn bad_integer_is_error() {
    let parser = RespParser::new();
    let resp = parser.next_value(b":12uhoh33\r\n");
    assert!(resp.is_err(), "Expected error");
    assert!(matches!(resp.unwrap_err(), RespError::IntParseFailure(_)));
}

#[test]
fn unterminated_bulk_string() {
    let parser = RespParser::new();
    let parsed = parser.next_value(b"$26\r\nImAnUnterminatedBulkString");
    assert!(parsed.is_err(), "Expected error");
    let err = parsed.unwrap_err();
    assert!(
        matches!(err, RespError::UnexpectedEnd),
        "Expected unexpected end, got {:?}",
        err
    );
}

#[test]
fn incorrect_bulk_string_length() {
    let parser = RespParser::new();
    let parsed = parser.next_value(b"$13\r\nLongerThanExpectedBulkString\r\n");
    assert!(parsed.is_err(), "Expected error");
    let err = parsed.unwrap_err();
    assert!(
        matches!(err, RespError::BadBulkStringSize(13)),
        "Expected unexpected end, got {:?}",
        err
    );
}

#[test]
fn bad_bulk_string_length() {
    let parser = RespParser::new();
    let parsed = parser.next_value(b"$-5\r\n");
    assert!(parsed.is_err(), "Expected error");
    assert!(matches!(
        parsed.unwrap_err(),
        RespError::BadBulkStringSize(-5)
    ));
}

#[test]
fn truncated_bulk_string() {
    let parser = RespParser::new();
    let parsed = parser.next_value(b"$3\r\nAb");
    assert!(parsed.is_err(), "Expected error");
    assert!(matches!(parsed.unwrap_err(), RespError::UnexpectedEnd));
}

#[test]
fn unterminated_array() {
    let parser = RespParser::new();
    let parsed = parser.next_value(b"*2\r\n+OK\r\n-Err");
    assert!(parsed.is_err(), "Expected error");
    let err = parsed.unwrap_err();
    assert!(
        matches!(err, RespError::UnexpectedEnd),
        "Expected unexpected end, got {:?}",
        err
    );
}

#[test]
fn bad_bulk_array_length() {
    let parser = RespParser::new();
    let parsed = parser.next_value(b"*-5\r\n");
    assert!(parsed.is_err(), "Expected error");
    assert!(matches!(parsed.unwrap_err(), RespError::BadArraySize(-5)));
}

#[test]
fn truncated_array() {
    let parser = RespParser::new();
    let parsed = parser.next_value(b"*2\r\n+OK\r\n");
    assert!(parsed.is_err(), "Expected error");
    assert!(matches!(parsed.unwrap_err(), RespError::UnexpectedEnd));
}
