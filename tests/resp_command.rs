use resp_server::command::{parse_command, parse_commands, RedisRequest};
use resp_server::errors::RedisError;
use resp_server::resp::{RespError, RespValue};

#[test]
fn parse_ping() {
    let ping_value = RespValue::Array(vec![RespValue::BulkString(b"PING")]);
    let parsed = parse_command(ping_value);
    assert!(
        parsed.is_ok(),
        "Expected ok result, got: {:?}",
        parsed.err().unwrap()
    );
    assert!(matches!(parsed.unwrap(), RedisRequest::Ping));
}

#[test]
fn fail_to_parse_ping() {
    let ping_value = RespValue::Array(vec![
        RespValue::BulkString(b"PING"),
        RespValue::SimpleString(b"string"),
    ]);
    let parsed = parse_command(ping_value);
    assert!(
        parsed.is_err(),
        "Expected error, got: {:?}",
        parsed.unwrap()
    );
    assert!(matches!(
        parsed.unwrap_err(),
        RedisError::UnexpectedNumberOfArgs(_)
    ));
}

#[test]
fn parse_echo() {
    let echo_value = RespValue::Array(vec![
        RespValue::BulkString(b"ECHO"),
        RespValue::BulkString(b"contents"),
    ]);
    let parsed = parse_command(echo_value);
    assert!(
        parsed.is_ok(),
        "Expected ok result, got: {:?}",
        parsed.err().unwrap()
    );
    assert!(matches!(parsed.unwrap(), RedisRequest::Echo(b"contents")));
}

#[test]
fn fail_parse_echo_missing_contents() {
    let echo_value = RespValue::Array(vec![RespValue::BulkString(b"ECHO")]);
    let parsed = parse_command(echo_value);
    assert!(
        parsed.is_err(),
        "Expected error, got: {:?}",
        parsed.unwrap()
    );
    assert!(matches!(
        parsed.unwrap_err(),
        RedisError::UnexpectedNumberOfArgs(_)
    ));
}

#[test]
fn fail_parse_echo_wrong_contents_type() {
    let echo_value = RespValue::Array(vec![
        RespValue::BulkString(b"ECHO"),
        RespValue::SimpleError(b"ERROR"),
    ]);
    let parsed = parse_command(echo_value);
    assert!(
        parsed.is_err(),
        "Expected error, got: {:?}",
        parsed.unwrap()
    );
    assert!(matches!(
        parsed.unwrap_err(),
        RedisError::UnexpectedArgumentType(_)
    ));
}

#[test]
fn parse_set() {
    let echo_value = RespValue::Array(vec![
        RespValue::BulkString(b"SET"),
        RespValue::BulkString(b"key"),
        RespValue::BulkString(b"contents"),
    ]);
    let parsed = parse_command(echo_value);
    assert!(
        parsed.is_ok(),
        "Expected ok result, got: {:?}",
        parsed.err().unwrap()
    );
    assert!(matches!(
        parsed.unwrap(),
        RedisRequest::SetValue {
            key: b"key",
            value: b"contents",
            expiration: None
        }
    ));
}

#[test]
fn parse_set_with_expiration() {
    let echo_value = RespValue::Array(vec![
        RespValue::BulkString(b"SET"),
        RespValue::BulkString(b"key"),
        RespValue::BulkString(b"contents"),
        RespValue::BulkString(b"px"),
        RespValue::BulkString(b"1000"),
    ]);
    let parsed = parse_command(echo_value);
    assert!(
        parsed.is_ok(),
        "Expected ok result, got: {:?}",
        parsed.err().unwrap()
    );
    assert!(matches!(
        parsed.unwrap(),
        RedisRequest::SetValue {
            key: b"key",
            value: b"contents",
            expiration: Some(_)
        }
    ));
}

#[test]
fn parse_set_with_bad_expiration_type() {
    let echo_value = RespValue::Array(vec![
        RespValue::BulkString(b"SET"),
        RespValue::BulkString(b"key"),
        RespValue::BulkString(b"contents"),
        RespValue::BulkString(b"unknown"),
        RespValue::BulkString(b"1000"),
    ]);

    assert!(matches!(
        parse_command(echo_value),
        Err(RedisError::UnknownRequest(_))
    ));
}

#[test]
fn parse_set_with_bad_expiration_value() {
    let echo_value = RespValue::Array(vec![
        RespValue::BulkString(b"SET"),
        RespValue::BulkString(b"key"),
        RespValue::BulkString(b"contents"),
        RespValue::BulkString(b"px"),
        RespValue::BulkString(b"not a number"),
    ]);

    assert!(matches!(
        parse_command(echo_value),
        Err(RedisError::RespParseError(RespError::IntParseFailure(_)))
    ));
}

#[test]
fn parse_get() {
    let echo_value = RespValue::Array(vec![
        RespValue::BulkString(b"GET"),
        RespValue::BulkString(b"key"),
    ]);
    let parsed = parse_command(echo_value);
    assert!(
        parsed.is_ok(),
        "Expected ok result, got: {:?}",
        parsed.err().unwrap()
    );
    assert!(matches!(parsed.unwrap(), RedisRequest::Get(b"key")));
}

#[test]
fn parse_config_get_single() {
    let config_get = RespValue::Array(vec![
        RespValue::BulkString(b"CONFIG"),
        RespValue::BulkString(b"GET"),
        RespValue::BulkString(b"dir"),
    ]);
    assert!(matches!(parse_command(config_get),
        Ok(RedisRequest::ConfigGet(params)) if matches!(params[..], [b"dir"])));
}

#[test]
fn parse_config_get_multiple() {
    let values = RespValue::Array(vec![
        RespValue::BulkString(b"CONFIG"),
        RespValue::BulkString(b"GET"),
        RespValue::BulkString(b"dir"),
        RespValue::BulkString(b"max_concurrency"),
    ]);
    assert!(matches!(parse_command(values),
        Ok(RedisRequest::ConfigGet(params)) if matches!(params[..], [b"dir", b"max_concurrency"])));
}

#[test]
fn parse_single_command() {
    let input = b"*2\r\n$4\r\nECHO\r\n$8\r\ncontents\r\n";
    let parsed = parse_commands(input);
    assert!(
        parsed.is_ok(),
        "Expected ok result, got: {:?}",
        parsed.err().unwrap()
    );
    let commands = parsed.unwrap();
    assert_eq!(commands.len(), 1);
    assert!(matches!(commands[0], RedisRequest::Echo(b"contents")));
}

#[test]
fn parse_multiple_commands() {
    let input = b"*2\r\n$4\r\nECHO\r\n$8\r\ncontents\r\n*1\r\n$4\r\nPING\r\n";
    let parsed = parse_commands(input);
    assert!(
        parsed.is_ok(),
        "Expected ok result, got: {:?}",
        parsed.err().unwrap()
    );
    let commands = parsed.unwrap();
    assert_eq!(commands.len(), 2);
    assert!(matches!(commands[0], RedisRequest::Echo(b"contents")));
    assert!(matches!(commands[1], RedisRequest::Ping));
}
