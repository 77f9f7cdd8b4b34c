use resp_server::args::{replication_info_from_args, replication_info_with_id, RedisArgs};
use resp_server::command::{
    parse_command, parse_command_at, parse_commands_at, uppercase, RedisRequest,
};
use resp_server::errors::RedisError;
use resp_server::handler::RedisRole;
use resp_server::resp::{RespError, RespValue};

#[test]
fn px_deadline_is_now_plus_millis() {
    let value = RespValue::Array(vec![
        RespValue::BulkString(b"set"),
        RespValue::BulkString(b"k"),
        RespValue::BulkString(b"v"),
        RespValue::BulkString(b"Px"),
        RespValue::BulkString(b"250"),
    ]);
    assert!(matches!(
        parse_command_at(&value, 1000),
        Ok(RedisRequest::SetValue { key: b"k", value: b"v", expiration: Some(1250) })
    ));
    assert!(matches!(
        parse_command_at(&value, u64::MAX - 1),
        Ok(RedisRequest::SetValue { expiration: Some(u64::MAX), .. })
    ));
}

#[test]
fn px_deadline_reads_the_clock() {
    let value = RespValue::Array(vec![
        RespValue::BulkString(b"SET"),
        RespValue::BulkString(b"k"),
        RespValue::BulkString(b"v"),
        RespValue::BulkString(b"PX"),
        RespValue::BulkString(b"0"),
    ]);
    match parse_command(value) {
        Ok(RedisRequest::SetValue { expiration: Some(d), .. }) => assert!(d > 1_600_000_000_000),
        other => panic!("unexpected {:?}", other),
    }
}

#[test]
fn negative_px_is_int_failure() {
    let value = RespValue::Array(vec![
        RespValue::BulkString(b"SET"),
        RespValue::BulkString(b"k"),
        RespValue::BulkString(b"v"),
        RespValue::BulkString(b"PX"),
        RespValue::BulkString(b"-5"),
    ]);
    assert!(matches!(
        parse_command_at(&value, 0),
        Err(RedisError::RespParseError(RespError::IntParseFailure(_)))
    ));
}

#[test]
fn keys_and_info_requests() {
    let keys = RespValue::Array(vec![RespValue::BulkString(b"keys"), RespValue::BulkString(b"*")]);
    assert!(matches!(parse_command_at(&keys, 0), Ok(RedisRequest::Keys(b"*"))));
    let info = RespValue::Array(vec![RespValue::BulkString(b"INFO")]);
    assert!(matches!(parse_command_at(&info, 0), Ok(RedisRequest::Info(None))));
    let info = RespValue::Array(vec![
        RespValue::BulkString(b"INFO"),
        RespValue::BulkString(b"replication"),
    ]);
    assert!(matches!(
        parse_command_at(&info, 0),
        Ok(RedisRequest::Info(Some(b"replication")))
    ));
    let info = RespValue::Array(vec![
        RespValue::BulkString(b"INFO"),
        RespValue::BulkString(b"a"),
        RespValue::BulkString(b"b"),
    ]);
    assert!(matches!(
        parse_command_at(&info, 0),
        Err(RedisError::UnexpectedNumberOfArgs(_))
    ));
}

#[test]
fn request_errors() {
    assert!(matches!(
        parse_command_at(&RespValue::SimpleString(b"PING"), 0),
        Err(RedisError::UnknownRequest(_))
    ));
    assert!(matches!(
        parse_command_at(&RespValue::Array(vec![]), 0),
        Err(RedisError::UnknownRequest(_))
    ));
    let v = RespValue::Array(vec![RespValue::SimpleString(b"PING")]);
    assert!(matches!(parse_command_at(&v, 0), Err(RedisError::UnknownRequest(_))));
    let v = RespValue::Array(vec![
        RespValue::BulkString(b"SET"),
        RespValue::BulkString(b"k"),
        RespValue::SimpleString(b"v"),
    ]);
    assert!(matches!(
        parse_command_at(&v, 0),
        Err(RedisError::UnexpectedArgumentType(_))
    ));
    let v = RespValue::Array(vec![RespValue::BulkString(b"SET"), RespValue::BulkString(b"k")]);
    assert!(matches!(
        parse_command_at(&v, 0),
        Err(RedisError::UnexpectedNumberOfArgs(_))
    ));
    let v = RespValue::Array(vec![
        RespValue::BulkString(b"CONFIG"),
        RespValue::BulkString(b"SET"),
        RespValue::BulkString(b"dir"),
    ]);
    assert!(matches!(parse_command_at(&v, 0), Err(RedisError::UnknownRequest(_))));
    let v = RespValue::Array(vec![
        RespValue::BulkString(b"CONFIG"),
        RespValue::BulkString(b"GET"),
        RespValue::SimpleInteger(3),
    ]);
    assert!(matches!(
        parse_command_at(&v, 0),
        Err(RedisError::UnexpectedArgumentType(_))
    ));
}

#[test]
fn first_bad_command_fails_the_batch() {
    let input = b"*1\r\n$4\r\nPING\r\n*1\r\n$3\r\nBAD\r\n*1\r\n$4\r\nPING\r\n";
    assert!(matches!(
        parse_commands_at(input, 0),
        Err(RedisError::UnknownRequest(_))
    ));
    assert!(matches!(
        parse_commands_at(b"*1\r\n$4\r\nPING", 0),
        Err(RedisError::RespParseError(RespError::UnexpectedEnd))
    ));
    assert_eq!(parse_commands_at(b"", 0).unwrap().len(), 0);
}

#[test]
fn uppercase_is_ascii_only() {
    assert_eq!(uppercase(b"pInG-\xe9z"), b"PING-\xe9Z".to_vec());
}

#[test]
fn master_gets_random_alphanumeric_id() {
    let args = RedisArgs { dir: None, dbfilename: None, port: 6379, replicaof: None };
    let info = replication_info_from_args(&args);
    assert_eq!(info.role, RedisRole::Master);
    assert_eq!(info.master_replid.len(), 40);
    assert!(info.master_replid.iter().all(|b| b.is_ascii_alphanumeric()));
    let other = replication_info_from_args(&args);
    assert_ne!(info.master_replid, other.master_replid);
    let args = RedisArgs {
        dir: None,
        dbfilename: None,
        port: 6379,
        replicaof: Some("localhost 6380".to_string()),
    };
    assert_eq!(replication_info_from_args(&args).role, RedisRole::Slave);
}

#[test]
fn config_from_args() {
    let args = RedisArgs {
        dir: Some("/tmp/redis-files".to_string()),
        dbfilename: Some("dump.rdb".to_string()),
        port: -1,
        replicaof: None,
    };
    let config = args.to_config_dict();
    assert_eq!(config.get(b"dir"), Some(&b"/tmp/redis-files".to_vec()));
    assert_eq!(config.get(b"dbfilename"), Some(&b"dump.rdb".to_vec()));
    assert_eq!(config.get(b"port"), Some(&b"-1".to_vec()));
    let args = RedisArgs { dir: None, dbfilename: None, port: 6379, replicaof: None };
    let config = args.to_config_dict();
    assert_eq!(config.get(b"dir"), None);
    assert_eq!(config.get(b"port"), Some(&b"6379".to_vec()));
}

#[test]
fn replication_id_is_the_given_draws() {
    let args = RedisArgs { dir: None, dbfilename: None, port: 6379, replicaof: None };
    let info = replication_info_with_id(&args, b"abc123".to_vec());
    assert_eq!(info.master_replid, b"abc123".to_vec());
    assert_eq!(info.role, RedisRole::Master);
}
