use redis_lite::command::config::Name;
use redis_lite::command::config::Op;
use redis_lite::command::info::InfoKind;
use redis_lite::command::CmdError;
use redis_lite::command::Command;

#[test]
fn test_parse_ping() {
    let args = vec!["PING".to_string()];
    let cmd = Command::parse(args).unwrap();
    assert!(matches!(cmd, Command::Ping));
}

#[test]
fn test_parse_ping_lowercase() {
    let args = vec!["ping".to_string()];
    let cmd = Command::parse(args).unwrap();
    assert!(matches!(cmd, Command::Ping));
}

#[test]
fn test_parse_echo() {
    let args = vec!["ECHO".to_string(), "hello".to_string()];
    let cmd = Command::parse(args).unwrap();
    assert!(matches!(cmd, Command::Echo { name } if name == "hello"));
}

#[test]
fn test_parse_echo_missing_arg() {
    let args = vec!["ECHO".to_string()];
    let result = Command::parse(args);
    assert!(result.is_err());
}

#[test]
fn test_parse_get() {
    let args = vec!["GET".to_string(), "mykey".to_string()];
    let cmd = Command::parse(args).unwrap();
    assert!(matches!(cmd, Command::Get { key } if key == "mykey"));
}

#[test]
fn test_parse_set_without_expiry() {
    let args = vec!["SET".to_string(), "foo".to_string(), "bar".to_string()];
    let cmd = Command::parse(args).unwrap();
    assert!(matches!(cmd, Command::Put { key, value, expiry }
        if key == "foo" && value == "bar" && expiry.is_none()));
}

#[test]
fn test_parse_set_with_px() {
    let args = vec![
        "SET".to_string(),
        "foo".to_string(),
        "bar".to_string(),
        "PX".to_string(),
        "1000".to_string(),
    ];
    let cmd = Command::parse(args).unwrap();
    assert!(matches!(cmd, Command::Put { expiry: Some(d), .. }
        if d == 1000));
}

#[test]
fn test_parse_set_with_ex() {
    let args = vec![
        "SET".to_string(),
        "foo".to_string(),
        "bar".to_string(),
        "EX".to_string(),
        "10".to_string(),
    ];
    let cmd = Command::parse(args).unwrap();
    assert!(matches!(cmd, Command::Put { expiry: Some(d), .. }
        if d == 10 * 1000));
}

#[test]
fn test_parse_unknown_command() {
    let args = vec!["UNKNOWN".to_string()];
    let result = Command::parse(args);
    assert!(result.is_err());
}

#[test]
fn test_parse_empty_args() {
    let args: Vec<String> = vec![];
    let result = Command::parse(args);
    assert!(result.is_err());
}

#[test]
fn test_parse_set_bad_expiry_number() {
    let args = vec![
        "SET".to_string(),
        "k".to_string(),
        "v".to_string(),
        "PX".to_string(),
        "abc".to_string(),
    ];
    assert!(matches!(Command::parse(args), Err(CmdError::BadArgs)));
}

#[test]
fn test_parse_set_expiry_overflow() {
    let args = vec![
        "SET".to_string(),
        "k".to_string(),
        "v".to_string(),
        "PX".to_string(),
        "18446744073709551616".to_string(),
    ];
    assert!(matches!(Command::parse(args), Err(CmdError::BadArgs)));
}

#[test]
fn test_parse_set_unknown_unit_means_no_expiry() {
    let args = vec![
        "SET".to_string(),
        "k".to_string(),
        "v".to_string(),
        "XX".to_string(),
        "10".to_string(),
    ];
    let cmd = Command::parse(args).unwrap();
    assert!(matches!(cmd, Command::Put { expiry, .. } if expiry.is_none()));
}

#[test]
fn test_parse_unknown_command_error_kind() {
    let args = vec!["FLY".to_string()];
    assert!(matches!(Command::parse(args), Err(CmdError::UnknownCommand)));
}

#[test]
fn test_parse_config_get() {
    let args = vec!["CONFIG".to_string(), "GET".to_string(), "dir".to_string()];
    let cmd = Command::parse(args).unwrap();
    assert!(matches!(cmd, Command::Config { op: Op::Get, name: Name::Dir }));
}

#[test]
fn test_parse_config_bad_op() {
    let args = vec!["CONFIG".to_string(), "get".to_string(), "dir".to_string()];
    assert!(matches!(Command::parse(args), Err(CmdError::BadArgs)));
}

#[test]
fn test_parse_keys() {
    let args = vec!["KEYS".to_string(), "f*".to_string()];
    let cmd = Command::parse(args).unwrap();
    assert!(matches!(cmd, Command::Keys { pattern } if pattern == "f*"));
}

#[test]
fn test_parse_info_sections() {
    let all = Command::parse(vec!["INFO".to_string()]).unwrap();
    assert!(matches!(all, Command::Info { kind: InfoKind::All }));
    let repl = Command::parse(vec!["INFO".to_string(), "replication".to_string()]).unwrap();
    assert!(matches!(repl, Command::Info { kind: InfoKind::Replication }));
    let other = Command::parse(vec!["INFO".to_string(), "memory".to_string()]);
    assert!(matches!(other, Err(CmdError::BadArgs)));
}
