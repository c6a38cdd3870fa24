use redis_lite::resp::Resp;
use redis_lite::resp::RespError;

#[test]
fn test_encode_simple_string() {
    let resp = Resp::SimpleString("OK".to_string());
    assert_eq!(resp.encode(), "+OK\r\n");
}

#[test]
fn test_encode_simple_error() {
    let resp = Resp::SimpleError("ERR unknown".to_string());
    assert_eq!(resp.encode(), "-ERR unknown\r\n");
}

#[test]
fn test_encode_bulk_string() {
    let resp = Resp::BulkString(Some("hello".to_string()));
    assert_eq!(resp.encode(), "$5\r\nhello\r\n");
}

#[test]
fn test_encode_null_bulk_string() {
    let resp = Resp::BulkString(None);
    assert_eq!(resp.encode(), "$-1\r\n");
}

#[test]
fn test_ok_helper() {
    assert_eq!(Resp::ok().encode(), "+OK\r\n");
}

#[test]
fn test_null_helper() {
    assert_eq!(Resp::null().encode(), "$-1\r\n");
}

#[test]
fn test_decode_single_element_array() {
    let input = "*1\r\n$4\r\nPING\r\n";
    let result = Resp::decode(input.as_bytes()).unwrap();
    assert_eq!(result, vec!["PING"]);
}

#[test]
fn test_decode_two_element_array() {
    let input = "*2\r\n$4\r\nECHO\r\n$5\r\nhello\r\n";
    let result = Resp::decode(input.as_bytes()).unwrap();
    assert_eq!(result, vec!["ECHO", "hello"]);
}

#[test]
fn test_decode_set_command() {
    let input = "*3\r\n$3\r\nSET\r\n$3\r\nfoo\r\n$3\r\nbar\r\n";
    let result = Resp::decode(input.as_bytes()).unwrap();
    assert_eq!(result, vec!["SET", "foo", "bar"]);
}

#[test]
fn test_decode_invalid_type() {
    let input = "+OK\r\n";
    let result = Resp::decode(input.as_bytes());
    assert!(result.is_err());
}

#[test]
fn test_encode_array() {
    let resp = Resp::Array(vec![
        Resp::BulkString(Some("a".to_string())),
        Resp::BulkString(Some("bc".to_string())),
    ]);
    assert_eq!(resp.encode(), "*2\r\n$1\r\na\r\n$2\r\nbc\r\n");
}

#[test]
fn test_encode_empty_bulk_string() {
    let resp = Resp::BulkString(Some("".to_string()));
    assert_eq!(resp.encode(), "$0\r\n\r\n");
}

#[test]
fn test_encode_bulk_string_multibyte_length() {
    let resp = Resp::BulkString(Some("f\u{fc}r".to_string()));
    assert_eq!(resp.encode(), "$4\r\nf\u{fc}r\r\n");
}

#[test]
fn test_decode_encode_round_trip() {
    let args = vec!["SET".to_string(), "f\u{fc}r".to_string(), "".to_string()];
    let resp = Resp::Array(vec![
        Resp::BulkString(Some(args[0].clone())),
        Resp::BulkString(Some(args[1].clone())),
        Resp::BulkString(Some(args[2].clone())),
    ]);
    let encoded = resp.encode();
    let decoded = Resp::decode(encoded.as_bytes()).unwrap();
    assert_eq!(decoded, args);
}

#[test]
fn test_decode_payload_with_embedded_line_break() {
    let input = "*1\r\n$6\r\na\r\nb\r\n\r\n";
    let result = Resp::decode(input.as_bytes()).unwrap();
    assert_eq!(result, vec!["a\r\nb\r\n"]);
}

#[test]
fn test_decode_truncated_frame() {
    let input = "*2\r\n$4\r\nECHO\r\n$5\r\nhel";
    assert!(matches!(
        Resp::decode(input.as_bytes()),
        Err(RespError::MalformedFrame)
    ));
}

#[test]
fn test_decode_bad_count() {
    let input = "*x\r\n$4\r\nPING\r\n";
    assert!(matches!(
        Resp::decode(input.as_bytes()),
        Err(RespError::MalformedFrame)
    ));
}

#[test]
fn test_decode_unsupported_type_error_kind() {
    assert!(matches!(
        Resp::decode("-ERR\r\n".as_bytes()),
        Err(RespError::UnsupportedRespType)
    ));
}

#[test]
fn test_decode_invalid_utf8_payload() {
    let input: Vec<u8> = vec![
        b'*', b'1', b'\r', b'\n', b'$', b'1', b'\r', b'\n', 0xFF, b'\r', b'\n',
    ];
    assert!(matches!(
        Resp::decode(&input),
        Err(RespError::MalformedFrame)
    ));
}
