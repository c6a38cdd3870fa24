use redis_lite::resp::Resp;
use redis_lite::text::eq_lowered;
use redis_lite::text::i64_to_dec_string;
use redis_lite::text::parse_u64;
use redis_lite::text::str_eq;
use redis_lite::text::u64_to_dec_string;

#[test]
fn test_decimal_rendering() {
    assert_eq!(u64_to_dec_string(0), "0");
    assert_eq!(u64_to_dec_string(7), "7");
    assert_eq!(u64_to_dec_string(1090), "1090");
    assert_eq!(u64_to_dec_string(u64::MAX), "18446744073709551615");
    assert_eq!(i64_to_dec_string(-1234), "-1234");
    assert_eq!(i64_to_dec_string(0), "0");
    assert_eq!(i64_to_dec_string(i64::MIN), "-9223372036854775808");
}

#[test]
fn test_decimal_parsing() {
    assert_eq!(parse_u64("0"), Some(0));
    assert_eq!(parse_u64("007"), Some(7));
    assert_eq!(parse_u64("18446744073709551615"), Some(u64::MAX));
    assert_eq!(parse_u64("18446744073709551616"), None);
    assert_eq!(parse_u64(""), None);
    assert_eq!(parse_u64("+5"), None);
    assert_eq!(parse_u64("12a"), None);
}

#[test]
fn test_string_comparisons() {
    assert!(str_eq("abc", "abc"));
    assert!(!str_eq("abc", "abd"));
    assert!(!str_eq("abc", "abcd"));
    assert!(str_eq("", ""));
    assert!(eq_lowered("PING", "ping"));
    assert!(eq_lowered("PiNg", "ping"));
    assert!(!eq_lowered("PINGS", "ping"));
    assert!(!eq_lowered("ping", "PING"));
}

#[test]
fn test_reply_helpers() {
    assert_eq!(Resp::bulk("hi").encode(), "$2\r\nhi\r\n");
    assert_eq!(Resp::error("ERR oops").encode(), "-ERR oops\r\n");
    let r = Resp::array(vec!["dir".to_string(), "/x".to_string()]);
    assert_eq!(r.encode(), "*2\r\n$3\r\ndir\r\n$2\r\n/x\r\n");
    let empty = Resp::array(Vec::new());
    assert_eq!(empty.encode(), "*0\r\n");
}
