use redis_lite::rdb_parser::LengthEncoding;
use redis_lite::rdb_parser::RDBParser;
use redis_lite::rdb_parser::RdbError;
use redis_lite::store::db::Db;

fn length_string(s: &str) -> Vec<u8> {
    let mut out: Vec<u8> = Vec::new();
    out.push(s.len() as u8);
    out.extend_from_slice(s.as_bytes());
    out
}

fn snapshot_bytes(pairs: &[(&str, &str)]) -> Vec<u8> {
    let mut out: Vec<u8> = Vec::new();
    out.extend_from_slice(b"REDIS0011");
    out.push(0xFE);
    out.push(0x00);
    out.push(0xFB);
    out.push(pairs.len() as u8);
    out.push(0x00);
    for (k, v) in pairs {
        out.push(0x00);
        out.extend_from_slice(&length_string(k));
        out.extend_from_slice(&length_string(v));
    }
    out.push(0xFF);
    out
}

#[test]
fn test_length_six_bit() {
    let mut p = RDBParser::new(vec![0x0D]);
    assert_eq!(p.read_length_or_int().unwrap(), LengthEncoding::Length(13));
}

#[test]
fn test_length_fourteen_bit() {
    let mut p = RDBParser::new(vec![0x41, 0x02]);
    assert_eq!(p.read_length_or_int().unwrap(), LengthEncoding::Length(258));
}

#[test]
fn test_length_four_byte_big_endian() {
    let mut p = RDBParser::new(vec![0x80, 0x00, 0x01, 0x00, 0x00]);
    assert_eq!(
        p.read_length_or_int().unwrap(),
        LengthEncoding::Length(65536)
    );
}

#[test]
fn test_integer_one_byte() {
    let mut p = RDBParser::new(vec![0xC0, 0xFE]);
    assert_eq!(p.read_length_or_int().unwrap(), LengthEncoding::Integer(-2));
    let mut q = RDBParser::new(vec![0xC0, 0x7B]);
    assert_eq!(q.read_length_or_int().unwrap(), LengthEncoding::Integer(123));
}

#[test]
fn test_integer_two_byte_little_endian() {
    let mut p = RDBParser::new(vec![0xC1, 0x2E, 0xFB]);
    assert_eq!(
        p.read_length_or_int().unwrap(),
        LengthEncoding::Integer(-1234)
    );
    let mut q = RDBParser::new(vec![0xC1, 0x39, 0x30]);
    assert_eq!(
        q.read_length_or_int().unwrap(),
        LengthEncoding::Integer(12345)
    );
}

#[test]
fn test_integer_four_byte_little_endian() {
    let mut p = RDBParser::new(vec![0xC2, 0x15, 0xCD, 0x5B, 0x07]);
    assert_eq!(
        p.read_length_or_int().unwrap(),
        LengthEncoding::Integer(123456789)
    );
    let mut q = RDBParser::new(vec![0xC2, 0xFF, 0xFF, 0xFF, 0xFF]);
    assert_eq!(q.read_length_or_int().unwrap(), LengthEncoding::Integer(-1));
}

#[test]
fn test_unknown_special_encoding() {
    let mut p = RDBParser::new(vec![0xC3, 0x00]);
    assert!(matches!(
        p.read_length_or_int(),
        Err(RdbError::UnknownSpecialEncoding)
    ));
}

#[test]
fn test_read_string_plain() {
    let mut p = RDBParser::new(length_string("hello"));
    assert_eq!(p.read_string().unwrap(), "hello");
}

#[test]
fn test_read_string_integer_form() {
    let mut p = RDBParser::new(vec![0xC1, 0x2E, 0xFB]);
    assert_eq!(p.read_string().unwrap(), "-1234");
}

#[test]
fn test_parse_snapshot_round_trip() {
    let pairs = [("alpha", "1"), ("beta", "two"), ("gamma", "ratio")];
    let mut p = RDBParser::new(snapshot_bytes(&pairs));
    let rdb = p.parse().unwrap();
    let mut db = Db::new();
    rdb.apply_to(&mut db);
    for (k, v) in pairs {
        assert_eq!(db.get(k), Some(v.to_string()));
    }
    assert_eq!(db.get("delta"), None);
}

#[test]
fn test_parse_snapshot_with_metadata() {
    let mut bytes: Vec<u8> = Vec::new();
    bytes.extend_from_slice(b"REDIS0011");
    bytes.push(0xFA);
    bytes.extend_from_slice(&length_string("redis-ver"));
    bytes.extend_from_slice(&length_string("7.2.0"));
    bytes.push(0xFF);
    let mut p = RDBParser::new(bytes);
    assert!(p.parse().is_ok());
}

#[test]
fn test_parse_empty_input_truncated() {
    let mut p = RDBParser::new(Vec::new());
    assert!(matches!(p.parse(), Err(RdbError::Truncated)));
}

#[test]
fn test_parse_unexpected_marker() {
    let mut bytes: Vec<u8> = Vec::new();
    bytes.extend_from_slice(b"REDIS0011");
    bytes.push(0x42);
    let mut p = RDBParser::new(bytes);
    assert!(matches!(p.parse(), Err(RdbError::UnexpectedByte)));
}

#[test]
fn test_parse_invalid_utf8_value() {
    let mut bytes: Vec<u8> = Vec::new();
    bytes.extend_from_slice(b"REDIS0011");
    bytes.push(0xFA);
    bytes.push(0x01);
    bytes.push(0xFF);
    bytes.extend_from_slice(&length_string("x"));
    bytes.push(0xFF);
    let mut p = RDBParser::new(bytes);
    assert!(matches!(p.parse(), Err(RdbError::InvalidUtf8)));
}

#[test]
fn test_parse_missing_end_marker() {
    let mut bytes: Vec<u8> = Vec::new();
    bytes.extend_from_slice(b"REDIS0011");
    let mut p = RDBParser::new(bytes);
    assert!(matches!(p.parse(), Err(RdbError::Truncated)));
}

#[test]
fn test_read_exact_and_byte() {
    let mut p = RDBParser::new(vec![1, 2, 3]);
    assert_eq!(p.read_byte().unwrap(), 1);
    assert_eq!(p.read_exact(2).unwrap(), vec![2, 3]);
    assert!(matches!(p.read_byte(), Err(RdbError::Truncated)));
}

#[test]
fn test_snapshot_duplicate_key_last_wins() {
    let pairs = [("k", "first"), ("k", "second")];
    let mut p = RDBParser::new(snapshot_bytes(&pairs));
    let rdb = p.parse().unwrap();
    let mut db = Db::new();
    rdb.apply_to(&mut db);
    assert_eq!(db.get("k"), Some("second".to_string()));
}
