use redis_lite::connection::handle_frame;
use redis_lite::rdb_parser::RDBParser;
use redis_lite::resp::RespError;
use redis_lite::store::config::Config;
use redis_lite::store::Store;

#[test]
fn test_ping_frame() {
    let mut store = Store::new();
    let reply = handle_frame(&mut store, b"*1\r\n$4\r\nPING\r\n").unwrap();
    assert_eq!(reply, "+PONG\r\n");
}

#[test]
fn test_echo_frame() {
    let mut store = Store::new();
    let reply = handle_frame(&mut store, b"*2\r\n$4\r\nECHO\r\n$5\r\nhello\r\n").unwrap();
    assert_eq!(reply, "$5\r\nhello\r\n");
}

#[test]
fn test_set_then_get_frames() {
    let mut store = Store::new();
    let set_reply = handle_frame(&mut store, b"*3\r\n$3\r\nSET\r\n$3\r\nfoo\r\n$3\r\nbar\r\n")
        .unwrap();
    assert_eq!(set_reply, "+OK\r\n");
    let get_reply = handle_frame(&mut store, b"*2\r\n$3\r\nGET\r\n$3\r\nfoo\r\n").unwrap();
    assert_eq!(get_reply, "$3\r\nbar\r\n");
}

#[test]
fn test_set_with_lifetime_masked_after_deadline() {
    let mut store = Store::new();
    let set_reply = handle_frame(
        &mut store,
        b"*5\r\n$3\r\nSET\r\n$1\r\nk\r\n$1\r\nv\r\n$2\r\nPX\r\n$2\r\n10\r\n",
    )
    .unwrap();
    assert_eq!(set_reply, "+OK\r\n");
    // The frames above wrote `k` with a lifetime of 10 milliseconds; a
    // read 50 milliseconds later must see the null bulk string. The
    // deadline is checked against explicit instants instead of waiting.
    let mut fixed = Store::new();
    fixed.set_at("k", "v", Some(10), 1000).unwrap();
    assert_eq!(fixed.get_at("k", 1050), None);
    assert_eq!(fixed.get_at("k", 1005), Some("v".to_string()));
}

#[test]
fn test_config_get_dir_frame() {
    let mut store = Store::from_config(Config::new("/x", "y.rdb", ""));
    let reply = handle_frame(&mut store, b"*3\r\n$6\r\nCONFIG\r\n$3\r\nGET\r\n$3\r\ndir\r\n")
        .unwrap();
    assert_eq!(reply, "*2\r\n$3\r\ndir\r\n$2\r\n/x\r\n");
}

#[test]
fn test_config_get_dbfilename_frame() {
    let mut store = Store::from_config(Config::new("/x", "y.rdb", ""));
    let reply = handle_frame(
        &mut store,
        b"*3\r\n$6\r\nCONFIG\r\n$3\r\nGET\r\n$10\r\ndbfilename\r\n",
    )
    .unwrap();
    assert_eq!(reply, "*2\r\n$10\r\ndbfilename\r\n$5\r\ny.rdb\r\n");
}

#[test]
fn test_config_set_is_a_no_op() {
    let mut store = Store::from_config(Config::new("/x", "y.rdb", ""));
    let reply = handle_frame(
        &mut store,
        b"*4\r\n$6\r\nCONFIG\r\n$3\r\nSET\r\n$3\r\ndir\r\n$2\r\n/z\r\n",
    )
    .unwrap();
    assert_eq!(reply, "$-1\r\n");
    let read_back = handle_frame(&mut store, b"*3\r\n$6\r\nCONFIG\r\n$3\r\nGET\r\n$3\r\ndir\r\n")
        .unwrap();
    assert_eq!(read_back, "*2\r\n$3\r\ndir\r\n$2\r\n/x\r\n");
}

#[test]
fn test_keys_after_snapshot_load() {
    let mut bytes: Vec<u8> = Vec::new();
    bytes.extend_from_slice(b"REDIS0011");
    bytes.push(0xFE);
    bytes.push(0x00);
    bytes.push(0xFB);
    bytes.push(3);
    bytes.push(0x00);
    for (k, v) in [("foo", "1"), ("bar", "2"), ("cat", "3")] {
        bytes.push(0x00);
        bytes.push(k.len() as u8);
        bytes.extend_from_slice(k.as_bytes());
        bytes.push(v.len() as u8);
        bytes.extend_from_slice(v.as_bytes());
    }
    bytes.push(0xFF);

    let mut parser = RDBParser::new(bytes);
    let rdb = parser.parse().unwrap();
    let mut store = Store::new();
    rdb.apply_to(&mut store.db);

    let reply = handle_frame(&mut store, b"*2\r\n$4\r\nKEYS\r\n$2\r\nf*\r\n").unwrap();
    assert_eq!(reply, "*1\r\n$3\r\nfoo\r\n");
}

#[test]
fn test_keys_unreadable_pattern_is_empty_array() {
    let mut store = Store::new();
    store.set("foo", "1", None).unwrap();
    let reply = handle_frame(&mut store, b"*2\r\n$4\r\nKEYS\r\n$1\r\n[\r\n").unwrap();
    assert_eq!(reply, "*0\r\n");
}

#[test]
fn test_info_replication_roles() {
    let mut master = Store::from_config(Config::new("", "", ""));
    let reply = handle_frame(&mut master, b"*2\r\n$4\r\nINFO\r\n$11\r\nreplication\r\n")
        .unwrap();
    assert_eq!(reply, "$11\r\nrole:master\r\n");
    assert!(reply.contains("role:master"));

    let mut replica = Store::from_config(Config::new("", "", "localhost 6380"));
    let reply = handle_frame(&mut replica, b"*2\r\n$4\r\nINFO\r\n$11\r\nreplication\r\n")
        .unwrap();
    assert_eq!(reply, "$10\r\nrole:slave\r\n");
    assert!(!reply.contains("role:master"));
}

#[test]
fn test_unparseable_command_gets_generic_error() {
    let mut store = Store::new();
    let reply = handle_frame(&mut store, b"*1\r\n$4\r\nWHAT\r\n").unwrap();
    assert_eq!(reply, "-Something went wrong\r\n");
}

#[test]
fn test_framing_failure_ends_session() {
    let mut store = Store::new();
    let r = handle_frame(&mut store, b"+OK\r\n");
    assert!(matches!(r, Err(RespError::UnsupportedRespType)));
    let r = handle_frame(&mut store, b"*1\r\n$4\r\nPI");
    assert!(matches!(r, Err(RespError::MalformedFrame)));
}

#[test]
fn test_get_missing_key_is_null_bulk() {
    let mut store = Store::new();
    let reply = handle_frame(&mut store, b"*2\r\n$3\r\nGET\r\n$7\r\nmissing\r\n").unwrap();
    assert_eq!(reply, "$-1\r\n");
}
