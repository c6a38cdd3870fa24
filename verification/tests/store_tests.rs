use redis_lite::store::config::Config;
use redis_lite::store::db::Db;
use redis_lite::store::Store;

#[test]
fn store_test_set_and_get() {
    let mut store = Store::new();
    store.set("foo", "bar", None).unwrap();
    assert_eq!(store.get("foo"), Some("bar".to_string()));
}

#[test]
fn store_test_get_nonexistent_key() {
    let store = Store::new();
    assert_eq!(store.get("missing"), None);
}

#[test]
fn store_test_overwrite_key() {
    let mut store = Store::new();
    store.set("key", "value1", None).unwrap();
    store.set("key", "value2", None).unwrap();
    assert_eq!(store.get("key"), Some("value2".to_string()));
}

#[test]
fn store_test_set_with_expiry_not_expired() {
    let mut store = Store::new();
    store.set("key", "value", Some(10 * 1000)).unwrap();
    assert_eq!(store.get("key"), Some("value".to_string()));
}

#[test]
fn store_test_multiple_keys() {
    let mut store = Store::new();
    store.set("a", "1", None).unwrap();
    store.set("b", "2", None).unwrap();
    store.set("c", "3", None).unwrap();

    assert_eq!(store.get("a"), Some("1".to_string()));
    assert_eq!(store.get("b"), Some("2".to_string()));
    assert_eq!(store.get("c"), Some("3".to_string()));
}

#[test]
fn store_test_expiry_boundaries_at_fixed_instants() {
    let mut store = Store::new();
    store.set_at("k", "v", Some(10), 1000).unwrap();
    assert_eq!(store.get_at("k", 1000), Some("v".to_string()));
    assert_eq!(store.get_at("k", 1009), Some("v".to_string()));
    assert_eq!(store.get_at("k", 1010), None);
    assert_eq!(store.get_at("k", 1050), None);
}

#[test]
fn db_test_set_and_get() {
    let mut db = Db::new();
    db.set("foo", "bar", None).unwrap();
    assert_eq!(db.get("foo"), Some("bar".to_string()));
}

#[test]
fn db_test_get_nonexistent_key() {
    let db = Db::new();
    assert_eq!(db.get("missing"), None);
}

#[test]
fn db_test_overwrite_key() {
    let mut db = Db::new();
    db.set("key", "value1", None).unwrap();
    db.set("key", "value2", None).unwrap();
    assert_eq!(db.get("key"), Some("value2".to_string()));
}

#[test]
fn db_test_set_with_expiry_not_expired() {
    let now = std::time::SystemTime::now()
        .duration_since(std::time::UNIX_EPOCH)
        .unwrap()
        .as_millis() as u64;
    let mut db = Db::new();
    db.set("key", "value", Some(now + 10 * 1000)).unwrap();
    assert_eq!(db.get("key"), Some("value".to_string()));
}

#[test]
fn db_test_multiple_keys() {
    let mut db = Db::new();
    db.set("a", "1", None).unwrap();
    db.set("b", "2", None).unwrap();
    db.set("c", "3", None).unwrap();

    assert_eq!(db.get("a"), Some("1".to_string()));
    assert_eq!(db.get("b"), Some("2".to_string()));
    assert_eq!(db.get("c"), Some("3".to_string()));
}

#[test]
fn test_keys_fn() {
    let mut db = Db::new();
    db.set("foo", "1", None).unwrap();
    db.set("bar", "2", None).unwrap();
    db.set("cat", "3", None).unwrap();

    let mut result = db.keys("*");
    result.sort();
    assert_eq!(result, vec!["bar", "cat", "foo"]);

    let mut result = db.keys("f*");
    result.sort();
    assert_eq!(result, vec!["foo"]);

    let mut result = db.keys("*a*");
    result.sort();
    assert_eq!(result, vec!["bar", "cat"]);
}

#[test]
fn test_keys_question_mark_and_class() {
    let mut db = Db::new();
    db.set("cat", "1", None).unwrap();
    db.set("cut", "2", None).unwrap();
    db.set("cart", "3", None).unwrap();

    let mut result = db.keys("c?t");
    result.sort();
    assert_eq!(result, vec!["cat", "cut"]);

    let mut result = db.keys("c[au]t");
    result.sort();
    assert_eq!(result, vec!["cat", "cut"]);

    let result = db.keys("c[x]t");
    assert!(result.is_empty());
}

#[test]
fn test_keys_bad_pattern_yields_empty() {
    let mut db = Db::new();
    db.set("foo", "1", None).unwrap();
    let result = db.keys("[");
    assert!(result.is_empty());
}

#[test]
fn test_keys_lists_expired_records_too() {
    let mut db = Db::new();
    db.set("gone", "1", Some(1)).unwrap();
    db.set("here", "2", None).unwrap();
    let mut result = db.keys("*");
    result.sort();
    assert_eq!(result, vec!["gone", "here"]);
}

#[test]
fn db_test_expiry_masked_at_fixed_instants() {
    let mut db = Db::new();
    db.set("k", "v", Some(1010)).unwrap();
    assert_eq!(db.get_at("k", 1009), Some("v".to_string()));
    assert_eq!(db.get_at("k", 1010), None);
}

#[test]
fn test_config_accessors() {
    let config = Config::new("/tmp/data", "dump.rdb", "203.0.113.9:6379");
    assert_eq!(config.dir(), "/tmp/data");
    assert_eq!(config.db_file_name(), "dump.rdb");
    assert_eq!(config.replica_of(), "203.0.113.9:6379");
}

#[test]
fn test_store_from_config_keeps_settings() {
    let store = Store::from_config(Config::new("/x", "y.rdb", ""));
    assert_eq!(store.config.dir(), "/x");
    assert_eq!(store.config.db_file_name(), "y.rdb");
    assert_eq!(store.config.replica_of(), "");
}
