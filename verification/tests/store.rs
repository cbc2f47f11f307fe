use replicant::kv::{Command, KeyValue};
use replicant::kvstore::{store_kind, KVStore, KVStoreError, StoreKind};
use replicant::memkvstore::MemKVStore;
use replicant::rocksdbstore::reply_for_read;

fn kv(key: &str, value: &str, client_id: i64) -> KeyValue {
    KeyValue { key: key.to_string(), value: value.to_string(), client_id }
}

#[test]
fn get_of_missing_key_is_empty() {
    let store = MemKVStore::new();
    assert_eq!(store.get("absent"), "");
}

#[test]
fn get_after_put_returns_value() {
    let mut store = MemKVStore::new();
    assert!(store.put("a", "1"));
    assert_eq!(store.get("a"), "1");
    assert_eq!(store.get("b"), "");
}

#[test]
fn later_put_wins() {
    let mut store = MemKVStore::new();
    assert!(store.put("a", "1"));
    assert!(store.put("a", "2"));
    assert_eq!(store.get("a"), "2");
}

#[test]
fn del_reports_presence() {
    let mut store = MemKVStore::new();
    store.put("a", "1");
    assert!(store.del("a"));
    assert_eq!(store.get("a"), "");
    assert!(!store.del("a"));
}

#[test]
fn del_leaves_other_keys() {
    let mut store = MemKVStore::new();
    store.put("a", "1");
    store.put("b", "2");
    store.del("a");
    assert_eq!(store.get("b"), "2");
}

#[test]
fn execute_put_get_delete() {
    let mut store = MemKVStore::new();
    assert_eq!(store.execute(Command::Put(kv("k", "v", 7))), (String::new(), 7));
    assert_eq!(store.execute(Command::Get(kv("k", "ignored", 8))), ("v".to_string(), 8));
    assert_eq!(store.execute(Command::Delete(kv("k", "", 9))), (String::new(), 9));
    assert_eq!(store.execute(Command::Get(kv("k", "", -3))), (String::new(), -3));
}

#[test]
fn execute_get_does_not_write() {
    let mut store = MemKVStore::new();
    store.execute(Command::Get(kv("k", "v", 1)));
    assert_eq!(store.get("k"), "");
}

#[test]
fn command_client_id() {
    assert_eq!(Command::Delete(kv("x", "y", 42)).client_id(), 42);
}

#[test]
fn store_kinds() {
    assert_eq!(store_kind("rocksdb"), Some(StoreKind::RocksDb));
    assert_eq!(store_kind("mem"), Some(StoreKind::Mem));
    assert_eq!(store_kind("memory"), None);
    assert_eq!(store_kind(""), None);
}

#[test]
fn error_messages() {
    assert_eq!(KVStoreError::NotFoundError.message(), "key not found");
    assert_eq!(KVStoreError::PutFailedError.message(), "put failed");
}

#[test]
fn read_reply_found() {
    assert_eq!(reply_for_read(Ok(Some(b"hello".to_vec()))), "hello");
    assert_eq!(reply_for_read(Ok(Some("h\u{e9}".as_bytes().to_vec()))), "h\u{e9}");
}

#[test]
fn read_reply_missing_invalid_failed() {
    assert_eq!(reply_for_read(Ok(None)), "");
    assert_eq!(reply_for_read(Ok(Some(vec![0xff, 0xfe]))), "");
    assert_eq!(reply_for_read(Err(())), "");
}
