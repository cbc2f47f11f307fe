use replicant::kv::{Command, KeyValue};
use replicant::kvstore::KVStore;
use replicant::memkvstore::MemKVStore;

fn kv(key: &str, value: &str) -> KeyValue {
    KeyValue { key: key.to_string(), value: value.to_string(), client_id: 1 }
}

fn read(store: &mut MemKVStore, key: &str) -> String {
    store.execute(Command::Get(kv(key, ""))).0
}

#[test]
fn law_get_after_put() {
    let mut store = MemKVStore::new();
    store.execute(Command::Put(kv("k", "v")));
    assert_eq!(read(&mut store, "k"), "v");
}

#[test]
fn law_get_after_delete() {
    let mut store = MemKVStore::new();
    store.execute(Command::Put(kv("k", "v")));
    store.execute(Command::Delete(kv("k", "")));
    assert_eq!(read(&mut store, "k"), "");
}

#[test]
fn law_write_leaves_other_keys() {
    let mut store = MemKVStore::new();
    store.execute(Command::Put(kv("other", "o")));
    store.execute(Command::Put(kv("k", "v")));
    store.execute(Command::Delete(kv("k", "")));
    assert_eq!(read(&mut store, "other"), "o");
}

#[test]
fn law_put_overwrites() {
    let mut store = MemKVStore::new();
    store.execute(Command::Put(kv("k", "first")));
    store.execute(Command::Put(kv("k", "second")));
    assert_eq!(read(&mut store, "k"), "second");
}

#[test]
fn law_delete_idempotent() {
    let mut store = MemKVStore::new();
    store.execute(Command::Put(kv("k", "v")));
    assert_eq!(store.execute(Command::Delete(kv("k", ""))).0, "");
    assert_eq!(store.execute(Command::Delete(kv("k", ""))).0, "");
    assert_eq!(read(&mut store, "k"), "");
}

#[test]
fn law_distinct_writes_commute() {
    let mut one = MemKVStore::new();
    one.execute(Command::Put(kv("a", "1")));
    one.execute(Command::Delete(kv("b", "")));
    one.execute(Command::Put(kv("b", "2")));
    let mut two = MemKVStore::new();
    two.execute(Command::Put(kv("b", "2")));
    two.execute(Command::Put(kv("a", "1")));
    assert_eq!(read(&mut one, "a"), read(&mut two, "a"));
    assert_eq!(read(&mut one, "b"), read(&mut two, "b"));
}

#[test]
fn law_get_is_read_only() {
    let mut store = MemKVStore::new();
    store.execute(Command::Put(kv("k", "v")));
    store.execute(Command::Get(kv("k", "not written")));
    store.execute(Command::Get(kv("absent", "not written")));
    assert_eq!(store.get("k"), "v");
    assert_eq!(store.get("absent"), "");
}

#[test]
fn law_get_after_put_and_run_on_other_keys() {
    let mut store = MemKVStore::new();
    store.execute(Command::Put(kv("k", "v")));
    store.execute(Command::Put(kv("x", "1")));
    store.execute(Command::Delete(kv("y", "")));
    store.execute(Command::Get(kv("k", "")));
    assert_eq!(read(&mut store, "k"), "v");
}

#[test]
fn law_get_after_delete_and_run_without_put() {
    let mut store = MemKVStore::new();
    store.execute(Command::Put(kv("k", "v")));
    store.execute(Command::Delete(kv("k", "")));
    store.execute(Command::Put(kv("x", "1")));
    store.execute(Command::Delete(kv("k", "")));
    assert_eq!(read(&mut store, "k"), "");
}

#[test]
fn law_cursor_follows_nondecreasing_decided_index() {
    let mut cursor = replicant::replicant::DecidedCursor::new();
    for decided in [0u64, 3, 3, 8, 12] {
        cursor.advance(decided);
        assert_eq!(cursor.last_decided_idx(), decided);
    }
}

#[test]
fn command_clone_keeps_fields() {
    let c = Command::Put(kv("k", "v"));
    let d = c.clone();
    let mut store = MemKVStore::new();
    store.execute(d);
    assert_eq!(store.get("k"), "v");
    assert_eq!(c.client_id(), 1);
}
