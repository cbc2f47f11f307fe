use replicant::kv::{Command, KeyValue};
use replicant::kvstore::KVStore;
use replicant::memkvstore::MemKVStore;
use replicant::peer::frame_line;
use replicant::replicant::{
    client_port, route_outgoing, update_database, DecidedCursor, DecidedEntry, ReplicaConfig,
};

fn config(id: i64, n: usize) -> ReplicaConfig {
    ReplicaConfig {
        id,
        peers: (0..n).map(|i| format!("127.0.0.1:{}", 10000 + 2 * i)).collect(),
        snapshot_interval: 100,
    }
}

fn kv(key: &str, value: &str, client_id: i64) -> KeyValue {
    KeyValue { key: key.to_string(), value: value.to_string(), client_id }
}

#[test]
fn local_address_is_own_peer_entry() {
    assert_eq!(config(1, 3).local_address(), "127.0.0.1:10002");
}

#[test]
fn paxos_setup_of_three_nodes() {
    let setup = config(2, 3).paxos_setup();
    assert_eq!(setup.pid, 3);
    assert_eq!(setup.nodes, vec![1, 2, 3]);
    assert_eq!(setup.configuration_id, 1);
    assert_eq!(setup.election_tick_timeout, 15);
}

#[test]
fn paxos_setup_single_node() {
    let setup = config(0, 1).paxos_setup();
    assert_eq!(setup.pid, 1);
    assert_eq!(setup.nodes, vec![1]);
}

#[test]
fn client_port_is_next_port() {
    assert_eq!(client_port(10000), 10001);
    assert_eq!(client_port(65534), 65535);
}

#[test]
fn routing_skips_self() {
    assert_eq!(route_outgoing(2, 1, 3), None);
    assert_eq!(route_outgoing(1, 1, 3), Some(0));
    assert_eq!(route_outgoing(3, 1, 3), Some(2));
}

#[test]
fn cursor_reads_each_index_once() {
    let mut cursor = DecidedCursor::new();
    assert_eq!(cursor.last_decided_idx(), 0);
    assert_eq!(cursor.advance(0), None);
    assert_eq!(cursor.advance(4), Some(0));
    assert_eq!(cursor.last_decided_idx(), 4);
    assert_eq!(cursor.advance(4), None);
    assert_eq!(cursor.advance(2), None);
    assert_eq!(cursor.last_decided_idx(), 4);
    assert_eq!(cursor.advance(9), Some(4));
    assert_eq!(cursor.last_decided_idx(), 9);
}

#[test]
fn update_database_applies_decided_in_order() {
    let mut store = MemKVStore::new();
    let entries = vec![
        DecidedEntry::Decided(Command::Put(kv("a", "1", 10))),
        DecidedEntry::Undecided(Command::Put(kv("a", "x", 11))),
        DecidedEntry::Trimmed,
        DecidedEntry::Decided(Command::Get(kv("a", "", 12))),
        DecidedEntry::Snapshotted,
        DecidedEntry::Decided(Command::Put(kv("a", "2", 13))),
        DecidedEntry::StopSign,
        DecidedEntry::Decided(Command::Get(kv("a", "", 14))),
        DecidedEntry::Decided(Command::Delete(kv("a", "", 15))),
    ];
    let replies = update_database(&mut store, entries);
    assert_eq!(
        replies,
        vec![
            (String::new(), 10),
            ("1".to_string(), 12),
            (String::new(), 13),
            ("2".to_string(), 14),
            (String::new(), 15),
        ]
    );
    assert_eq!(store.get("a"), "");
}

#[test]
fn update_database_without_decided_entries() {
    let mut store = MemKVStore::new();
    let replies = update_database(
        &mut store,
        vec![DecidedEntry::Undecided(Command::Put(kv("a", "1", 1))), DecidedEntry::Trimmed],
    );
    assert!(replies.is_empty());
    assert_eq!(store.get("a"), "");
}

#[test]
fn frame_appends_newline() {
    assert_eq!(frame_line(b"{\"x\":1}".to_vec()), b"{\"x\":1}\n".to_vec());
    assert_eq!(frame_line(Vec::new()), vec![b'\n']);
}

#[test]
fn replicas_applying_same_log_agree() {
    let log = || {
        vec![
            DecidedEntry::Decided(Command::Put(kv("a", "1", 1))),
            DecidedEntry::Decided(Command::Put(kv("b", "2", 2))),
            DecidedEntry::Decided(Command::Delete(kv("a", "", 3))),
            DecidedEntry::Decided(Command::Get(kv("b", "", 4))),
        ]
    };
    let mut first = MemKVStore::new();
    let mut second = MemKVStore::new();
    let r1 = update_database(&mut first, log());
    let r2 = update_database(&mut second, log());
    assert_eq!(r1, r2);
    assert_eq!(first.get("a"), second.get("a"));
    assert_eq!(first.get("b"), "2");
    assert_eq!(second.get("b"), "2");
}

#[test]
fn applying_log_in_batches_matches_applying_it_at_once() {
    let log = || {
        vec![
            DecidedEntry::Decided(Command::Put(kv("a", "1", 1))),
            DecidedEntry::Decided(Command::Get(kv("a", "", 2))),
            DecidedEntry::Decided(Command::Put(kv("a", "2", 3))),
            DecidedEntry::Decided(Command::Get(kv("a", "", 4))),
        ]
    };
    let mut whole = MemKVStore::new();
    let all = update_database(&mut whole, log());
    let mut batched = MemKVStore::new();
    let mut entries = log();
    let second = entries.split_off(2);
    let mut replies = update_database(&mut batched, entries);
    replies.extend(update_database(&mut batched, second));
    assert_eq!(replies, all);
    assert_eq!(whole.get("a"), batched.get("a"));
    assert_eq!(batched.get("a"), "2");
}
