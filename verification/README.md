# replicant

A key-value store replicated with OmniPaxos. Clients send `Put`, `Delete` and
`Get` commands; each replica proposes them to the consensus log and applies the
decided ones, in log order, to its store, answering each client.

- `src/` is the verified library: the command model (`kv`), the store
  interface and the in-memory store (`kvstore`, `memkvstore`), the reply of the
  on-disk store (`rocksdbstore`), the replica's decisions around the log
  (`replicant`), the peer wire format (`peer`), and the laws (`laws`).
- `app/` runs a replica: sockets, timers, the consensus engine, RocksDB.
- `tests/` exercise the library on concrete values.
