[package]
name = "replicant"
version = "0.1.0"
edition = "2021"
publish = false

[dependencies]
omnipaxos = { version = "0.2", features = ["macros", "serde"] }
omnipaxos_storage = "0.2"
tokio = { version = "1", features = ["full"] }
serde = { version = "1", features = ["derive"] }
serde_json = "1"
log = "0.4"
futures = "0.3"
thiserror = "1"
rocksdb = { version = "0.21", default-features = false }
