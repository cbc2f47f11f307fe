//! A replicated key-value store: the command model, an in-memory store,
//! and the decisions a replica makes around its consensus log.

pub mod kv;

pub mod kvstore;
pub mod memkvstore;
pub mod rocksdbstore;
pub mod replicant;
pub mod peer;
pub mod laws;
