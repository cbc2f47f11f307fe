//! The in-memory store.
use vstd::prelude::*;
use vstd::hash_map::StringHashMap;
use crate::kv::lookup;
use crate::kvstore::KVStore;

verus! {

/// A store that keeps every key and value in a hash map.
pub struct MemKVStore {
    map: StringHashMap<String>,
}

impl View for MemKVStore {
    type V = Map<Seq<char>, Seq<char>>;

    closed spec fn view(&self) -> Map<Seq<char>, Seq<char>> {
        self.map@.map_values(|v: String| v@)
    }
}

impl MemKVStore {
    /// An empty store.
    pub fn new() -> (store: Self)
        ensures
            store@ == Map::<Seq<char>, Seq<char>>::empty(),
    {
        let store = MemKVStore { map: StringHashMap::new() };
        assert(store@ =~= Map::<Seq<char>, Seq<char>>::empty());
        store
    }
}

impl KVStore for MemKVStore {
    open spec fn model(&self) -> Option<Map<Seq<char>, Seq<char>>> {
        Some(self@)
    }

    open spec fn answers(&self, key: Seq<char>, answer: Seq<char>) -> bool {
        answer == lookup(self@, key)
    }

    open spec fn after_put(&self, key: Seq<char>, value: Seq<char>, ok: bool) -> bool {
        ok && self@.contains_key(key) && self@[key] == value
    }

    open spec fn after_del(&self, key: Seq<char>, removed: bool) -> bool {
        !self@.contains_key(key)
    }

    /// The value stored under `key`, or the empty string if there is none.
    fn get(&self, key: &str) -> (value: String)
        ensures
            value@ == lookup(self@, key@),
    {
        match self.map.get(key) {
            Some(value) => value.clone(),
            None => String::new(),
        }
    }

    /// Stores `value` under `key`, replacing any earlier value; always succeeds.
    fn put(&mut self, key: &str, value: &str) -> (ok: bool)
        ensures
            final(self)@ == old(self)@.insert(key@, value@),
            ok,
    {
        let k = key.to_owned();
        let v = value.to_owned();
        self.map.insert(k, v);
        proof {
            assert(self@ =~= old(self)@.insert(key@, value@));
        }
        true
    }

    /// Removes `key`; answers whether it was present.
    fn del(&mut self, key: &str) -> (removed: bool)
        ensures
            final(self)@ == old(self)@.remove(key@),
            removed == old(self)@.contains_key(key@),
    {
        let present = self.map.contains_key(key);
        self.map.remove(key);
        proof {
            assert(self@ =~= old(self)@.remove(key@));
        }
        present
    }
}

} // verus!
