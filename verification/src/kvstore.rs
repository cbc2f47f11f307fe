//! The store interface that replicas apply decided commands to, its errors,
//! and the choice of backend.
use vstd::prelude::*;
use crate::kv::{Command, CommandView, KeyValue, apply_command, lookup};

verus! {

/// Errors a store can report.
#[derive(Debug, PartialEq, Eq, Structural)]
pub enum KVStoreError {
    NotFoundError,
    PutFailedError,
}

impl KVStoreError {
    /// The human-readable text of the error.
    pub fn message(&self) -> (text: String)
        ensures
            self is NotFoundError ==> text@ == "key not found"@,
            self is PutFailedError ==> text@ == "put failed"@,
    {
        match self {
            KVStoreError::NotFoundError => "key not found".to_owned(),
            KVStoreError::PutFailedError => "put failed".to_owned(),
        }
    }
}

/// A key-value store that executes replicated commands.
///
/// Every backend answers a write (`Put` or `Delete`) with the empty string, and
/// every answer carries the id of the client that sent the command. A backend
/// whose contents the library models (`model()` is `Some`) reads, writes and
/// deletes exactly as a map does.
pub trait KVStore {
    /// The contents of the store, for backends whose contents the library
    /// models; `None` for those whose contents live outside it.
    open spec fn model(&self) -> Option<Map<Seq<char>, Seq<char>>> {
        None
    }

    /// What this backend promises of `get`'s answer `answer` for `key`;
    /// nothing (`true`) for a backend that promises nothing.
    open spec fn answers(&self, key: Seq<char>, answer: Seq<char>) -> bool {
        true
    }

    /// What this backend promises of the store left by `put(key, value)`
    /// that answered `ok`; nothing (`true`) by default.
    open spec fn after_put(&self, key: Seq<char>, value: Seq<char>, ok: bool) -> bool {
        true
    }

    /// What this backend promises of the store left by `del(key)` that
    /// answered `removed`; nothing (`true`) by default.
    open spec fn after_del(&self, key: Seq<char>, removed: bool) -> bool {
        true
    }

    /// Applies `command` through `put`, `del` and `get`, and answers with the
    /// reply and the sender's id: the empty string for a write, what `get`
    /// answers for a `Get`, which leaves the store as it was.
    fn execute(&mut self, command: Command) -> (result: (String, i64))
        ensures
            result.1 == command@.client_id(),
            command@.is_write() ==> result.0@ == Seq::<char>::empty(),
            command@ is Get ==> unchanged(old(self), final(self)) && old(self).answers(
                command@.payload().key,
                result.0@,
            ),
            command@ is Put ==> exists|ok: bool|
                #[trigger] final(self).after_put(
                    command@.payload().key,
                    command@.payload().value,
                    ok,
                ) && (ok ==> final(self).answers(command@.payload().key, command@.payload().value))
                    && (!ok ==> forall|a: Seq<char>|
                    #[trigger] final(self).answers(command@.payload().key, a) == old(
                        self,
                    ).answers(command@.payload().key, a)),
            command@ is Delete ==> exists|removed: bool|
                #[trigger] final(self).after_del(command@.payload().key, removed) && (removed
                    ==> final(self).answers(command@.payload().key, Seq::<char>::empty())) && (
                !removed ==> forall|a: Seq<char>|
                    #[trigger] final(self).answers(command@.payload().key, a) == old(
                        self,
                    ).answers(command@.payload().key, a)),
            old(self).model() is Some ==> final(self).model() == Some(
                apply_command(old(self).model()->0, command@).0,
            ) && result.0@ == apply_command(old(self).model()->0, command@).1,
            command@.is_write() ==> forall|k: Seq<char>, a: Seq<char>|
                k != command@.payload().key ==> #[trigger] final(self).answers(k, a) == old(
                    self,
                ).answers(k, a),
    {
        let ghost cv = command@;
        match command {
            Command::Put(KeyValue { key, value, client_id }) => {
                let ok = self.put(key.as_str(), value.as_str());
                assert(cv.payload().key == key@ && cv.payload().value == value@);
                assert(final(self).after_put(cv.payload().key, cv.payload().value, ok));
                (String::new(), client_id)
            },
            Command::Delete(KeyValue { key, value: _, client_id }) => {
                let removed = self.del(key.as_str());
                assert(cv.payload().key == key@);
                assert(final(self).after_del(cv.payload().key, removed));
                (String::new(), client_id)
            },
            Command::Get(KeyValue { key, value: _, client_id }) => {
                (self.get(key.as_str()), client_id)
            },
        }
    }

    /// The value stored under `key`, or the empty string if there is none.
    fn get(&self, key: &str) -> (value: String)
        ensures
            self.answers(key@, value@),
            self.model() is Some ==> value@ == lookup(self.model()->0, key@),
    ;

    /// Stores `value` under `key`, replacing any earlier value; answers
    /// whether the store took it.
    fn put(&mut self, key: &str, value: &str) -> (ok: bool)
        ensures
            final(self).after_put(key@, value@, ok),
            ok ==> final(self).answers(key@, value@),
            !ok ==> forall|a: Seq<char>|
                #[trigger] final(self).answers(key@, a) == old(self).answers(key@, a),
            forall|k: Seq<char>, a: Seq<char>|
                k != key@ ==> #[trigger] final(self).answers(k, a) == old(self).answers(k, a),
            old(self).model() is Some ==> final(self).model() == Some(
                old(self).model()->0.insert(key@, value@),
            ) && ok,
    ;

    /// Removes `key`; answers whether that succeeded (for a modelled store:
    /// whether the key was present).
    fn del(&mut self, key: &str) -> (removed: bool)
        ensures
            final(self).after_del(key@, removed),
            removed ==> final(self).answers(key@, Seq::<char>::empty()),
            !removed ==> forall|a: Seq<char>|
                #[trigger] final(self).answers(key@, a) == old(self).answers(key@, a),
            forall|k: Seq<char>, a: Seq<char>|
                k != key@ ==> #[trigger] final(self).answers(k, a) == old(self).answers(k, a),
            old(self).model() is Some ==> final(self).model() == Some(
                old(self).model()->0.remove(key@),
            ) && removed == old(self).model()->0.contains_key(key@),
    ;
}

/// What the library can observe of a store through its backend's promises:
/// which answers a read of each key may give, and what the backend promises
/// of the store after a `put` and after a `del`.
pub type Observation = (
    spec_fn(Seq<char>, Seq<char>) -> bool,
    spec_fn(Seq<char>, Seq<char>, bool) -> bool,
    spec_fn(Seq<char>, bool) -> bool,
);

/// The observation of store `s`.
pub open spec fn observe<S: KVStore + ?Sized>(s: &S) -> Observation {
    (
        |k: Seq<char>, a: Seq<char>| s.answers(k, a),
        |k: Seq<char>, v: Seq<char>, ok: bool| s.after_put(k, v, ok),
        |k: Seq<char>, removed: bool| s.after_del(k, removed),
    )
}

/// Every key other than `key` may give the same answers in `after` as in
/// `before`.
pub open spec fn same_answers_except(before: Observation, after: Observation, key: Seq<char>) -> bool {
    forall|k: Seq<char>, a: Seq<char>| k != key ==> #[trigger] (after.0)(k, a) == (before.0)(k, a)
}

/// `key` may give the same answers in `after` as in `before`.
pub open spec fn same_answers_at(before: Observation, after: Observation, key: Seq<char>) -> bool {
    forall|a: Seq<char>| #[trigger] (after.0)(key, a) == (before.0)(key, a)
}

/// Executing `command` took a store observed as `before` to one observed as
/// `after` and answered `reply`, on any backend: a `Get` reads (the store is
/// as it was, the reply is an answer the key may give); a `Put` or `Delete`
/// went through the backend's `put` or `del`, answers the empty string,
/// leaves every other key as it was, and either takes effect on its key (the
/// key may give the new value, or the empty string) or leaves it as it was
/// when the backend refused.
pub open spec fn executes(
    before: Observation,
    command: CommandView,
    reply: Seq<char>,
    after: Observation,
) -> bool {
    match command {
        CommandView::Get(kv) => after == before && (before.0)(kv.key, reply),
        CommandView::Put(kv) => {
            &&& reply == Seq::<char>::empty()
            &&& same_answers_except(before, after, kv.key)
            &&& exists|ok: bool|
                #[trigger] (after.1)(kv.key, kv.value, ok) && (ok ==> (after.0)(kv.key, kv.value))
                    && (!ok ==> same_answers_at(before, after, kv.key))
        },
        CommandView::Delete(kv) => {
            &&& reply == Seq::<char>::empty()
            &&& same_answers_except(before, after, kv.key)
            &&& exists|removed: bool|
                #[trigger] (after.2)(kv.key, removed) && (removed ==> (after.0)(
                    kv.key,
                    Seq::<char>::empty(),
                )) && (!removed ==> same_answers_at(before, after, kv.key))
        },
    }
}

/// The store `after` is the store `before`, untouched.
pub open spec fn unchanged<S: ?Sized>(before: &S, after: &S) -> bool {
    before == after
}

/// The backends a replica can be configured with.
#[derive(Debug, PartialEq, Eq, Structural)]
pub enum StoreKind {
    RocksDb,
    Mem,
}

/// Which backend the configuration's `store` entry names: `"rocksdb"` or
/// `"mem"`; any other name is refused.
pub fn store_kind(name: &str) -> (kind: Option<StoreKind>)
    ensures
        kind == Some(StoreKind::RocksDb) <==> name@ == "rocksdb"@,
        kind == Some(StoreKind::Mem) <==> name@ == "mem"@,
        kind is None <==> (name@ != "rocksdb"@ && name@ != "mem"@),
{
    let given = name.to_owned();
    let rocks = "rocksdb".to_owned();
    let mem = "mem".to_owned();
    proof {
        reveal_strlit("rocksdb");
        reveal_strlit("mem");
        assert("rocksdb"@.len() != "mem"@.len());
    }
    if given == rocks {
        Some(StoreKind::RocksDb)
    } else if given == mem {
        Some(StoreKind::Mem)
    } else {
        None
    }
}

} // verus!
