//! The decisions a replica makes around its consensus log: how it joins the
//! cluster, where an outgoing message goes, which part of the log it reads
//! next, and how decided entries reach the store.
use vstd::prelude::*;
use crate::kv::{Command, CommandView, apply_all, replies_of, lemma_replies_len};
use crate::kvstore::{KVStore, Observation, observe, executes};

verus! {

/// What a replica's configuration file says.
pub struct ReplicaConfig {
    /// This replica's index into `peers`.
    pub id: i64,
    /// The address every replica listens on for its peers, in id order.
    pub peers: Vec<String>,
    pub snapshot_interval: u64,
}

/// The consensus settings a replica starts with.
pub struct PaxosSetup {
    /// This replica's node id in the consensus protocol.
    pub pid: u64,
    pub configuration_id: u32,
    pub election_tick_timeout: u64,
    /// The node ids of the whole cluster.
    pub nodes: Vec<u64>,
}

/// The node ids `1 ..= n`.
pub open spec fn node_ids(n: nat) -> Seq<u64> {
    Seq::new(n, |i: int| (i + 1) as u64)
}

impl ReplicaConfig {
    /// `id` names one of the peers.
    pub open spec fn has_valid_id(&self) -> bool {
        0 <= self.id < self.peers@.len()
    }

    /// The address this replica listens on for its peers.
    pub fn local_address(&self) -> (address: String)
        requires
            self.has_valid_id(),
        ensures
            address@ == self.peers@[self.id as int]@,
    {
        let n: usize = self.peers.len();
        assert(self.id < n);
        let i: usize = self.id as usize;
        self.peers[i].clone()
    }

    /// The consensus settings: node id `id + 1`, a cluster of the node ids
    /// `1 ..= peers.len()`, configuration 1 and an election timeout of 15 ticks.
    pub fn paxos_setup(&self) -> (setup: PaxosSetup)
        requires
            self.has_valid_id(),
        ensures
            setup.pid == self.id + 1,
            setup.configuration_id == 1,
            setup.election_tick_timeout == 15,
            setup.nodes@ == node_ids(self.peers@.len()),
    {
        let n: u64 = self.peers.len() as u64;
        let mut nodes: Vec<u64> = Vec::new();
        let mut done: u64 = 0;
        while done < n
            invariant
                done <= n,
                n == self.peers@.len(),
                nodes@ == node_ids(done as nat),
            decreases n - done,
        {
            nodes.push(done + 1);
            done = done + 1;
            proof {
                assert(nodes@ =~= node_ids(done as nat));
            }
        }
        let index: u64 = self.id as u64;
        assert(index == self.id);
        PaxosSetup {
            pid: index + 1,
            configuration_id: 1,
            election_tick_timeout: 15,
            nodes,
        }
    }
}

/// Clients reach a replica on the port just above the one its peers use.
pub fn client_port(peer_port: u16) -> (port: u16)
    requires
        peer_port < u16::MAX,
    ensures
        port == peer_port + 1,
{
    peer_port + 1
}

/// Where a message for node `receiver` goes: the index of that peer, or
/// `None` when the message is for this replica itself (node ids are peer
/// indices plus one).
pub fn route_outgoing(receiver: u64, self_id: i64, num_peers: usize) -> (target: Option<usize>)
    requires
        1 <= receiver <= num_peers,
        0 <= self_id < num_peers,
    ensures
        receiver - 1 == self_id ==> target is None,
        receiver - 1 != self_id ==> target == Some((receiver - 1) as usize),
{
    let index: usize = (receiver - 1) as usize;
    if index == self_id as usize {
        None
    } else {
        Some(index)
    }
}

/// How far into the decided log a replica has applied.
pub struct DecidedCursor {
    last_decided_idx: u64,
}

/// The cursor position and the read start after seeing decided index
/// `decided_idx` at position `last`.
pub open spec fn advance_spec(last: u64, decided_idx: u64) -> (u64, Option<u64>) {
    if last < decided_idx {
        (decided_idx, Some(last))
    } else {
        (last, None)
    }
}

impl DecidedCursor {
    /// The number of log entries applied so far.
    pub closed spec fn position(&self) -> u64 {
        self.last_decided_idx
    }

    /// A cursor at the start of the log.
    pub fn new() -> (cursor: Self)
        ensures
            cursor.position() == 0,
    {
        DecidedCursor { last_decided_idx: 0 }
    }

    pub fn last_decided_idx(&self) -> (idx: u64)
        ensures
            idx == self.position(),
    {
        self.last_decided_idx
    }

    /// Takes note that the log is decided up to `decided_idx`. Answers where
    /// the entries not yet applied begin, if there are any, and moves the
    /// cursor to `decided_idx`; otherwise leaves it where it is.
    pub fn advance(&mut self, decided_idx: u64) -> (read_from: Option<u64>)
        ensures
            (final(self).position(), read_from) == advance_spec(old(self).position(), decided_idx),
    {
        if self.last_decided_idx < decided_idx {
            let from = self.last_decided_idx;
            self.last_decided_idx = decided_idx;
            Some(from)
        } else {
            None
        }
    }
}

/// An entry of the decided suffix of the consensus log, as the store sees it.
pub enum DecidedEntry {
    Decided(Command),
    Undecided(Command),
    Trimmed,
    Snapshotted,
    StopSign,
}

/// The commands of the decided entries, in log order.
pub open spec fn decided_commands(entries: Seq<DecidedEntry>) -> Seq<CommandView>
    decreases entries.len(),
{
    if entries.len() == 0 {
        Seq::empty()
    } else {
        let rest = decided_commands(entries.drop_last());
        match entries.last() {
            DecidedEntry::Decided(c) => rest.push(c@),
            _ => rest,
        }
    }
}

/// Whether `reply` is an answer the store may give to `command`.
pub open spec fn fits(command: CommandView, reply: (String, i64)) -> bool {
    &&& reply.1 == command.client_id()
    &&& command.is_write() ==> reply.0@ == Seq::<char>::empty()
}

/// Applies the decided entries to `store` in log order and answers, in that
/// order, one reply per decided command, to be sent to that command's
/// client; entries that are not decided commands are passed over. On every
/// backend the store passes, command by command, through states in which
/// each decided command is executed in turn (see `executes`): nothing else
/// touches it. For a store whose contents the library models, the store ends
/// as the decided commands leave it and each reply is the answer its command
/// gives.
pub fn update_database<S: KVStore + ?Sized>(store: &mut S, entries: Vec<DecidedEntry>) -> (replies: Vec<
    (String, i64),
>)
    ensures
        replies@.len() == decided_commands(entries@).len(),
        forall|i: int|
            0 <= i < replies@.len() ==> fits(decided_commands(entries@)[i], #[trigger] replies@[i]),
        old(store).model() is Some ==> final(store).model() == Some(
            apply_all(old(store).model()->0, decided_commands(entries@)),
        ),
        old(store).model() is Some ==> forall|i: int|
            0 <= i < replies@.len() ==> (#[trigger] replies@[i]).0@ == replies_of(
                old(store).model()->0,
                decided_commands(entries@),
            )[i],
        exists|trace: Seq<Observation>|
            {
                &&& trace.len() == decided_commands(entries@).len() + 1
                &&& trace[0] == observe(old(store))
                &&& trace.last() == observe(final(store))
                &&& forall|i: int|
                    0 <= i < decided_commands(entries@).len() ==> #[trigger] executes(
                        trace[i],
                        decided_commands(entries@)[i],
                        replies@[i].0@,
                        trace[i + 1],
                    )
            },
{
    let ghost all = entries@;
    let ghost start = store.model();
    let ghost first = observe(&*store);
    let ghost mut trace: Seq<Observation> = seq![first];
    let mut replies: Vec<(String, i64)> = Vec::new();
    for entry in it: entries
        invariant
            it.seq() == all,
            replies@.len() == decided_commands(all.take(it.index() as int)).len(),
            forall|i: int|
                0 <= i < replies@.len() ==> fits(
                    decided_commands(all.take(it.index() as int))[i],
                    #[trigger] replies@[i],
                ),
            start is Some ==> store.model() == Some(
                apply_all(start->0, decided_commands(all.take(it.index() as int))),
            ),
            start is Some ==> forall|i: int|
                0 <= i < replies@.len() ==> (#[trigger] replies@[i]).0@ == replies_of(
                    start->0,
                    decided_commands(all.take(it.index() as int)),
                )[i],
            trace.len() == replies@.len() + 1,
            trace[0] == first,
            trace.last() == observe(&*store),
            forall|i: int|
                0 <= i < replies@.len() ==> #[trigger] executes(
                    trace[i],
                    decided_commands(all.take(it.index() as int))[i],
                    replies@[i].0@,
                    trace[i + 1],
                ),
    {
        proof {
            assert(all.take(it.index() as int + 1).drop_last() =~= all.take(it.index() as int));
        }
        match entry {
            DecidedEntry::Decided(command) => {
                let ghost before = decided_commands(all.take(it.index() as int));
                let ghost obs_before = observe(&*store);
                let ghost cv = command@;
                let reply = store.execute(command);
                proof {
                    let obs_after = observe(&*store);
                    match cv {
                        CommandView::Get(kv) => {
                            assert(obs_after =~= obs_before);
                        },
                        CommandView::Put(kv) => {
                            assert forall|k: Seq<char>, a: Seq<char>|
                                k != kv.key implies #[trigger] (obs_after.0)(k, a) == (
                                obs_before.0)(k, a) by {
                                assert(store.answers(k, a) == (obs_before.0)(k, a));
                            }
                            let ok = choose|ok: bool|
                                #[trigger] store.after_put(kv.key, kv.value, ok) && (ok
                                    ==> store.answers(kv.key, kv.value)) && (!ok ==> forall|
                                    a: Seq<char>,
                                | #[trigger] store.answers(kv.key, a) == (obs_before.0)(kv.key, a));
                            assert((obs_after.1)(kv.key, kv.value, ok));
                        },
                        CommandView::Delete(kv) => {
                            assert forall|k: Seq<char>, a: Seq<char>|
                                k != kv.key implies #[trigger] (obs_after.0)(k, a) == (
                                obs_before.0)(k, a) by {
                                assert(store.answers(k, a) == (obs_before.0)(k, a));
                            }
                            let removed = choose|removed: bool|
                                #[trigger] store.after_del(kv.key, removed) && (removed
                                    ==> store.answers(kv.key, Seq::<char>::empty())) && (!removed
                                    ==> forall|a: Seq<char>|
                                    #[trigger] store.answers(kv.key, a) == (obs_before.0)(
                                        kv.key,
                                        a,
                                    ));
                            assert((obs_after.2)(kv.key, removed));
                        },
                    }
                    assert(executes(obs_before, cv, reply.0@, obs_after));
                    trace = trace.push(observe(&*store));
                }
                replies.push(reply);
                proof {
                    let after = decided_commands(all.take(it.index() as int + 1));
                    assert(after.drop_last() =~= before);
                    if start is Some {
                        lemma_replies_len(start->0, before);
                        assert(replies_of(start->0, after) =~= replies_of(start->0, before).push(
                            reply.0@,
                        ));
                    }
                }
            },
            _ => {
                proof {
                    let after = decided_commands(all.take(it.index() as int + 1));
                    assert(after =~= decided_commands(all.take(it.index() as int)));
                }
            },
        }
    }
    proof {
        assert(all.take(all.len() as int) =~= all);
    }
    replies
}

} // verus!
