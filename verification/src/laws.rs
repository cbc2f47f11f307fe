//! What holds of the store and of the log cursor across calls.
use vstd::prelude::*;
use crate::kv::{KeyValueView, CommandView, apply_command, apply_all, replies_of, lookup};
use crate::replicant::{advance_spec, decided_commands, DecidedEntry, DecidedCursor};
use crate::kvstore::{Observation, executes, observe};
use crate::memkvstore::MemKVStore;

verus! {

/// A read of `key` right after a `Put` of `value` under `key` answers `value`.
pub proof fn lemma_get_after_put(
    state: Map<Seq<char>, Seq<char>>,
    put: KeyValueView,
    get: KeyValueView,
)
    requires
        put.key == get.key,
    ensures
        apply_command(apply_command(state, CommandView::Put(put)).0, CommandView::Get(get)).1
            == put.value,
{
}

/// A read of `key` right after a `Delete` of `key` answers the empty string.
pub proof fn lemma_get_after_delete(
    state: Map<Seq<char>, Seq<char>>,
    del: KeyValueView,
    get: KeyValueView,
)
    requires
        del.key == get.key,
    ensures
        apply_command(apply_command(state, CommandView::Delete(del)).0, CommandView::Get(get)).1
            == Seq::<char>::empty(),
{
}

/// A write to one key does not change what a read of another key answers.
pub proof fn lemma_write_leaves_other_keys(
    state: Map<Seq<char>, Seq<char>>,
    write: CommandView,
    other: Seq<char>,
)
    requires
        write.is_write(),
        write.payload().key != other,
    ensures
        lookup(apply_command(state, write).0, other) == lookup(state, other),
{
}

/// Whether `command` writes (puts or deletes) `key`.
pub open spec fn writes_key(command: CommandView, key: Seq<char>) -> bool {
    command.is_write() && command.payload().key == key
}

/// A run of commands none of which writes `key` leaves what `key` reads
/// unchanged.
pub proof fn lemma_run_leaves_key(
    state: Map<Seq<char>, Seq<char>>,
    later: Seq<CommandView>,
    key: Seq<char>,
)
    requires
        forall|i: int| 0 <= i < later.len() ==> !writes_key(#[trigger] later[i], key),
    ensures
        lookup(apply_all(state, later), key) == lookup(state, key),
    decreases later.len(),
{
    if later.len() > 0 {
        lemma_run_leaves_key(state, later.drop_last(), key);
        assert(!writes_key(later[later.len() - 1], key));
    }
}

/// A read of `key` after a `Put` of `value` under `key`, and after any run
/// of later commands none of which puts or deletes `key`, answers `value`.
pub proof fn lemma_get_after_put_and_run(
    state: Map<Seq<char>, Seq<char>>,
    put: KeyValueView,
    later: Seq<CommandView>,
    get: KeyValueView,
)
    requires
        put.key == get.key,
        forall|i: int| 0 <= i < later.len() ==> !writes_key(#[trigger] later[i], put.key),
    ensures
        apply_command(
            apply_all(apply_command(state, CommandView::Put(put)).0, later),
            CommandView::Get(get),
        ).1 == put.value,
{
    lemma_run_leaves_key(apply_command(state, CommandView::Put(put)).0, later, put.key);
}

/// A run of commands none of which puts `key` keeps `key` absent.
pub proof fn lemma_run_keeps_key_absent(
    state: Map<Seq<char>, Seq<char>>,
    later: Seq<CommandView>,
    key: Seq<char>,
)
    requires
        !state.contains_key(key),
        forall|i: int|
            0 <= i < later.len() ==> !((#[trigger] later[i]) is Put && later[i].payload().key
                == key),
    ensures
        !apply_all(state, later).contains_key(key),
    decreases later.len(),
{
    if later.len() > 0 {
        lemma_run_keeps_key_absent(state, later.drop_last(), key);
        assert(!(later[later.len() - 1] is Put && later[later.len() - 1].payload().key == key));
    }
}

/// A read of `key` after a `Delete` of `key`, and after any run of later
/// commands none of which puts `key`, answers the empty string.
pub proof fn lemma_get_after_delete_and_run(
    state: Map<Seq<char>, Seq<char>>,
    del: KeyValueView,
    later: Seq<CommandView>,
    get: KeyValueView,
)
    requires
        del.key == get.key,
        forall|i: int|
            0 <= i < later.len() ==> !((#[trigger] later[i]) is Put && later[i].payload().key
                == del.key),
    ensures
        apply_command(
            apply_all(apply_command(state, CommandView::Delete(del)).0, later),
            CommandView::Get(get),
        ).1 == Seq::<char>::empty(),
{
    lemma_run_keeps_key_absent(apply_command(state, CommandView::Delete(del)).0, later, del.key);
}

/// `trace` is a run of `commands` executed one after another on some
/// backend, answering `replies` (what `update_database` ensures of the
/// states it passes through).
pub open spec fn is_run(
    trace: Seq<Observation>,
    commands: Seq<CommandView>,
    replies: Seq<Seq<char>>,
) -> bool {
    &&& trace.len() == commands.len() + 1
    &&& replies.len() == commands.len()
    &&& forall|i: int|
        0 <= i < commands.len() ==> #[trigger] executes(trace[i], commands[i], replies[i], trace[i + 1])
}

/// Whether every state of `trace` gives at most one answer for `key`, as
/// the in-memory store's states do.
pub open spec fn single_answer(trace: Seq<Observation>, key: Seq<char>) -> bool {
    forall|i: int, a: Seq<char>, b: Seq<char>|
        0 <= i < trace.len() && #[trigger] (trace[i].0)(key, a) && #[trigger] (trace[i].0)(key, b)
            ==> a == b
}

/// On any backend, a run of commands none of which writes `key` leaves the
/// answers `key` may give as they were: a write to one key never changes
/// what another key reads.
pub proof fn lemma_run_leaves_other_keys(
    trace: Seq<Observation>,
    commands: Seq<CommandView>,
    replies: Seq<Seq<char>>,
    key: Seq<char>,
    j: int,
)
    requires
        is_run(trace, commands, replies),
        forall|i: int| 0 <= i < commands.len() ==> !writes_key(#[trigger] commands[i], key),
        0 <= j <= commands.len(),
    ensures
        forall|a: Seq<char>| #[trigger] (trace[j].0)(key, a) == (trace[0].0)(key, a),
    decreases j,
{
    if j > 0 {
        lemma_run_leaves_other_keys(trace, commands, replies, key, j - 1);
        let p = j - 1;
        assert(executes(trace[p], commands[p], replies[p], trace[p + 1]));
        assert(!writes_key(commands[p], key));
        assert forall|a: Seq<char>| #[trigger] (trace[j].0)(key, a) == (trace[0].0)(key, a) by {
            assert((trace[j].0)(key, a) == (trace[j - 1].0)(key, a));
        }
    }
}

/// On any backend whose reads of `key` give a single answer, once a `Put`
/// of `value` under `key` has taken effect, every later `Get` of `key`
/// answers `value` until a later command writes `key`.
pub proof fn lemma_run_get_after_put(
    trace: Seq<Observation>,
    commands: Seq<CommandView>,
    replies: Seq<Seq<char>>,
    put: KeyValueView,
    j: int,
)
    requires
        is_run(trace, commands, replies),
        single_answer(trace, put.key),
        commands.len() > 0,
        commands[0] == CommandView::Put(put),
        (trace[1].0)(put.key, put.value),
        forall|i: int| 1 <= i < commands.len() ==> !writes_key(#[trigger] commands[i], put.key),
        1 <= j < commands.len(),
        commands[j] is Get,
        commands[j].payload().key == put.key,
    ensures
        replies[j] == put.value,
{
    let rest = commands.subrange(1, commands.len() as int);
    let rest_trace = trace.subrange(1, trace.len() as int);
    let rest_replies = replies.subrange(1, replies.len() as int);
    assert forall|i: int| 0 <= i < rest.len() implies #[trigger] executes(
        rest_trace[i],
        rest[i],
        rest_replies[i],
        rest_trace[i + 1],
    ) by {
        let q = i + 1;
        assert(executes(trace[q], commands[q], replies[q], trace[q + 1]));
    }
    assert forall|i: int| 0 <= i < rest.len() implies !writes_key(#[trigger] rest[i], put.key) by {
        assert(!writes_key(commands[i + 1], put.key));
    }
    lemma_run_leaves_other_keys(rest_trace, rest, rest_replies, put.key, j - 1);
    assert((rest_trace[j - 1].0)(put.key, put.value) == (rest_trace[0].0)(put.key, put.value));
    assert(executes(trace[j], commands[j], replies[j], trace[j + 1]));
    assert((trace[j].0)(put.key, replies[j]));
}

/// On any backend whose reads of `key` give a single answer, once a
/// `Delete` of `key` has taken effect, every later `Get` of `key` answers
/// the empty string until a later command writes `key`.
pub proof fn lemma_run_get_after_delete(
    trace: Seq<Observation>,
    commands: Seq<CommandView>,
    replies: Seq<Seq<char>>,
    del: KeyValueView,
    j: int,
)
    requires
        is_run(trace, commands, replies),
        single_answer(trace, del.key),
        commands.len() > 0,
        commands[0] == CommandView::Delete(del),
        (trace[1].0)(del.key, Seq::<char>::empty()),
        forall|i: int| 1 <= i < commands.len() ==> !writes_key(#[trigger] commands[i], del.key),
        1 <= j < commands.len(),
        commands[j] is Get,
        commands[j].payload().key == del.key,
    ensures
        replies[j] == Seq::<char>::empty(),
{
    let rest = commands.subrange(1, commands.len() as int);
    let rest_trace = trace.subrange(1, trace.len() as int);
    let rest_replies = replies.subrange(1, replies.len() as int);
    assert forall|i: int| 0 <= i < rest.len() implies #[trigger] executes(
        rest_trace[i],
        rest[i],
        rest_replies[i],
        rest_trace[i + 1],
    ) by {
        let q = i + 1;
        assert(executes(trace[q], commands[q], replies[q], trace[q + 1]));
    }
    assert forall|i: int| 0 <= i < rest.len() implies !writes_key(#[trigger] rest[i], del.key) by {
        assert(!writes_key(commands[i + 1], del.key));
    }
    lemma_run_leaves_other_keys(rest_trace, rest, rest_replies, del.key, j - 1);
    assert((rest_trace[j - 1].0)(del.key, Seq::<char>::empty()) == (rest_trace[0].0)(
        del.key,
        Seq::<char>::empty(),
    ));
    assert(executes(trace[j], commands[j], replies[j], trace[j + 1]));
    assert((trace[j].0)(del.key, replies[j]));
}

/// The in-memory store's reads give exactly one answer per key, so the run
/// laws above apply to it: its observed states are single-answered.
pub proof fn lemma_mem_single_answer(store: &MemKVStore, key: Seq<char>, a: Seq<char>, b: Seq<char>)
    requires
        (observe(store).0)(key, a),
        (observe(store).0)(key, b),
    ensures
        a == b,
{
}

/// A `Get` never changes the store.
pub proof fn lemma_get_is_read_only(state: Map<Seq<char>, Seq<char>>, get: KeyValueView)
    ensures
        apply_command(state, CommandView::Get(get)).0 == state,
{
}

/// Of two `Put`s to one key, the later one wins.
pub proof fn lemma_put_overwrites(
    state: Map<Seq<char>, Seq<char>>,
    first: KeyValueView,
    second: KeyValueView,
)
    requires
        first.key == second.key,
    ensures
        apply_command(apply_command(state, CommandView::Put(first)).0, CommandView::Put(second)).0
            == apply_command(state, CommandView::Put(second)).0,
{
    assert(state.insert(first.key, first.value).insert(second.key, second.value) =~= state.insert(
        second.key,
        second.value,
    ));
}

/// Deleting a key twice is the same as deleting it once.
pub proof fn lemma_delete_idempotent(
    state: Map<Seq<char>, Seq<char>>,
    first: KeyValueView,
    second: KeyValueView,
)
    requires
        first.key == second.key,
    ensures
        apply_command(
            apply_command(state, CommandView::Delete(first)).0,
            CommandView::Delete(second),
        ).0 == apply_command(state, CommandView::Delete(first)).0,
{
    assert(state.remove(first.key).remove(second.key) =~= state.remove(first.key));
}

/// Writes to different keys commute: applied in either order they leave the
/// same store.
pub proof fn lemma_writes_to_distinct_keys_commute(
    state: Map<Seq<char>, Seq<char>>,
    a: CommandView,
    b: CommandView,
)
    requires
        a.is_write(),
        b.is_write(),
        a.payload().key != b.payload().key,
    ensures
        apply_command(apply_command(state, a).0, b).0 == apply_command(
            apply_command(state, b).0,
            a,
        ).0,
{
    assert(apply_command(apply_command(state, a).0, b).0 =~= apply_command(
        apply_command(state, b).0,
        a,
    ).0);
}

/// The store after a run of commands depends only on its writes, in order.
pub proof fn lemma_only_writes_change_state(
    state: Map<Seq<char>, Seq<char>>,
    commands: Seq<CommandView>,
)
    ensures
        apply_all(state, commands) == apply_all(
            state,
            commands.filter(|c: CommandView| c.is_write()),
        ),
    decreases commands.len(),
{
    reveal(Seq::filter);
    if commands.len() > 0 {
        lemma_only_writes_change_state(state, commands.drop_last());
        let writes = commands.filter(|c: CommandView| c.is_write());
        let earlier = commands.drop_last().filter(|c: CommandView| c.is_write());
        if commands.last().is_write() {
            assert(writes.drop_last() =~= earlier);
        } else {
            assert(writes =~= earlier);
        }
    }
}

/// Applying a run of commands in two batches, one after the other, leaves
/// the store as applying them at once does, and gives the same answers.
pub proof fn lemma_batches_compose(
    state: Map<Seq<char>, Seq<char>>,
    first: Seq<CommandView>,
    second: Seq<CommandView>,
)
    ensures
        apply_all(apply_all(state, first), second) == apply_all(state, first + second),
        replies_of(state, first) + replies_of(apply_all(state, first), second) == replies_of(
            state,
            first + second,
        ),
    decreases second.len(),
{
    if second.len() == 0 {
        assert(first + second =~= first);
        assert(replies_of(state, first) + Seq::<Seq<char>>::empty() =~= replies_of(state, first));
    } else {
        lemma_batches_compose(state, first, second.drop_last());
        assert((first + second).drop_last() =~= first + second.drop_last());
        assert((first + second).last() == second.last());
        assert(replies_of(state, first) + replies_of(apply_all(state, first), second) =~= (
        replies_of(state, first) + replies_of(apply_all(state, first), second.drop_last())).push(
            apply_command(apply_all(apply_all(state, first), second.drop_last()), second.last()).1,
        ));
    }
}

/// The decided commands of two consecutive stretches of the log are those of
/// the first followed by those of the second.
pub proof fn lemma_decided_commands_split(first: Seq<DecidedEntry>, second: Seq<DecidedEntry>)
    ensures
        decided_commands(first + second) == decided_commands(first) + decided_commands(second),
    decreases second.len(),
{
    if second.len() == 0 {
        assert(first + second =~= first);
        assert(decided_commands(first) + Seq::<CommandView>::empty() =~= decided_commands(first));
    } else {
        lemma_decided_commands_split(first, second.drop_last());
        assert((first + second).drop_last() =~= first + second.drop_last());
        assert((first + second).last() == second.last());
        match second.last() {
            DecidedEntry::Decided(c) => {
                assert(decided_commands(first) + decided_commands(second) =~= (decided_commands(
                    first,
                ) + decided_commands(second.drop_last())).push(c@));
            },
            _ => {},
        }
    }
}

/// Where the cursor stands after seeing the decided indices `seen`, in order,
/// starting at `start`.
pub open spec fn cursor_after(start: u64, seen: Seq<u64>) -> u64
    decreases seen.len(),
{
    if seen.len() == 0 {
        start
    } else {
        advance_spec(cursor_after(start, seen.drop_last()), seen.last()).0
    }
}

/// The stretches of the log `[from, to)` that the cursor hands out while it
/// sees `seen`, in order.
pub open spec fn cursor_reads(start: u64, seen: Seq<u64>) -> Seq<(u64, u64)>
    decreases seen.len(),
{
    if seen.len() == 0 {
        Seq::empty()
    } else {
        let earlier = cursor_reads(start, seen.drop_last());
        match advance_spec(cursor_after(start, seen.drop_last()), seen.last()).1 {
            Some(from) => earlier.push((from, seen.last())),
            None => earlier,
        }
    }
}

/// Every log index from `start` up to where the cursor ends is read exactly
/// once and in order: the stretches handed out are non-empty, the first
/// begins at `start`, each begins where the one before ended, and the last
/// ends where the cursor stands; and the cursor never moves back.
pub proof fn lemma_cursor_reads_each_index_once(start: u64, seen: Seq<u64>)
    ensures
        cursor_after(start, seen) >= start,
        forall|i: int|
            0 <= i < cursor_reads(start, seen).len() ==> #[trigger] cursor_reads(start, seen)[i].0
                < cursor_reads(start, seen)[i].1,
        forall|i: int|
            0 <= i < cursor_reads(start, seen).len() - 1 ==> #[trigger] cursor_reads(start, seen)[i].1
                == cursor_reads(start, seen)[i + 1].0,
        cursor_reads(start, seen).len() == 0 ==> cursor_after(start, seen) == start,
        cursor_reads(start, seen).len() > 0 ==> cursor_reads(start, seen)[0].0 == start
            && cursor_reads(start, seen).last().1 == cursor_after(start, seen),
    decreases seen.len(),
{
    if seen.len() > 0 {
        lemma_cursor_reads_each_index_once(start, seen.drop_last());
    }
}

/// A run of `advance` calls, the `i`-th seeing decided index `seen[i]` and
/// taking the cursor from `cursors[i]` to `cursors[i + 1]`, leaves the cursor
/// where `cursor_after` says, having handed out `cursor_reads`.
pub proof fn lemma_advance_run(cursors: Seq<DecidedCursor>, seen: Seq<u64>)
    requires
        cursors.len() == seen.len() + 1,
        forall|i: int|
            0 <= i < seen.len() ==> (#[trigger] cursors[i + 1]).position() == advance_spec(
                cursors[i].position(),
                seen[i],
            ).0,
    ensures
        cursors.last().position() == cursor_after(cursors[0].position(), seen),
    decreases seen.len(),
{
    if seen.len() > 0 {
        let shorter = cursors.drop_last();
        assert forall|i: int| 0 <= i < seen.drop_last().len() implies (#[trigger] shorter[i
            + 1]).position() == advance_spec(shorter[i].position(), seen.drop_last()[i]).0 by {
            assert(shorter[i + 1] == cursors[i + 1]);
        }
        lemma_advance_run(shorter, seen.drop_last());
        assert(cursors[seen.len() as int] == cursors.last());
    }
}

/// While the decided index it is shown never decreases (and starts no lower
/// than the cursor), the cursor stands at the last decided index seen.
pub proof fn lemma_cursor_follows_decided_index(start: u64, seen: Seq<u64>)
    requires
        seen.len() > 0,
        start <= seen[0],
        forall|i: int, j: int| 0 <= i <= j < seen.len() ==> seen[i] <= seen[j],
    ensures
        cursor_after(start, seen) == seen.last(),
    decreases seen.len(),
{
    if seen.len() > 1 {
        lemma_cursor_follows_decided_index(start, seen.drop_last());
        assert(seen.drop_last().last() == seen[seen.len() - 2]);
        assert(seen[seen.len() - 2] <= seen[seen.len() - 1]);
        assert(cursor_after(start, seen) == advance_spec(seen[seen.len() - 2], seen.last()).0);
    } else {
        assert(cursor_after(start, seen.drop_last()) == start);
        assert(cursor_after(start, seen) == advance_spec(start, seen.last()).0);
    }
}

} // verus!
