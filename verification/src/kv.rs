//! Commands that clients submit and that the replicas apply in log order.
use vstd::prelude::*;

verus! {

/// A key, a value and the client that asked; `value` is ignored by
/// `Get` and `Delete`.
#[derive(Clone, Debug)]
pub struct KeyValue {
    pub key: String,
    pub value: String,
    pub client_id: i64,
}

/// One replicated command.
#[derive(Clone, Debug)]
pub enum Command {
    Put(KeyValue),
    Delete(KeyValue),
    Get(KeyValue),
}

/// The mathematical value of a `KeyValue`.
pub struct KeyValueView {
    pub key: Seq<char>,
    pub value: Seq<char>,
    pub client_id: i64,
}

/// The mathematical value of a `Command`.
pub enum CommandView {
    Put(KeyValueView),
    Delete(KeyValueView),
    Get(KeyValueView),
}

impl View for KeyValue {
    type V = KeyValueView;

    open spec fn view(&self) -> KeyValueView {
        KeyValueView { key: self.key@, value: self.value@, client_id: self.client_id }
    }
}

impl View for Command {
    type V = CommandView;

    open spec fn view(&self) -> CommandView {
        match self {
            Command::Put(kv) => CommandView::Put(kv@),
            Command::Delete(kv) => CommandView::Delete(kv@),
            Command::Get(kv) => CommandView::Get(kv@),
        }
    }
}

impl CommandView {
    /// The key-value payload of any command.
    pub open spec fn payload(self) -> KeyValueView {
        match self {
            CommandView::Put(kv) => kv,
            CommandView::Delete(kv) => kv,
            CommandView::Get(kv) => kv,
        }
    }

    pub open spec fn client_id(self) -> i64 {
        self.payload().client_id
    }

    /// Whether the command may change the store.
    pub open spec fn is_write(self) -> bool {
        self is Put || self is Delete
    }
}

impl Command {
    /// The client that submitted the command.
    pub fn client_id(&self) -> (id: i64)
        ensures
            id == self@.client_id(),
    {
        match self {
            Command::Put(kv) => kv.client_id,
            Command::Delete(kv) => kv.client_id,
            Command::Get(kv) => kv.client_id,
        }
    }
}

/// What a read of `key` answers in store state `state`: the stored value,
/// or the empty string where the key is absent.
pub open spec fn lookup(state: Map<Seq<char>, Seq<char>>, key: Seq<char>) -> Seq<char> {
    if state.contains_key(key) {
        state[key]
    } else {
        Seq::empty()
    }
}

/// The state after `command` and the answer it gives: `Put` sets the key,
/// `Delete` removes it (both answer the empty string), `Get` leaves the state
/// as it is and answers the looked-up value.
pub open spec fn apply_command(state: Map<Seq<char>, Seq<char>>, command: CommandView) -> (
    Map<Seq<char>, Seq<char>>,
    Seq<char>,
) {
    match command {
        CommandView::Put(kv) => (state.insert(kv.key, kv.value), Seq::empty()),
        CommandView::Delete(kv) => (state.remove(kv.key), Seq::empty()),
        CommandView::Get(kv) => (state, lookup(state, kv.key)),
    }
}

/// The state after applying `commands` in order.
pub open spec fn apply_all(state: Map<Seq<char>, Seq<char>>, commands: Seq<CommandView>) -> Map<
    Seq<char>,
    Seq<char>,
>
    decreases commands.len(),
{
    if commands.len() == 0 {
        state
    } else {
        apply_command(apply_all(state, commands.drop_last()), commands.last()).0
    }
}

/// The answers that `commands`, applied in order from `state`, give.
pub open spec fn replies_of(state: Map<Seq<char>, Seq<char>>, commands: Seq<CommandView>) -> Seq<
    Seq<char>,
>
    decreases commands.len(),
{
    if commands.len() == 0 {
        Seq::empty()
    } else {
        replies_of(state, commands.drop_last()).push(
            apply_command(apply_all(state, commands.drop_last()), commands.last()).1,
        )
    }
}

/// There is one answer per command.
pub proof fn lemma_replies_len(state: Map<Seq<char>, Seq<char>>, commands: Seq<CommandView>)
    ensures
        replies_of(state, commands).len() == commands.len(),
    decreases commands.len(),
{
    if commands.len() > 0 {
        lemma_replies_len(state, commands.drop_last());
    }
}

} // verus!
