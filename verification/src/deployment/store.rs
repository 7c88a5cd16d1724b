//! Cached conversation state held by the replica that leases a thread: its
//! messages in creation order, its command history, its invocations and the
//! window of recent events.
use vstd::prelude::*;
use crate::ids::{parsed_uuid, parse_uuid, uuid_text, hyphenated};
use crate::text::str_eq;
use std::collections::VecDeque;
use crate::deployment::work::Work;

verus! {

/// Bound on retained history per thread; older events stay durable at the gateway.
pub const EVENT_WINDOW: usize = 5000;
/// Commands kept before finished ones are dropped, oldest first.
pub const COMMAND_LIMIT: usize = 512;

/// A chat message as the runtime caches it.
#[derive(Clone, Debug)]
pub struct Message {
    pub id: String,
    pub thread_id: String,
    pub participant_id: String,
    pub text: String,
    pub status: String,
    /// Creation time: whole seconds and the nanoseconds beyond them.
    pub created_seconds: i64,
    pub created_nanos: i32,
}

impl Command {
    /// A field-by-field copy.
    pub fn duplicate(&self) -> (r: Command)
        ensures
            r == *self,
    {
        let action = match &self.action {
            CommandAction::Steer(st) => CommandAction::Steer(Steer {
                invocation_id: st.invocation_id.clone(),
                input_id: st.input_id.clone(),
                text: st.text.clone(),
                history_through_message_id: st.history_through_message_id.clone(),
            }),
            CommandAction::Invoke { invocation_id, objective } => CommandAction::Invoke {
                invocation_id: invocation_id.clone(),
                objective: objective.clone(),
            },
            CommandAction::Other => CommandAction::Other,
        };
        Command {
            attempt_id: self.attempt_id,
            command_id: self.command_id.clone(),
            action,
            acked_at: self.acked_at,
            finished_at: self.finished_at,
            failure: self.failure.clone(),
        }
    }
}

impl Message {
    /// A field-by-field copy.
    pub fn duplicate(&self) -> (r: Message)
        ensures
            r == *self,
    {
        Message {
            id: self.id.clone(),
            thread_id: self.thread_id.clone(),
            participant_id: self.participant_id.clone(),
            text: self.text.clone(),
            status: self.status.clone(),
            created_seconds: self.created_seconds,
            created_nanos: self.created_nanos,
        }
    }
}

/// A message with the position it was first stored at.
#[derive(Clone, Debug)]
pub struct StoredMessage {
    /// Milliseconds of the creation time of the first version stored.
    pub created: i64,
    pub key: u128,
    pub message: Message,
}

/// A command handed to the agent process and what became of it.
#[derive(Clone, Debug)]
pub struct Command {
    pub attempt_id: u128,
    pub command_id: String,
    pub action: CommandAction,
    pub acked_at: Option<i64>,
    pub finished_at: Option<i64>,
    pub failure: String,
}

/// An input steering an invocation: a message the agent has yet to take in.
#[derive(Clone, Debug)]
pub struct Steer {
    pub invocation_id: String,
    pub input_id: String,
    pub text: String,
    pub history_through_message_id: String,
}

/// What a command asks of the agent process.
#[derive(Clone, Debug)]
pub enum CommandAction {
    /// Take in an input.
    Steer(Steer),
    /// Start an invocation toward an objective.
    Invoke { invocation_id: String, objective: String },
    /// Anything else (stops, controls).
    Other,
}

/// The state of one invocation of an agent.
#[derive(Clone, Debug)]
pub struct InvocationState {
    pub id: String,
    pub agent_id: String,
    /// The run the invocation serves.
    pub run_id: String,
    /// The agent's participant in the conversation.
    pub participant_id: String,
    /// The lease epoch it was started under.
    pub generation: u64,
    pub status: String,
    pub ended_at: i64,
}

/// A run: an objective an agent pursues through one invocation after another.
#[derive(Clone, Debug)]
pub struct Run {
    pub key: u128,
    pub objective: String,
    pub status: String,
    /// The run's latest invocation and its status as last recorded.
    pub invocation_id: String,
    pub invocation_status: String,
}

/// One event queued for the gateway.
#[derive(Clone, Debug)]
pub struct QueuedEvent {
    pub id: String,
    pub kind: String,
    pub sequence: i64,
}

/// The cached state of one conversation.
pub struct ThreadState {
    /// Messages ordered by creation time, then key; no key twice.
    pub messages: Vec<StoredMessage>,
    pub commands: Vec<Command>,
    pub invocations: Vec<InvocationState>,
    pub runs: Vec<Run>,
    /// The goals, tasks and tool reports kept for the agent.
    pub work: Work,
    pub events: VecDeque<QueuedEvent>,
    pub sequence: i64,
    pub last_activity_at: i64,
    pub lease: Lease,
}

/// Who executes a thread. `epoch` rises each time this replica takes the
/// lease, so an agent process can tell a fresh invocation from a stale one.
#[derive(Debug)]
pub struct Lease {
    pub holder: Option<u128>,
    pub holder_url: String,
    pub epoch: u64,
}

/// The order of stored positions: by creation time, then key.
pub open spec fn before(a: StoredMessage, b: StoredMessage) -> bool {
    a.created < b.created || (a.created == b.created && a.key < b.key)
}

/// Messages in strictly increasing position, each key once.
pub open spec fn ordered(s: Seq<StoredMessage>) -> bool {
    &&& forall|i: int, j: int| 0 <= i < j < s.len() ==> before(#[trigger] s[i], #[trigger] s[j])
    &&& forall|i: int, j: int|
        0 <= i < s.len() && 0 <= j < s.len() && i != j ==> #[trigger] s[i].key != #[trigger] s[j].key
}

/// Whether a message with this key is stored.
pub open spec fn has_key(s: Seq<StoredMessage>, key: u128) -> bool {
    exists|i: int| 0 <= i < s.len() && #[trigger] s[i].key == key
}

/// The message stored under `key`, if any.
pub open spec fn lookup(s: Seq<StoredMessage>, key: u128) -> Option<Message> {
    if has_key(s, key) {
        Some(s[choose|i: int| 0 <= i < s.len() && #[trigger] s[i].key == key].message)
    } else {
        None
    }
}

/// Creation times whose milliseconds fit the position's integer.
pub open spec fn millis_fit(m: Message) -> bool {
    i64::MIN + 2148 <= m.created_seconds * 1000 <= i64::MAX - 2148
}

/// The commands that are kept when `excess` finished ones must go: the oldest
/// finished commands are dropped until `excess` are gone.
pub open spec fn prune(s: Seq<Command>, excess: nat) -> Seq<Command>
    decreases s.len(),
{
    if s.len() == 0 {
        s
    } else if excess > 0 && s[0].finished_at is Some {
        prune(s.drop_first(), (excess - 1) as nat)
    } else {
        seq![s[0]] + prune(s.drop_first(), excess)
    }
}

/// The commands still waiting to finish, in order.
pub open spec fn unfinished(s: Seq<Command>) -> Seq<Command>
    decreases s.len(),
{
    if s.len() == 0 {
        s
    } else if s[0].finished_at is None {
        seq![s[0]] + unfinished(s.drop_first())
    } else {
        unfinished(s.drop_first())
    }
}

/// What `push_command` leaves of the history `s` after appending `c`.
pub open spec fn pushed(s: Seq<Command>, c: Command) -> Seq<Command> {
    let t = s.push(c);
    if t.len() > COMMAND_LIMIT {
        prune(t, (t.len() - COMMAND_LIMIT) as nat)
    } else {
        t
    }
}

/// An invocation of `agent` that has not ended.
pub open spec fn is_active_for(v: InvocationState, agent: u128) -> bool {
    &&& v.agent_id@ == hyphenated(agent)
    &&& (v.status@ == "pending"@ || v.status@ == "running"@)
}

/// The last `EVENT_WINDOW` events, or all where there are fewer.
pub open spec fn window(s: Seq<QueuedEvent>) -> Seq<QueuedEvent> {
    if s.len() > EVENT_WINDOW {
        s.subrange(s.len() - EVENT_WINDOW, s.len() as int)
    } else {
        s
    }
}

/// Pruning never drops an unfinished command, nor reorders them.
pub proof fn lemma_prune_unfinished(s: Seq<Command>, excess: nat)
    ensures
        unfinished(prune(s, excess)) == unfinished(s),
    decreases s.len(),
{
    if s.len() > 0 {
        lemma_prune_unfinished(s.drop_first(), if excess > 0 && s[0].finished_at is Some { (excess - 1) as nat } else { excess });
        if !(excess > 0 && s[0].finished_at is Some) {
            let t = seq![s[0]] + prune(s.drop_first(), excess);
            assert(t.drop_first() =~= prune(s.drop_first(), excess));
            assert(t[0] == s[0]);
        }
    }
}

/// Pruning drops `excess` finished commands, or all of them where there are fewer.
pub proof fn lemma_prune_len(s: Seq<Command>, excess: nat)
    ensures
        unfinished(s).len() <= s.len(),
        prune(s, excess).len() == s.len() - (if excess <= s.len() - unfinished(s).len() {
            excess as int
        } else {
            s.len() - unfinished(s).len()
        }),
    decreases s.len(),
{
    if s.len() > 0 {
        lemma_prune_len(s.drop_first(), if excess > 0 && s[0].finished_at is Some { (excess - 1) as nat } else { excess });
        lemma_prune_len(s.drop_first(), excess);
    }
}

/// A history whose unfinished commands are all of it holds nothing else.
proof fn lemma_all_unfinished(s: Seq<Command>)
    requires
        unfinished(s).len() == s.len(),
    ensures
        unfinished(s) == s,
    decreases s.len(),
{
    if s.len() > 0 {
        lemma_prune_len(s.drop_first(), 0);
        if s[0].finished_at is None {
            lemma_all_unfinished(s.drop_first());
            assert(seq![s[0]] + s.drop_first() =~= s);
        }
    }
}

/// Appending a command never loses an unfinished one: the history keeps every
/// unfinished command, in order, and the new one.
pub proof fn law_push_keeps_unfinished(s: Seq<Command>, c: Command)
    ensures
        unfinished(pushed(s, c)) == unfinished(s.push(c)),
{
    let t = s.push(c);
    if t.len() > COMMAND_LIMIT {
        lemma_prune_unfinished(t, (t.len() - COMMAND_LIMIT) as nat);
    }
}

/// The command history stays within its limit, unless every command it keeps is
/// still unfinished.
pub proof fn law_push_bounded(s: Seq<Command>, c: Command)
    ensures
        pushed(s, c).len() <= COMMAND_LIMIT || unfinished(pushed(s, c)) == pushed(s, c),
{
    let t = s.push(c);
    let r = pushed(s, c);
    if t.len() > COMMAND_LIMIT {
        let e = (t.len() - COMMAND_LIMIT) as nat;
        lemma_prune_len(t, e);
        lemma_prune_unfinished(t, e);
        lemma_prune_len(r, 0);
        if r.len() > COMMAND_LIMIT {
            assert(unfinished(r).len() == r.len());
            lemma_all_unfinished(r);
        }
    }
}

/// The retained events are the newest ones, never more than the window holds.
pub proof fn law_window(s: Seq<QueuedEvent>)
    ensures
        window(s).len() <= EVENT_WINDOW || window(s) == s,
        window(s).len() == if s.len() > EVENT_WINDOW { EVENT_WINDOW as nat } else { s.len() },
        forall|i: int| 0 <= i < window(s).len()
            ==> #[trigger] window(s)[i] == s[s.len() - window(s).len() + i],
{
}

/// Inserting an element into an ordered sequence before every later position.
proof fn lemma_insert_ordered(s: Seq<StoredMessage>, p: int, x: StoredMessage)
    requires
        ordered(s),
        0 <= p <= s.len(),
        forall|i: int| 0 <= i < p ==> before(#[trigger] s[i], x),
        forall|i: int| p <= i < s.len() ==> before(x, #[trigger] s[i]),
        !has_key(s, x.key),
    ensures
        ordered(s.insert(p, x)),
{
    let t = s.insert(p, x);
    assert forall|i: int, j: int| 0 <= i < j < t.len() implies before(#[trigger] t[i], #[trigger] t[j]) by {
        if j < p {
        } else if i < p && j == p {
        } else if i < p && j > p {
            assert(t[j] == s[j - 1]);
        } else if i == p {
            assert(t[j] == s[j - 1]);
        } else {
            assert(t[i] == s[i - 1]);
            assert(t[j] == s[j - 1]);
        }
    }
    assert forall|i: int, j: int|
        0 <= i < t.len() && 0 <= j < t.len() && i != j implies #[trigger] t[i].key != #[trigger] t[j].key by {
        if i == p {
            if j < p {
                assert(s[j].key != x.key);
            } else {
                assert(t[j] == s[j - 1]);
                assert(s[j - 1].key != x.key);
            }
        } else if j == p {
            if i < p {
                assert(s[i].key != x.key);
            } else {
                assert(t[i] == s[i - 1]);
                assert(s[i - 1].key != x.key);
            }
        } else {
            let a = if i < p { i } else { i - 1 };
            let b = if j < p { j } else { j - 1 };
            assert(t[i] == s[a]);
            assert(t[j] == s[b]);
        }
    }
}

/// In an ordered sequence, the element holding a key is the one `lookup` finds.
proof fn lemma_lookup_at(s: Seq<StoredMessage>, i: int)
    requires
        ordered(s),
        0 <= i < s.len(),
    ensures
        has_key(s, s[i].key),
        lookup(s, s[i].key) == Some(s[i].message),
{
    let k = s[i].key;
    assert(has_key(s, k));
    let j = choose|j: int| 0 <= j < s.len() && #[trigger] s[j].key == k;
    assert(s[j].key == k);
    if j != i {
        assert(s[i].key != s[j].key);
    }
}

impl ThreadState {
    /// A well-formed state: messages ordered by position, no key twice, each
    /// stored under the key its identifier names, with a creation time whose
    /// milliseconds fit.
    pub open spec fn wf(&self) -> bool {
        &&& ordered(self.messages@)
        &&& forall|i: int| 0 <= i < self.messages@.len() ==> {
            let m = #[trigger] self.messages@[i];
            parsed_uuid(m.message.id@) == Some(m.key) && millis_fit(m.message)
        }
    }

    /// An empty conversation state.
    pub fn new(now: i64) -> (r: Self)
        ensures
            r.wf(),
            r.messages@.len() == 0,
            r.commands@.len() == 0,
            r.invocations@.len() == 0,
            r.runs@.len() == 0,
            r.work.goals@.len() == 0,
            r.work.tasks@.len() == 0,
            r.work.tool_calls@.len() == 0,
            r.events@.len() == 0,
            r.sequence == 0,
            r.last_activity_at == now,
            r.lease.holder is None,
            r.lease.epoch == 0,
    {
        ThreadState {
            messages: Vec::new(),
            commands: Vec::new(),
            invocations: Vec::new(),
            runs: Vec::new(),
            work: Work { goals: Vec::new(), tasks: Vec::new(), tool_calls: Vec::new() },
            events: VecDeque::new(),
            sequence: 0,
            last_activity_at: now,
            lease: Lease { holder: None, holder_url: String::new(), epoch: 0 },
        }
    }

    /// The index of the message stored under `key`.
    pub(crate) fn position(&self, key: u128) -> (r: Option<usize>)
        requires
            self.wf(),
        ensures
            match r {
                Some(i) => i < self.messages@.len() && self.messages@[i as int].key == key,
                None => !has_key(self.messages@, key),
            },
    {
        let mut i: usize = 0;
        while i < self.messages.len()
            invariant
                0 <= i <= self.messages@.len(),
                forall|j: int| 0 <= j < i ==> #[trigger] self.messages@[j].key != key,
            decreases self.messages@.len() - i,
        {
            if self.messages[i].key == key {
                return Some(i);
            }
            i = i + 1;
        }
        None
    }

    /// The message stored under `key`.
    pub fn message(&self, key: u128) -> (r: Option<&Message>)
        requires
            self.wf(),
        ensures
            match r {
                Some(m) => lookup(self.messages@, key) == Some(*m),
                None => lookup(self.messages@, key) is None,
            },
    {
        match self.position(key) {
            Some(i) => {
                proof {
                    lemma_lookup_at(self.messages@, i as int);
                }
                Some(&self.messages[i].message)
            },
            None => None,
        }
    }

    /// Stores a message under the key its identifier names: a known key keeps
    /// its position and gets the new version, which hands back the old one; a new
    /// key goes to the position of its creation time. A message whose identifier
    /// is no UUID is not stored.
    pub fn upsert_message(&mut self, message: Message) -> (r: Option<Message>)
        requires
            old(self).wf(),
            millis_fit(message),
        ensures
            final(self).wf(),
            final(self).commands@ == old(self).commands@,
            final(self).invocations@ == old(self).invocations@,
            final(self).events@ == old(self).events@,
            final(self).runs@ == old(self).runs@,
            final(self).sequence == old(self).sequence,
            final(self).last_activity_at == old(self).last_activity_at,
            final(self).lease == old(self).lease,
            match parsed_uuid(message.id@) {
                None => final(self).messages@ == old(self).messages@ && r is None,
                Some(key) => {
                    &&& lookup(final(self).messages@, key) == Some(message)
                    &&& r == lookup(old(self).messages@, key)
                    &&& forall|k: u128| k != key ==> #[trigger] lookup(final(self).messages@, k)
                        == lookup(old(self).messages@, k)
                    &&& final(self).messages@.len() == old(self).messages@.len()
                        + (if has_key(old(self).messages@, key) { 0int } else { 1int })
                },
            },
    {
        let key = match parse_uuid(message.id.as_str()) {
            Some(key) => key,
            None => return None,
        };
        let ghost s = self.messages@;
        match self.position(key) {
            Some(i) => {
                proof {
                    lemma_lookup_at(s, i as int);
                }
                let created = self.messages[i].created;
                let previous = self.messages[i].message.duplicate();
                let stored = StoredMessage { created, key, message };
                self.messages.set(i, stored);
                proof {
                    let t = self.messages@;
                    assert forall|a: int, b: int| 0 <= a < b < t.len() implies before(#[trigger] t[a], #[trigger] t[b]) by {
                        assert(before(s[a], s[b]));
                    }
                    assert forall|a: int, b: int|
                        0 <= a < t.len() && 0 <= b < t.len() && a != b implies #[trigger] t[a].key != #[trigger] t[b].key by {
                        assert(s[a].key != s[b].key);
                    }
                    lemma_lookup_at(t, i as int);
                    assert forall|k: u128| k != key implies #[trigger] lookup(t, k) == lookup(s, k) by {
                        if has_key(s, k) {
                            let j = choose|j: int| 0 <= j < s.len() && #[trigger] s[j].key == k;
                            lemma_lookup_at(s, j);
                            assert(t[j] == s[j]);
                            lemma_lookup_at(t, j);
                        }
                        if has_key(t, k) {
                            let j = choose|j: int| 0 <= j < t.len() && #[trigger] t[j].key == k;
                            assert(s[j] == t[j]);
                        }
                    }
                }
                Some(previous)
            },
            None => {
                let created = message.created_seconds * 1000 + (message.created_nanos as i64) / 1_000_000;
                let stored = StoredMessage { created, key, message };
                let mut p: usize = 0;
                while p < self.messages.len()
                    invariant
                        self.messages@ == s,
                        0 <= p <= s.len(),
                        ordered(s),
                        !has_key(s, key),
                        stored.key == key,
                        stored.created == created,
                        forall|j: int| 0 <= j < p ==> before(#[trigger] s[j], stored),
                    ensures
                        0 <= p <= s.len(),
                        forall|j: int| 0 <= j < p ==> before(#[trigger] s[j], stored),
                        p < s.len() ==> before(stored, s[p as int]),
                    decreases s.len() - p,
                {
                    let c = self.messages[p].created;
                    let k = self.messages[p].key;
                    if created < c || (created == c && key < k) {
                        break;
                    }
                    assert(s[p as int].key != key);
                    p = p + 1;
                }
                proof {
                    assert forall|j: int| p <= j < s.len() implies before(stored, #[trigger] s[j]) by {
                        if p < s.len() && j > p {
                            assert(before(s[p as int], s[j]));
                        }
                        assert(s[j].key != key);
                    }
                    lemma_insert_ordered(s, p as int, stored);
                }
                self.messages.insert(p, stored);
                proof {
                    let t = self.messages@;
                    lemma_lookup_at(t, p as int);
                    assert forall|k: u128| k != key implies #[trigger] lookup(t, k) == lookup(s, k) by {
                        if has_key(s, k) {
                            let j = choose|j: int| 0 <= j < s.len() && #[trigger] s[j].key == k;
                            lemma_lookup_at(s, j);
                            let jj = if j < p { j } else { j + 1 };
                            assert(t[jj] == s[j]);
                            lemma_lookup_at(t, jj);
                        }
                        if has_key(t, k) {
                            let j = choose|j: int| 0 <= j < t.len() && #[trigger] t[j].key == k;
                            if j < p {
                                assert(s[j] == t[j]);
                            } else if j > p {
                                assert(s[j - 1] == t[j]);
                            }
                        }
                    }
                }
                None
            },
        }
    }

    /// Appends a command and keeps the history bounded: past the limit, the
    /// oldest finished commands go until the limit is met; unfinished ones stay.
    pub fn push_command(&mut self, command: Command)
        ensures
            final(self).commands@ == pushed(old(self).commands@, command),
            final(self).messages@ == old(self).messages@,
            final(self).invocations@ == old(self).invocations@,
            final(self).events@ == old(self).events@,
            final(self).runs@ == old(self).runs@,
            final(self).sequence == old(self).sequence,
            final(self).last_activity_at == old(self).last_activity_at,
            final(self).lease == old(self).lease,
    {
        self.commands.push(command);
        if self.commands.len() > COMMAND_LIMIT {
            let ghost s = self.commands@;
            let ghost e0: nat = (s.len() - COMMAND_LIMIT) as nat;
            let mut excess: usize = self.commands.len() - COMMAND_LIMIT;
            let mut kept: Vec<Command> = Vec::new();
            let mut i: usize = 0;
            assert(s.subrange(0, s.len() as int) =~= s);
            assert(kept@ + prune(s, e0) =~= prune(s, e0));
            while i < self.commands.len()
                invariant
                    self.commands@ == s,
                    0 <= i <= s.len(),
                    kept@ + prune(s.subrange(i as int, s.len() as int), excess as nat) == prune(s, e0),
                decreases s.len() - i,
            {
                let ghost rest = s.subrange(i as int, s.len() as int);
                assert(rest.drop_first() =~= s.subrange(i + 1, s.len() as int));
                let c = self.commands[i].duplicate();
                if excess > 0 && c.finished_at.is_some() {
                    excess = excess - 1;
                } else {
                    assert(kept@.push(c) + prune(rest.drop_first(), excess as nat)
                        =~= kept@ + (seq![c] + prune(rest.drop_first(), excess as nat)));
                    kept.push(c);
                }
                i = i + 1;
            }
            assert(s.subrange(s.len() as int, s.len() as int) =~= Seq::<Command>::empty());
            assert(kept@ + prune(Seq::<Command>::empty(), excess as nat) =~= kept@);
            self.commands = kept;
        }
    }

    /// The latest command with this identifier.
    pub fn command(&self, id: &str) -> (r: Option<&Command>)
        ensures
            match r {
                Some(c) => exists|i: int| {
                    &&& 0 <= i < self.commands@.len()
                    &&& self.commands@[i] == *c
                    &&& c.command_id@ == id@
                    &&& forall|j: int| i < j < self.commands@.len() ==> #[trigger] self.commands@[j].command_id@ != id@
                },
                None => forall|j: int| 0 <= j < self.commands@.len() ==> #[trigger] self.commands@[j].command_id@ != id@,
            },
    {
        let mut i: usize = self.commands.len();
        while i > 0
            invariant
                0 <= i <= self.commands@.len(),
                forall|j: int| i <= j < self.commands@.len() ==> #[trigger] self.commands@[j].command_id@ != id@,
            decreases i,
        {
            i = i - 1;
            if str_eq(self.commands[i].command_id.as_str(), id) {
                return Some(&self.commands[i]);
            }
        }
        None
    }

    /// An invocation of `agent` that is pending or running.
    pub fn active_invocation(&self, agent: u128) -> (r: Option<&InvocationState>)
        ensures
            match r {
                Some(v) => self.invocations@.contains(*v) && is_active_for(*v, agent),
                None => forall|j: int| 0 <= j < self.invocations@.len()
                    ==> !is_active_for(#[trigger] self.invocations@[j], agent),
            },
    {
        let text = uuid_text(agent);
        let mut i: usize = 0;
        while i < self.invocations.len()
            invariant
                text@ == hyphenated(agent),
                0 <= i <= self.invocations@.len(),
                forall|j: int| 0 <= j < i ==> !is_active_for(#[trigger] self.invocations@[j], agent),
            decreases self.invocations@.len() - i,
        {
            let v = &self.invocations[i];
            if str_eq(v.agent_id.as_str(), text.as_str())
                && (str_eq(v.status.as_str(), "pending") || str_eq(v.status.as_str(), "running"))
            {
                assert(self.invocations@[i as int] == *v);
                return Some(v);
            }
            i = i + 1;
        }
        None
    }

    /// Drops the oldest events beyond the window.
    pub fn retain_window(&mut self)
        ensures
            final(self).events@ == window(old(self).events@),
            final(self).messages@ == old(self).messages@,
            final(self).commands@ == old(self).commands@,
            final(self).invocations@ == old(self).invocations@,
            final(self).runs@ == old(self).runs@,
            final(self).work == old(self).work,
            final(self).sequence == old(self).sequence,
            final(self).last_activity_at == old(self).last_activity_at,
            final(self).lease == old(self).lease,
    {
        let ghost o = self.events@;
        let ghost mut d: int = 0;
        while self.events.len() > EVENT_WINDOW
            invariant
                0 <= d <= o.len(),
                self.events@ == o.subrange(d, o.len() as int),
                o.len() > EVENT_WINDOW ==> d <= o.len() - EVENT_WINDOW,
                o.len() <= EVENT_WINDOW ==> d == 0,
                self.messages@ == old(self).messages@,
                self.commands@ == old(self).commands@,
                self.invocations@ == old(self).invocations@,
                self.runs@ == old(self).runs@,
                self.work == old(self).work,
                self.sequence == old(self).sequence,
                self.last_activity_at == old(self).last_activity_at,
                self.lease == old(self).lease,
            decreases self.events@.len(),
        {
            self.events.pop_front();
            proof {
                d = d + 1;
            }
        }
        assert(o.len() <= EVENT_WINDOW ==> o.subrange(0, o.len() as int) =~= o);
    }

    /// Appends one event to the conversation: it takes the next sequence
    /// number, marks the conversation active at its time, and joins the
    /// window of recent events. Returns a copy for the gateway's queue.
    pub fn append_event(&mut self, id: String, kind: String, created_at: i64) -> (r: QueuedEvent)
        requires
            old(self).sequence < i64::MAX,
        ensures
            r.id == id,
            r.kind == kind,
            r.sequence == old(self).sequence + 1,
            final(self).sequence == old(self).sequence + 1,
            final(self).last_activity_at == created_at,
            final(self).events@ == window(old(self).events@.push(r)),
            final(self).messages@ == old(self).messages@,
            final(self).commands@ == old(self).commands@,
            final(self).invocations@ == old(self).invocations@,
            final(self).runs@ == old(self).runs@,
            final(self).work == old(self).work,
            final(self).lease == old(self).lease,
    {
        self.sequence = self.sequence + 1;
        let event = QueuedEvent { id: id.clone(), kind: kind.clone(), sequence: self.sequence };
        self.last_activity_at = created_at;
        self.events.push_back(QueuedEvent { id, kind, sequence: self.sequence });
        self.retain_window();
        event
    }
}

} // verus!
