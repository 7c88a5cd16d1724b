//! Runs and their invocations in a conversation this replica holds: setting
//! a run's status, canceling an invocation, beginning one, starting a run,
//! steering an invocation and resuming a run.
use vstd::prelude::*;
use crate::deployment::inbox::{find_agent, first_agent, holds, is_agent_here};
use crate::deployment::ingest::Participant;
use crate::deployment::lease::active;
use crate::deployment::scheduling::{input_text, joined};
use crate::deployment::store::{
    COMMAND_LIMIT, Command, CommandAction, InvocationState, QueuedEvent, Run, Steer, ThreadState, is_active_for,
    lemma_prune_unfinished, prune, pushed, unfinished, window,
};
use crate::deployment::wire::ChatError;
use crate::ids::{be_bytes, be_bytes_of, hyphenated, name_based_uuid, name_uuid, parse_uuid, parsed_uuid, random_id, uuid_text};
use crate::oauth::{decimal, decimal_text};
use crate::text::str_eq;
use vstd::string::*;
use vstd::utf8::encode_utf8;

verus! {

/// The statuses a run may be given from outside.
pub open spec fn settable(status: Seq<char>) -> bool {
    status == "waiting"@ || status == "completed"@ || status == "failed"@ || status == "canceled"@
}

/// Refuses a status a run may not be given.
pub fn check_run_status(status: &str) -> (r: Result<(), ChatError>)
    ensures
        r is Ok <==> settable(status@),
        r matches Err(e) ==> (e matches ChatError::Invalid(m) && m@ == "Invalid run status"@),
{
    if str_eq(status, "waiting") || str_eq(status, "completed") || str_eq(status, "failed")
        || str_eq(status, "canceled") {
        Ok(())
    } else {
        Err(ChatError::Invalid("Invalid run status".to_owned()))
    }
}

/// The position of the first run under `key`.
pub open spec fn run_index(runs: Seq<Run>, key: u128, i: int) -> bool {
    &&& 0 <= i < runs.len()
    &&& runs[i].key == key
    &&& forall|j: int| 0 <= j < i ==> (#[trigger] runs[j]).key != key
}

/// No run is under `key`.
pub open spec fn no_run(runs: Seq<Run>, key: u128) -> bool {
    forall|j: int| 0 <= j < runs.len() ==> (#[trigger] runs[j]).key != key
}

/// The position of the first invocation with identifier `id`.
pub open spec fn invocation_index(vs: Seq<InvocationState>, id: Seq<char>, i: int) -> bool {
    &&& 0 <= i < vs.len()
    &&& vs[i].id@ == id
    &&& forall|j: int| 0 <= j < i ==> (#[trigger] vs[j]).id@ != id
}

/// No invocation has identifier `id`.
pub open spec fn no_invocation(vs: Seq<InvocationState>, id: Seq<char>) -> bool {
    forall|j: int| 0 <= j < vs.len() ==> (#[trigger] vs[j]).id@ != id
}

/// `after` is `before` with `r` in place of the run under its key, or with
/// `r` added where there was none.
pub open spec fn run_put(before: Seq<Run>, after: Seq<Run>, r: Run) -> bool {
    &&& no_run(before, r.key) ==> after == before.push(r)
    &&& forall|i: int| run_index(before, r.key, i) ==> after == before.update(i, r)
}

/// `after` is `before` with `v` in place of the invocation with its
/// identifier, or with `v` added where there was none.
pub open spec fn invocation_put(before: Seq<InvocationState>, after: Seq<InvocationState>, v: InvocationState) -> bool {
    &&& no_invocation(before, v.id@) ==> after == before.push(v)
    &&& forall|i: int| invocation_index(before, v.id@, i) ==> after == before.update(i, v)
}

/// An invocation that ended with `status` at `now`.
pub open spec fn ended_as(before: InvocationState, after: InvocationState, status: Seq<char>, now: i64) -> bool {
    &&& after.id == before.id
    &&& after.agent_id == before.agent_id
    &&& after.run_id == before.run_id
    &&& after.participant_id == before.participant_id
    &&& after.generation == before.generation
    &&& after.status@ == status
    &&& after.ended_at == now
}

/// An invocation canceled at `now`.
pub open spec fn canceled_invocation(before: InvocationState, after: InvocationState, now: i64) -> bool {
    ended_as(before, after, "canceled"@, now)
}

/// The status a run takes when its invocation ends with `status`: an active
/// run, or one being suspended, waits after a stop and otherwise takes the
/// invocation's status; a run in any other status keeps it.
pub open spec fn run_status_after(run: Seq<char>, status: Seq<char>) -> Seq<char> {
    if run == "active"@ || run == "suspending"@ {
        if status == "stopped"@ { "waiting"@ } else { status }
    } else {
        run
    }
}

/// A run after its invocation ended with `status`.
pub open spec fn run_after(before: Run, after: Run, status: Seq<char>) -> bool {
    &&& after.key == before.key
    &&& after.objective == before.objective
    &&& after.invocation_id == before.invocation_id
    &&& after.invocation_status@ == status
    &&& after.status@ == run_status_after(before.status@, status)
}

/// Whether `ids` holds `id`.
pub open spec fn named(ids: Seq<String>, id: Seq<char>) -> bool {
    exists|i: int| 0 <= i < ids.len() && (#[trigger] ids[i])@ == id
}

/// An input of `invocation` it did not take in: unfinished, and either named
/// among the inputs it reported pending or never acknowledged.
pub open spec fn unconsumed(c: Command, invocation: Seq<char>, pending: Seq<String>) -> bool {
    &&& c.finished_at is None
    &&& (c.action matches CommandAction::Steer(st) && st.invocation_id@ == invocation
        && (named(pending, st.input_id@) || c.acked_at is None))
}

/// The texts of the inputs `invocation` did not take in, in order.
pub open spec fn unconsumed_texts(s: Seq<Command>, invocation: Seq<char>, pending: Seq<String>) -> Seq<Seq<char>>
    decreases s.len(),
{
    if s.len() == 0 {
        Seq::empty()
    } else if unconsumed(s.last(), invocation, pending) {
        unconsumed_texts(s.drop_last(), invocation, pending).push(input_text(s.last()))
    } else {
        unconsumed_texts(s.drop_last(), invocation, pending)
    }
}

/// The history after `invocation` stopped: the inputs it did not take in are
/// finished at `now`, or, while its run is being suspended, left
/// unacknowledged so that they are offered again.
pub open spec fn settle_inputs(s: Seq<Command>, invocation: Seq<char>, pending: Seq<String>, suspending: bool, now: i64) -> Seq<Command> {
    s.map_values(|c: Command| if unconsumed(c, invocation, pending) {
        if suspending { Command { acked_at: None, ..c } } else { Command { finished_at: Some(now), ..c } }
    } else {
        c
    })
}

/// The key of the run that takes up the inputs invocation `invocation` left.
pub open spec fn follow_up_key(invocation: u128) -> u128 {
    name_based_uuid(invocation, encode_utf8("unconsumed-input"@))
}

/// What finishing an invocation did: the invocation as it ended and its run
/// where both were recorded, the events recorded (`invocation.ended`, then
/// `run.updated`), and the run started toward the inputs it left, if any.
#[derive(Debug)]
pub struct Finished {
    pub ended: Option<(InvocationState, Run)>,
    pub events: Vec<QueuedEvent>,
    pub next: Option<Started>,
}

/// A run whose invocation was canceled.
pub open spec fn canceled_run(before: Run, after: Run) -> bool {
    &&& after.key == before.key
    &&& after.objective == before.objective
    &&& after.invocation_id == before.invocation_id
    &&& after.status@ == "canceled"@
    &&& after.invocation_status@ == "canceled"@
}

/// `after` follows `before` by one event of kind `kind`, taking the next
/// sequence number, at `now`.
pub open spec fn emitted(before: ThreadState, after: ThreadState, e: QueuedEvent, kind: Seq<char>, now: i64) -> bool {
    &&& e.kind@ == kind
    &&& e.sequence == before.sequence + 1
    &&& after.sequence == before.sequence + 1
    &&& after.last_activity_at == now
    &&& after.events@ == window(before.events@.push(e))
}

/// The name an invocation's identifier is derived from: the replica, the
/// lease epoch and the run's previous invocation, joined by colons.
pub open spec fn invocation_name(instance: u128, epoch: u64, previous: Seq<char>) -> Seq<char> {
    hyphenated(instance) + seq![':'] + decimal_text(epoch as nat) + seq![':'] + previous
}

/// The identifier of the invocation a run begins on replica `instance` at `epoch`.
pub open spec fn invocation_key(run: u128, instance: u128, epoch: u64, previous: Seq<char>) -> u128 {
    name_based_uuid(run, encode_utf8(invocation_name(instance, epoch, previous)))
}

/// The attempt under which a command is handed out at `epoch`.
pub open spec fn attempt_key(command: u128, epoch: u64) -> u128 {
    name_based_uuid(command, be_bytes(epoch as nat, 8))
}

/// An invoke command toward `invocation` with `objective`, handed out at
/// `epoch` under `attempt`, not yet acknowledged nor finished.
pub open spec fn invoke_command(c: Command, invocation: Seq<char>, objective: Seq<char>, epoch: u64, attempt: u128) -> bool {
    &&& c.attempt_id == attempt
    &&& exists|k: u128| c.command_id@ == hyphenated(k) && attempt == #[trigger] attempt_key(k, epoch)
    &&& (c.action matches CommandAction::Invoke { invocation_id, objective: o } && invocation_id@ == invocation && o@ == objective)
    &&& c.acked_at is None && c.finished_at is None && c.failure@.len() == 0
}

/// The record of an invocation that begins: pending, for the agent's
/// participant, under the lease epoch.
pub open spec fn pending_invocation(v: InvocationState, id: u128, agent: u128, run: u128, participant: u128, epoch: u64) -> bool {
    &&& v.id@ == hyphenated(id)
    &&& v.agent_id@ == hyphenated(agent)
    &&& v.run_id@ == hyphenated(run)
    &&& v.participant_id@ == hyphenated(participant)
    &&& v.generation == epoch
    &&& v.status@ == "pending"@
    &&& v.ended_at == 0
}

/// What beginning an invocation hands back: the attempt the executor is to
/// pick up, and the events recorded.
#[derive(Debug)]
pub struct Begun {
    pub invocation: u128,
    pub attempt: u128,
    pub events: Vec<QueuedEvent>,
}

/// What beginning an invocation did to a conversation whose invocations,
/// commands, runs, events, sequence and lease epoch were those given, with
/// `after` the result: `out` is the run (`key`, `objective`, `status`) under
/// the new invocation, pending; the invocation is recorded as pending for the
/// agent's participant under the epoch; an invoke command joins the history;
/// the run is put in place; `run.created` and `invocation.pending` are
/// recorded as events.
pub open spec fn began_from(
    invocations: Seq<InvocationState>,
    commands: Seq<Command>,
    runs: Seq<Run>,
    events: Seq<QueuedEvent>,
    sequence: int,
    epoch: u64,
    after: ThreadState,
    key: u128,
    objective: Seq<char>,
    status: Seq<char>,
    previous: Seq<char>,
    out: Run,
    b: Begun,
    instance: u128,
    agent: u128,
    participant: u128,
    now: i64,
) -> bool {
    let inv = invocation_key(key, instance, epoch, previous);
    &&& out.key == key
    &&& out.objective@ == objective
    &&& out.status@ == status
    &&& b.invocation == inv
    &&& out.invocation_id@ == hyphenated(inv)
    &&& out.invocation_status@ == "pending"@
    &&& exists|v: InvocationState| #[trigger] pending_invocation(v, inv, agent, key, participant, epoch)
        && invocation_put(invocations, after.invocations@, v)
    &&& exists|c: Command| #[trigger] invoke_command(c, hyphenated(inv), objective, epoch, b.attempt)
        && after.commands@ == pushed(commands, c)
    &&& run_put(runs, after.runs@, out)
    &&& b.events@.len() == 2
    &&& b.events@[0].kind@ == "run.created"@ && b.events@[1].kind@ == "invocation.pending"@
    &&& b.events@[0].sequence == sequence + 1 && b.events@[1].sequence == sequence + 2
    &&& after.sequence == sequence + 2
    &&& after.events@ == window(window(events.push(b.events@[0])).push(b.events@[1]))
    &&& after.last_activity_at == now
}

/// What beginning an invocation did, from `before` to `after` (see
/// `began_from`); the messages and the lease stay as they were.
pub open spec fn began(
    before: ThreadState,
    after: ThreadState,
    key: u128,
    objective: Seq<char>,
    status: Seq<char>,
    previous: Seq<char>,
    out: Run,
    b: Begun,
    instance: u128,
    agent: u128,
    participant: u128,
    now: i64,
) -> bool {
    &&& began_from(before.invocations@, before.commands@, before.runs@, before.events@, before.sequence as int,
        before.lease.epoch, after, key, objective, status, previous, out, b, instance, agent, participant, now)
    &&& after.messages@ == before.messages@
    &&& after.lease == before.lease
}

/// The run as it is shown: with the status of its invocation as the
/// conversation records it now, where its invocation is known.
pub open spec fn viewed(vs: Seq<InvocationState>, run: Run, out: Run) -> bool {
    &&& out.key == run.key
    &&& out.objective == run.objective
    &&& out.status == run.status
    &&& out.invocation_id == run.invocation_id
    &&& match parsed_uuid(run.invocation_id@) {
        Some(k) => {
            &&& no_invocation(vs, hyphenated(k)) ==> out.invocation_status == run.invocation_status
            &&& forall|i: int| #[trigger] invocation_index(vs, hyphenated(k), i) ==> out.invocation_status == vs[i].status
        },
        None => out.invocation_status == run.invocation_status,
    }
}

/// The name a run's identifier is derived from: the agent as the request
/// names it and the request's idempotency key.
pub open spec fn run_name(agent_text: Seq<char>, idempotency_key: Seq<char>) -> Seq<char> {
    agent_text + seq![':'] + idempotency_key
}

/// The identifier of the run a request starts in conversation `thread`.
pub open spec fn run_key(thread: u128, agent_text: Seq<char>, idempotency_key: Seq<char>) -> u128 {
    name_based_uuid(thread, encode_utf8(run_name(agent_text, idempotency_key)))
}

/// What starting a run hands back: the run, and what beginning its
/// invocation did, unless the run was already there.
#[derive(Debug)]
pub struct Started {
    pub run: Run,
    pub begun: Option<Begun>,
}

/// The identifier of the command that hands input `input` to invocation `invocation`.
pub open spec fn input_command_key(invocation: u128, input: u128) -> u128 {
    name_based_uuid(invocation, be_bytes(input as nat, 16))
}

/// A steering command under identifier `key`, handed out at `epoch`, that
/// gives input `input_id` with `text` to invocation `invocation_id`.
pub open spec fn steer_command(c: Command, key: u128, invocation_id: Seq<char>, input_id: Seq<char>, text: Seq<char>, history: Seq<char>, epoch: u64) -> bool {
    &&& c.command_id@ == hyphenated(key)
    &&& c.attempt_id == attempt_key(key, epoch)
    &&& (c.action matches CommandAction::Steer(st) && st.invocation_id@ == invocation_id && st.input_id@ == input_id
        && st.text@ == text && st.history_through_message_id@ == history)
    &&& c.acked_at is None && c.finished_at is None && c.failure@.len() == 0
}

/// An input still waiting for invocation `previous`: neither acknowledged nor finished.
pub open spec fn carries(c: Command, previous: Seq<char>) -> bool {
    &&& c.acked_at is None
    &&& c.finished_at is None
    &&& (c.action matches CommandAction::Steer(st) && st.invocation_id@ == previous)
}

/// The inputs waiting for `previous`, in order.
pub open spec fn carried(s: Seq<Command>, previous: Seq<char>) -> Seq<Command>
    decreases s.len(),
{
    if s.len() == 0 {
        Seq::empty()
    } else if carries(s.last(), previous) {
        carried(s.drop_last(), previous).push(s.last())
    } else {
        carried(s.drop_last(), previous)
    }
}

/// The history with each input waiting for `previous` finished at `now`.
pub open spec fn finish_carried(s: Seq<Command>, previous: Seq<char>, now: i64) -> Seq<Command> {
    s.map_values(|c: Command| if carries(c, previous) { Command { finished_at: Some(now), ..c } } else { c })
}

/// The input identifier a command carries.
pub open spec fn input_of(c: Command) -> Seq<char> {
    match c.action {
        CommandAction::Steer(st) => st.input_id@,
        _ => Seq::empty(),
    }
}

/// `next` hands the input of `c` to invocation `invocation` (key `key`) at `epoch`.
pub open spec fn handed_over(c: Command, next: Command, invocation: Seq<char>, key: u128, epoch: u64) -> bool {
    match c.action {
        CommandAction::Steer(st) => match parsed_uuid(st.input_id@) {
            Some(input) => steer_command(next, input_command_key(key, input), invocation, st.input_id@, st.text@,
                st.history_through_message_id@, epoch),
            None => false,
        },
        _ => false,
    }
}

/// The history after pushing each of `cs` in turn.
pub open spec fn pushed_all(s: Seq<Command>, cs: Seq<Command>) -> Seq<Command>
    decreases cs.len(),
{
    if cs.len() == 0 {
        s
    } else {
        pushed(pushed_all(s, cs.drop_last()), cs.last())
    }
}

/// What handing the inputs waiting for `previous` over to `next` did, from
/// `before` to `after`: each is finished at `now` and given again to `next`,
/// in order; nothing else changes.
pub open spec fn carried_over(before: ThreadState, after: ThreadState, previous: Seq<char>, next: Seq<char>, next_key: u128, now: i64) -> bool {
    &&& exists|nexts: Seq<Command>| {
        let cs = carried(before.commands@, previous);
        &&& #[trigger] nexts.len() == cs.len()
        &&& forall|k: int| 0 <= k < cs.len() ==> handed_over(cs[k], #[trigger] nexts[k], next, next_key, before.lease.epoch)
        &&& after.commands@ == pushed_all(finish_carried(before.commands@, previous, now), nexts)
    }
    &&& after.messages@ == before.messages@
    &&& after.invocations@ == before.invocations@
    &&& after.runs@ == before.runs@
    &&& after.events@ == before.events@
    &&& after.sequence == before.sequence
    &&& after.last_activity_at == before.last_activity_at
    &&& after.lease == before.lease
}

/// Every input waiting for `previous` names itself by an identifier that parses.
pub open spec fn inputs_parse(s: Seq<Command>, previous: Seq<char>) -> bool {
    forall|k: int| 0 <= k < carried(s, previous).len() ==> parsed_uuid(input_of(#[trigger] carried(s, previous)[k])) is Some
}

/// The first run under `key`.
fn find_run(runs: &Vec<Run>, key: u128) -> (r: Option<usize>)
    ensures
        match r {
            Some(i) => run_index(runs@, key, i as int),
            None => no_run(runs@, key),
        },
{
    let mut i: usize = 0;
    while i < runs.len()
        invariant
            0 <= i <= runs@.len(),
            forall|j: int| 0 <= j < i ==> (#[trigger] runs@[j]).key != key,
        decreases runs@.len() - i,
    {
        if runs[i].key == key {
            return Some(i);
        }
        i = i + 1;
    }
    None
}

/// The first invocation with identifier `id`.
fn find_invocation(vs: &Vec<InvocationState>, id: &str) -> (r: Option<usize>)
    ensures
        match r {
            Some(i) => invocation_index(vs@, id@, i as int),
            None => no_invocation(vs@, id@),
        },
{
    let mut i: usize = 0;
    while i < vs.len()
        invariant
            0 <= i <= vs@.len(),
            forall|j: int| 0 <= j < i ==> (#[trigger] vs@[j]).id@ != id@,
        decreases vs@.len() - i,
    {
        if str_eq(vs[i].id.as_str(), id) {
            return Some(i);
        }
        i = i + 1;
    }
    None
}

impl Run {
    /// A field-by-field copy.
    pub fn duplicate(&self) -> (r: Run)
        ensures
            r == *self,
    {
        Run {
            key: self.key,
            objective: self.objective.clone(),
            status: self.status.clone(),
            invocation_id: self.invocation_id.clone(),
            invocation_status: self.invocation_status.clone(),
        }
    }
}

impl InvocationState {
    /// A field-by-field copy.
    pub fn duplicate(&self) -> (r: InvocationState)
        ensures
            r == *self,
    {
        InvocationState {
            id: self.id.clone(),
            agent_id: self.agent_id.clone(),
            run_id: self.run_id.clone(),
            participant_id: self.participant_id.clone(),
            generation: self.generation,
            status: self.status.clone(),
            ended_at: self.ended_at,
        }
    }
}

impl ThreadState {
    /// Records one event of kind `kind` at `now` under a fresh identifier.
    pub(crate) fn emit(&mut self, kind: &str, now: i64) -> (e: QueuedEvent)
        requires
            old(self).sequence < i64::MAX,
        ensures
            emitted(*old(self), *final(self), e, kind@, now),
            final(self).messages@ == old(self).messages@,
            final(self).commands@ == old(self).commands@,
            final(self).invocations@ == old(self).invocations@,
            final(self).runs@ == old(self).runs@,
            final(self).work == old(self).work,
            final(self).lease == old(self).lease,
    {
        let id = uuid_text(random_id());
        self.append_event(id, kind.to_owned(), now)
    }

    /// Puts `r` in place of the run under its key, or adds it.
    fn put_run(&mut self, r: Run)
        ensures
            run_put(old(self).runs@, final(self).runs@, r),
            final(self).messages@ == old(self).messages@,
            final(self).commands@ == old(self).commands@,
            final(self).invocations@ == old(self).invocations@,
            final(self).events@ == old(self).events@,
            final(self).sequence == old(self).sequence,
            final(self).last_activity_at == old(self).last_activity_at,
            final(self).lease == old(self).lease,
    {
        match find_run(&self.runs, r.key) {
            Some(i) => {
                proof {
                    assert forall|k: int| run_index(old(self).runs@, r.key, k) implies k == i by {
                        if k < i {
                            assert(old(self).runs@[k].key != r.key);
                        } else if k > i {
                            assert(old(self).runs@[i as int].key != r.key);
                        }
                    }
                }
                self.runs.set(i, r);
            },
            None => self.runs.push(r),
        }
    }

    /// Puts `v` in place of the invocation with its identifier, or adds it.
    fn put_invocation(&mut self, v: InvocationState)
        ensures
            invocation_put(old(self).invocations@, final(self).invocations@, v),
            final(self).messages@ == old(self).messages@,
            final(self).commands@ == old(self).commands@,
            final(self).runs@ == old(self).runs@,
            final(self).events@ == old(self).events@,
            final(self).sequence == old(self).sequence,
            final(self).last_activity_at == old(self).last_activity_at,
            final(self).lease == old(self).lease,
    {
        match find_invocation(&self.invocations, v.id.as_str()) {
            Some(i) => {
                proof {
                    assert forall|k: int| invocation_index(old(self).invocations@, v.id@, k) implies k == i by {
                        if k < i {
                            assert(old(self).invocations@[k].id@ != v.id@);
                        } else if k > i {
                            assert(old(self).invocations@[i as int].id@ != v.id@);
                        }
                    }
                }
                self.invocations.set(i, v);
            },
            None => self.invocations.push(v),
        }
    }

    /// Begins an invocation of `run` on replica `instance` for `agent`'s
    /// participant, for the replica that owns the conversation: the
    /// invocation's identifier is derived from the run, the replica, the lease
    /// epoch and the run's previous invocation; it is recorded as pending
    /// together with an invoke command for the executor and the run itself,
    /// and `run.created` and `invocation.pending` are recorded as events.
    pub fn begin_invocation(&mut self, owns: bool, instance: u128, agent: u128, run: &mut Run, participant: u128, now: i64) -> (r: Result<Begun, ChatError>)
        requires
            old(self).sequence < i64::MAX - 1,
        ensures
            !owns ==> (r matches Err(ChatError::Denied)) && *final(self) == *old(self) && *final(run) == *old(run),
            owns ==> (r matches Ok(b) && began(*old(self), *final(self), old(run).key, old(run).objective@,
                old(run).status@, old(run).invocation_id@, *final(run), b, instance, agent, participant, now)),
    {
        if !owns {
            return Err(ChatError::Denied);
        }
        let epoch = self.lease.epoch;
        let mut name = uuid_text(instance);
        name.append(":");
        name.append(decimal(epoch).as_str());
        name.append(":");
        name.append(run.invocation_id.as_str());
        proof {
            reveal_strlit(":");
            assert(name@ =~= invocation_name(instance, epoch, run.invocation_id@));
        }
        let inv = name_uuid(run.key, name.as_str().as_bytes());
        let inv_text = uuid_text(inv);
        run.invocation_id = inv_text.clone();
        run.invocation_status = "pending".to_owned();
        let invocation = InvocationState {
            id: inv_text.clone(),
            agent_id: uuid_text(agent),
            run_id: uuid_text(run.key),
            participant_id: uuid_text(participant),
            generation: epoch,
            status: "pending".to_owned(),
            ended_at: 0,
        };
        let command_key = random_id();
        let epoch_bytes = be_bytes_of(epoch as u128, 8);
        let attempt = name_uuid(command_key, epoch_bytes.as_slice());
        let command = Command {
            attempt_id: attempt,
            command_id: uuid_text(command_key),
            action: CommandAction::Invoke { invocation_id: inv_text, objective: run.objective.clone() },
            acked_at: None,
            finished_at: None,
            failure: String::new(),
        };
        proof {
            assert(pending_invocation(invocation, inv, agent, run.key, participant, epoch));
            assert(attempt == attempt_key(command_key, epoch));
            assert(invoke_command(command, hyphenated(inv), run.objective@, epoch, attempt));
        }
        let ghost gv = invocation;
        let ghost gc = command;
        self.put_invocation(invocation);
        self.push_command(command);
        self.put_run(run.duplicate());
        let ghost placed = *self;
        let mut events: Vec<QueuedEvent> = Vec::new();
        let first = self.emit("run.created", now);
        let ghost middle = *self;
        events.push(first);
        let second = self.emit("invocation.pending", now);
        events.push(second);
        proof {
            assert(events@[0] == first && events@[1] == second);
            assert(middle.events@ == window(old(self).events@.push(first)));
            assert(invocation_put(old(self).invocations@, self.invocations@, gv));
            assert(self.commands@ == pushed(old(self).commands@, gc));
            assert(run_put(old(self).runs@, self.runs@, *run));
        }
        let b = Begun { invocation: inv, attempt, events };
        proof {
            let inv2 = invocation_key(old(run).key, instance, epoch, old(run).invocation_id@);
            assert(invoke_command(gc, hyphenated(inv2), old(run).objective@, epoch, b.attempt));
            assert(self.commands@ =~= pushed(old(self).commands@, gc));
        }
        Ok(b)
    }

    /// The run as it is shown, with its invocation's current status.
    pub fn run_view(&self, run: &Run) -> (r: Run)
        ensures
            viewed(self.invocations@, *run, r),
    {
        let mut out = run.duplicate();
        match parse_uuid(run.invocation_id.as_str()) {
            Some(k) => {
                let text = uuid_text(k);
                match find_invocation(&self.invocations, text.as_str()) {
                    Some(i) => {
                        proof {
                            assert forall|j: int| invocation_index(self.invocations@, hyphenated(k), j) implies j == i by {
                                if j < i {
                                    assert(self.invocations@[j].id@ != hyphenated(k));
                                } else if j > i {
                                    assert(self.invocations@[i as int].id@ != hyphenated(k));
                                }
                            }
                        }
                        out.invocation_status = self.invocations[i].status.clone();
                    },
                    None => {},
                }
            },
            None => {},
        }
        out
    }

    /// Starts a run toward `objective` for the request of agent `agent_id`
    /// with `idempotency_key`, in the conversation `thread_id` that this
    /// replica owns. Identifiers that do not parse are refused, then a request
    /// for another agent, then a replica that does not own the conversation,
    /// then a conversation the agent is not an active participant of. The
    /// run's identifier is derived from the conversation, the agent as the
    /// request names it and the key. A run already there is shown again where
    /// its objective is the same and refused otherwise; while the agent has a
    /// pending or running invocation a new run is refused; otherwise the run
    /// starts, active, and its first invocation begins.
    pub fn start_run(
        &mut self,
        owns: bool,
        instance: u128,
        agent: u128,
        participants: &Vec<Participant>,
        thread_id: &str,
        agent_id: &str,
        idempotency_key: &str,
        objective: &str,
        now: i64,
    ) -> (r: Result<Started, ChatError>)
        requires
            old(self).sequence < i64::MAX - 1,
        ensures
            parsed_uuid(thread_id@) is None || parsed_uuid(agent_id@) is None
                ==> (r matches Err(ChatError::Invalid(m)) && m@ == "Invalid UUID"@),
            parsed_uuid(thread_id@) is Some && parsed_uuid(agent_id@) is Some
                && (parsed_uuid(agent_id@) != Some(agent) || !owns) ==> r matches Err(ChatError::Denied),
            parsed_uuid(thread_id@) is Some && parsed_uuid(agent_id@) == Some(agent) && owns
                && (forall|i: int| 0 <= i < participants@.len() ==> !is_agent_here(#[trigger] participants@[i], agent))
                ==> r matches Err(ChatError::NotFound),
            forall|p: int| parsed_uuid(thread_id@) is Some && parsed_uuid(agent_id@) == Some(agent) && owns
                && #[trigger] first_agent(participants@, agent, p) ==> match parsed_uuid(participants@[p].id@) {
                    None => r matches Err(ChatError::Invalid(m)) && m@ == "Invalid UUID"@,
                    Some(participant) => {
                        let key = run_key(parsed_uuid(thread_id@).unwrap(), agent_id@, idempotency_key@);
                        &&& forall|j: int| #[trigger] run_index(old(self).runs@, key, j) ==> if old(self).runs@[j].objective@ == objective@ {
                            r matches Ok(s) && s.begun is None && viewed(old(self).invocations@, old(self).runs@[j], s.run)
                        } else {
                            r matches Err(ChatError::Conflict)
                        }
                        &&& no_run(old(self).runs@, key) ==> if exists|i: int| 0 <= i < old(self).invocations@.len()
                            && is_active_for(#[trigger] old(self).invocations@[i], agent) {
                            r matches Err(ChatError::Conflict)
                        } else {
                            r matches Ok(s) && (s.begun matches Some(b) && began(*old(self), *final(self), key, objective@,
                                "active"@, Seq::empty(), s.run, b, instance, agent, participant, now))
                        }
                    },
                },
            r is Err || (r matches Ok(s) && s.begun is None) ==> *final(self) == *old(self),
    {
        let thread = match parse_uuid(thread_id) {
            Some(t) => t,
            None => return Err(ChatError::Invalid("Invalid UUID".to_owned())),
        };
        let named = match parse_uuid(agent_id) {
            Some(a) => a,
            None => return Err(ChatError::Invalid("Invalid UUID".to_owned())),
        };
        if named != agent || !owns {
            return Err(ChatError::Denied);
        }
        let p = match find_agent(participants, agent) {
            Some(p) => p,
            None => return Err(ChatError::NotFound),
        };
        proof {
            assert forall|q: int| first_agent(participants@, agent, q) implies q == p by {
                if q < p {
                    assert(!is_agent_here(participants@[q], agent));
                } else if q > p {
                    assert(!is_agent_here(participants@[p as int], agent));
                }
            }
        }
        let participant = match parse_uuid(participants[p].id.as_str()) {
            Some(x) => x,
            None => return Err(ChatError::Invalid("Invalid UUID".to_owned())),
        };
        let mut name = agent_id.to_owned();
        name.append(":");
        name.append(idempotency_key);
        proof {
            reveal_strlit(":");
            assert(name@ =~= run_name(agent_id@, idempotency_key@));
        }
        let key = name_uuid(thread, name.as_str().as_bytes());
        match find_run(&self.runs, key) {
            Some(j) => {
                proof {
                    assert forall|q: int| run_index(self.runs@, key, q) implies q == j by {
                        if q < j {
                            assert(self.runs@[q].key != key);
                        } else if q > j {
                            assert(self.runs@[j as int].key != key);
                        }
                    }
                }
                if str_eq(self.runs[j].objective.as_str(), objective) {
                    let view = self.run_view(&self.runs[j]);
                    return Ok(Started { run: view, begun: None });
                } else {
                    return Err(ChatError::Conflict);
                }
            },
            None => {},
        }
        match self.active_invocation(agent) {
            Some(v) => {
                proof {
                    let i = choose|i: int| 0 <= i < self.invocations@.len() && self.invocations@[i] == *v;
                    assert(is_active_for(self.invocations@[i], agent));
                }
                return Err(ChatError::Conflict);
            },
            None => {},
        }
        let mut run = Run {
            key,
            objective: objective.to_owned(),
            status: "active".to_owned(),
            invocation_id: String::new(),
            invocation_status: String::new(),
        };
        let b = match self.begin_invocation(true, instance, agent, &mut run, participant, now) {
            Ok(b) => b,
            Err(e) => return Err(e),
        };
        Ok(Started { run, begun: Some(b) })
    }

    /// Steers invocation `invocation_id` with input `input_id` and its
    /// `text`, for the replica that owns the conversation. Identifiers that do
    /// not parse are refused, then a replica that does not own the
    /// conversation, then an unknown invocation, then one that has ended. The
    /// steering command's identifier is derived from the invocation and the
    /// input, so the same input steers once: where the command is already in
    /// the history nothing changes.
    pub fn steer_invocation(&mut self, owns: bool, invocation_id: &str, input_id: &str, text: &str) -> (r: Result<(), ChatError>)
        ensures
            parsed_uuid(invocation_id@) is None ==> (r matches Err(ChatError::Invalid(m)) && m@ == "Invalid UUID"@),
            parsed_uuid(invocation_id@) is Some && !owns ==> r matches Err(ChatError::Denied),
            parsed_uuid(invocation_id@) matches Some(inv) && owns && no_invocation(old(self).invocations@, hyphenated(inv))
                ==> r matches Err(ChatError::NotFound),
            forall|i: int| parsed_uuid(invocation_id@) is Some && owns
                && #[trigger] invocation_index(old(self).invocations@, hyphenated(parsed_uuid(invocation_id@).unwrap()), i)
                ==> {
                    let inv = parsed_uuid(invocation_id@).unwrap();
                    let v = old(self).invocations@[i];
                    if !active(v) {
                        r matches Err(ChatError::Conflict)
                    } else {
                        match parsed_uuid(input_id@) {
                            None => r matches Err(ChatError::Invalid(m)) && m@ == "Invalid UUID"@,
                            Some(input) => {
                                let key = input_command_key(inv, input);
                                &&& r is Ok
                                &&& (exists|j: int| 0 <= j < old(self).commands@.len()
                                    && (#[trigger] old(self).commands@[j]).command_id@ == hyphenated(key))
                                    ==> *final(self) == *old(self)
                                &&& (forall|j: int| 0 <= j < old(self).commands@.len()
                                    ==> (#[trigger] old(self).commands@[j]).command_id@ != hyphenated(key))
                                    ==> exists|c: Command| #[trigger] steer_command(c, key, invocation_id@, input_id@, text@, Seq::empty(), v.generation)
                                        && final(self).commands@ == pushed(old(self).commands@, c)
                            },
                        }
                    }
                },
            r is Err ==> *final(self) == *old(self),
            final(self).messages@ == old(self).messages@,
            final(self).invocations@ == old(self).invocations@,
            final(self).runs@ == old(self).runs@,
            final(self).events@ == old(self).events@,
            final(self).sequence == old(self).sequence,
            final(self).last_activity_at == old(self).last_activity_at,
            final(self).lease == old(self).lease,
    {
        let inv = match parse_uuid(invocation_id) {
            Some(k) => k,
            None => return Err(ChatError::Invalid("Invalid UUID".to_owned())),
        };
        if !owns {
            return Err(ChatError::Denied);
        }
        let inv_text = uuid_text(inv);
        let i = match find_invocation(&self.invocations, inv_text.as_str()) {
            Some(i) => i,
            None => return Err(ChatError::NotFound),
        };
        proof {
            assert forall|k: int| invocation_index(old(self).invocations@, hyphenated(inv), k) implies k == i by {
                if k < i {
                    assert(old(self).invocations@[k].id@ != hyphenated(inv));
                } else if k > i {
                    assert(old(self).invocations@[i as int].id@ != hyphenated(inv));
                }
            }
        }
        let v = &self.invocations[i];
        if !(str_eq(v.status.as_str(), "pending") || str_eq(v.status.as_str(), "running")) {
            return Err(ChatError::Conflict);
        }
        let generation = v.generation;
        let input = match parse_uuid(input_id) {
            Some(k) => k,
            None => return Err(ChatError::Invalid("Invalid UUID".to_owned())),
        };
        let input_bytes = be_bytes_of(input, 16);
        let key = name_uuid(inv, input_bytes.as_slice());
        let key_text = uuid_text(key);
        match self.command(key_text.as_str()) {
            Some(_) => return Ok(()),
            None => {},
        }
        let attempt = name_uuid(key, be_bytes_of(generation as u128, 8).as_slice());
        let command = Command {
            attempt_id: attempt,
            command_id: key_text,
            action: CommandAction::Steer(Steer {
                invocation_id: invocation_id.to_owned(),
                input_id: input_id.to_owned(),
                text: text.to_owned(),
                history_through_message_id: String::new(),
            }),
            acked_at: None,
            finished_at: None,
            failure: String::new(),
        };
        proof {
            assert(steer_command(command, key, invocation_id@, input_id@, text@, Seq::empty(), generation));
        }
        let ghost gc = command;
        self.push_command(command);
        proof {
            assert(self.commands@ =~= pushed(old(self).commands@, gc));
        }
        Ok(())
    }

    /// Hands the inputs still waiting for invocation `previous` over to
    /// invocation `next` (whose key is `next_key`): each such input is
    /// finished at `now` and given again, under an identifier derived from
    /// `next` and the input, as a steering command of `next` at the lease
    /// epoch, in the order the inputs came. An input whose identifier does
    /// not parse is refused.
    pub fn carry_steering(&mut self, previous: &str, next: &str, next_key: u128, now: i64) -> (r: Result<(), ChatError>)
        ensures
            r is Err <==> !inputs_parse(old(self).commands@, previous@),
            r matches Err(e) ==> (e matches ChatError::Invalid(m) && m@ == "Invalid UUID"@),
            r is Ok ==> carried_over(*old(self), *final(self), previous@, next@, next_key, now),
            final(self).messages@ == old(self).messages@,
            final(self).invocations@ == old(self).invocations@,
            final(self).runs@ == old(self).runs@,
            final(self).events@ == old(self).events@,
            final(self).sequence == old(self).sequence,
            final(self).last_activity_at == old(self).last_activity_at,
            final(self).lease == old(self).lease,
    {
        let ghost s = self.commands@;
        let epoch = self.lease.epoch;
        let mut nexts: Vec<Command> = Vec::new();
        let mut i: usize = 0;
        while i < self.commands.len()
            invariant
                0 <= i <= s.len(),
                self.commands@.len() == s.len(),
                epoch == old(self).lease.epoch,
                self.messages@ == old(self).messages@,
                self.invocations@ == old(self).invocations@,
                self.runs@ == old(self).runs@,
                self.events@ == old(self).events@,
                self.sequence == old(self).sequence,
                self.last_activity_at == old(self).last_activity_at,
                self.lease == old(self).lease,
                s == old(self).commands@,
                forall|j: int| 0 <= j < i ==> #[trigger] self.commands@[j] == finish_carried(s, previous@, now)[j],
                forall|j: int| i <= j < s.len() ==> #[trigger] self.commands@[j] == s[j],
                nexts@.len() == carried(s.subrange(0, i as int), previous@).len(),
                forall|k: int| 0 <= k < nexts@.len() ==> handed_over(carried(s.subrange(0, i as int), previous@)[k], #[trigger] nexts@[k], next@, next_key, epoch),
                forall|k: int| 0 <= k < nexts@.len() ==> parsed_uuid(input_of(#[trigger] carried(s.subrange(0, i as int), previous@)[k])) is Some,
            decreases s.len() - i,
        {
            let ghost before = carried(s.subrange(0, i as int), previous@);
            proof {
                assert(s.subrange(0, i as int + 1).drop_last() =~= s.subrange(0, i as int));
                assert(s.subrange(0, i as int + 1).last() == s[i as int]);
            }
            let c = &self.commands[i];
            let waiting = c.acked_at.is_none() && c.finished_at.is_none() && match &c.action {
                CommandAction::Steer(st) => str_eq(st.invocation_id.as_str(), previous),
                _ => false,
            };
            if waiting {
                let (input_text, text, history) = match &c.action {
                    CommandAction::Steer(st) => (st.input_id.clone(), st.text.clone(), st.history_through_message_id.clone()),
                    _ => (String::new(), String::new(), String::new()),
                };
                let input = match parse_uuid(input_text.as_str()) {
                    Some(k) => k,
                    None => {
                        proof {
                            let cs = carried(old(self).commands@, previous@);
                            assert(carries(s[i as int], previous@));
                            assert(carried(s.subrange(0, i as int + 1), previous@) == before.push(s[i as int]));
                            lemma_carried_prefix(s, previous@, i as int + 1);
                            assert(carried(s.subrange(0, i as int + 1), previous@)[before.len() as int] == s[i as int]);
                            assert(cs[before.len() as int] == s[i as int]);
                            assert(input_of(s[i as int]) == input_text@);
                        }
                        return Err(ChatError::Invalid("Invalid UUID".to_owned()));
                    },
                };
                let key = name_uuid(next_key, be_bytes_of(input, 16).as_slice());
                let attempt = name_uuid(key, be_bytes_of(epoch as u128, 8).as_slice());
                let handed = Command {
                    attempt_id: attempt,
                    command_id: uuid_text(key),
                    action: CommandAction::Steer(Steer {
                        invocation_id: next.to_owned(),
                        input_id: input_text,
                        text,
                        history_through_message_id: history,
                    }),
                    acked_at: None,
                    finished_at: None,
                    failure: String::new(),
                };
                let mut done = c.duplicate();
                done.finished_at = Some(now);
                proof {
                    assert(handed_over(s[i as int], handed, next@, next_key, epoch));
                    assert(done == finish_carried(s, previous@, now)[i as int]);
                }
                self.commands.set(i, done);
                nexts.push(handed);
            } else {
                proof {
                    assert(self.commands@[i as int] == finish_carried(s, previous@, now)[i as int]);
                }
            }
            i = i + 1;
        }
        proof {
            assert(s.subrange(0, s.len() as int) =~= s);
            assert(self.commands@ =~= finish_carried(s, previous@, now));
        }
        let ghost finished = self.commands@;
        let ghost all = nexts@;
        let mut k: usize = 0;
        while k < nexts.len()
            invariant
                0 <= k <= all.len(),
                nexts@ == all,
                self.commands@ == pushed_all(finished, all.subrange(0, k as int)),
                self.messages@ == old(self).messages@,
                self.invocations@ == old(self).invocations@,
                self.runs@ == old(self).runs@,
                self.events@ == old(self).events@,
                self.sequence == old(self).sequence,
                self.last_activity_at == old(self).last_activity_at,
                self.lease == old(self).lease,
            decreases all.len() - k,
        {
            proof {
                assert(all.subrange(0, k as int + 1).drop_last() =~= all.subrange(0, k as int));
            }
            let c = nexts[k].duplicate();
            self.push_command(c);
            k = k + 1;
        }
        proof {
            assert(all.subrange(0, all.len() as int) =~= all);
            let cs = carried(s, previous@);
            assert forall|j: int| 0 <= j < cs.len() implies parsed_uuid(input_of(#[trigger] cs[j])) is Some by {}
        }
        Ok(())
    }

    /// Resumes the run under `key`, waiting or failed, for the replica that
    /// owns the conversation: a replica that does not own it is refused, then
    /// an unknown run, then a run in another status, then a conversation the
    /// agent is not an active participant of. The run becomes active, a new
    /// invocation begins, and the inputs still waiting for its previous
    /// invocation are handed over to the new one.
    pub fn resume_run(&mut self, owns: bool, instance: u128, agent: u128, participants: &Vec<Participant>, key: u128, now: i64) -> (r: Result<Started, ChatError>)
        requires
            old(self).sequence < i64::MAX - 1,
        ensures
            !owns ==> (r matches Err(ChatError::Denied)) && *final(self) == *old(self),
            owns && no_run(old(self).runs@, key) ==> (r matches Err(ChatError::NotFound)) && *final(self) == *old(self),
            forall|j: int| owns && #[trigger] run_index(old(self).runs@, key, j) ==> {
                let run = old(self).runs@[j];
                if !(run.status@ == "waiting"@ || run.status@ == "failed"@) {
                    (r matches Err(ChatError::Conflict)) && *final(self) == *old(self)
                } else {
                    &&& (forall|i: int| 0 <= i < participants@.len() ==> !is_agent_here(#[trigger] participants@[i], agent))
                        ==> (r matches Err(ChatError::NotFound)) && *final(self) == *old(self)
                    &&& forall|p: int| #[trigger] first_agent(participants@, agent, p) ==> match parsed_uuid(participants@[p].id@) {
                        None => (r matches Err(ChatError::Invalid(m)) && m@ == "Invalid UUID"@) && *final(self) == *old(self),
                        Some(participant) => {
                            &&& r is Ok <==> inputs_parse(old(self).commands@, run.invocation_id@)
                            &&& r matches Err(e) ==> (e matches ChatError::Invalid(m) && m@ == "Invalid UUID"@)
                        },
                    }
                }
            },
            r matches Ok(s) ==> s.begun is Some && exists|j: int, p: int, mid: ThreadState|
                run_index(old(self).runs@, key, j) && first_agent(participants@, agent, p)
                && parsed_uuid(participants@[p].id@) is Some
                && #[trigger] began(*old(self), mid, key, old(self).runs@[j].objective@, "active"@,
                    old(self).runs@[j].invocation_id@, s.run, s.begun.unwrap(), instance, agent,
                    parsed_uuid(participants@[p].id@).unwrap(), now)
                && carried_over(mid, *final(self), old(self).runs@[j].invocation_id@, s.run.invocation_id@,
                    s.begun.unwrap().invocation, now),
    {
        if !owns {
            return Err(ChatError::Denied);
        }
        let j = match find_run(&self.runs, key) {
            Some(j) => j,
            None => return Err(ChatError::NotFound),
        };
        proof {
            assert forall|q: int| run_index(self.runs@, key, q) implies q == j by {
                if q < j {
                    assert(self.runs@[q].key != key);
                } else if q > j {
                    assert(self.runs@[j as int].key != key);
                }
            }
        }
        let mut run = self.runs[j].duplicate();
        if !(str_eq(run.status.as_str(), "waiting") || str_eq(run.status.as_str(), "failed")) {
            return Err(ChatError::Conflict);
        }
        let p = match find_agent(participants, agent) {
            Some(p) => p,
            None => return Err(ChatError::NotFound),
        };
        proof {
            assert forall|q: int| first_agent(participants@, agent, q) implies q == p by {
                if q < p {
                    assert(!is_agent_here(participants@[q], agent));
                } else if q > p {
                    assert(!is_agent_here(participants@[p as int], agent));
                }
            }
        }
        let participant = match parse_uuid(participants[p].id.as_str()) {
            Some(x) => x,
            None => return Err(ChatError::Invalid("Invalid UUID".to_owned())),
        };
        let previous = run.invocation_id.clone();
        run.status = "active".to_owned();
        let b = match self.begin_invocation(true, instance, agent, &mut run, participant, now) {
            Ok(b) => b,
            Err(e) => return Err(e),
        };
        let ghost mid = *self;
        proof {
            let inv = invocation_key(key, instance, old(self).lease.epoch, previous@);
            let c = choose|c: Command| #[trigger] invoke_command(c, hyphenated(inv), run.objective@, old(self).lease.epoch, b.attempt)
                && mid.commands@ == pushed(old(self).commands@, c);
            lemma_carried_pushed(old(self).commands@, c, previous@);
        }
        let next = run.invocation_id.clone();
        match self.carry_steering(previous.as_str(), next.as_str(), b.invocation, now) {
            Ok(()) => {},
            Err(e) => return Err(e),
        }
        let st = Started { run, begun: Some(b) };
        proof {
            assert(run_index(old(self).runs@, key, j as int));
            assert(first_agent(participants@, agent, p as int));
            assert(began(*old(self), mid, key, old(self).runs@[j as int].objective@, "active"@,
                old(self).runs@[j as int].invocation_id@, st.run, st.begun.unwrap(), instance, agent,
                parsed_uuid(participants@[p as int].id@).unwrap(), now));
        }
        Ok(st)
    }

    /// Records that invocation `key` ended with `status` (`stopped` or
    /// `failed`), as the executor reports it, with the inputs it reported
    /// still pending. An unknown invocation is refused; one that already
    /// ended is left as it is. Where this replica no longer owns the
    /// conversation, or the lease moved to a later epoch, the invocation
    /// fails and nothing else changes: the new holder's state is canonical.
    /// Otherwise the invocation ends with `status`, its run follows
    /// (`run_status_after`), and both are recorded as events. After a stop,
    /// the inputs the invocation did not take in are finished, or offered
    /// again while the run is being suspended; where there are such inputs
    /// and the run is not being suspended, a new run toward their texts,
    /// line by line, starts and its invocation begins.
    #[verifier::rlimit(30)]
    pub fn finish_invocation(
        &mut self,
        owns: bool,
        instance: u128,
        agent: u128,
        key: u128,
        status: &str,
        pending: &Vec<String>,
        now: i64,
    ) -> (r: Result<Finished, ChatError>)
        requires
            old(self).sequence < i64::MAX - 3,
        ensures
            no_invocation(old(self).invocations@, hyphenated(key)) ==> (r matches Err(ChatError::NotFound)) && *final(self) == *old(self),
            forall|i: int| #[trigger] invocation_index(old(self).invocations@, hyphenated(key), i) ==> {
                let v = old(self).invocations@[i];
                if !active(v) {
                    (r matches Ok(f) && f.ended is None && f.events@.len() == 0 && f.next is None) && *final(self) == *old(self)
                } else if !owns || old(self).lease.epoch != v.generation {
                    &&& r matches Ok(f) && f.ended is None && f.events@.len() == 0 && f.next is None
                    &&& ended_as(v, final(self).invocations@[i], "failed"@, now)
                    &&& final(self).invocations@ == old(self).invocations@.update(i, final(self).invocations@[i])
                    &&& final(self).commands@ == old(self).commands@
                    &&& final(self).runs@ == old(self).runs@
                    &&& final(self).events@ == old(self).events@
                    &&& final(self).sequence == old(self).sequence
                    &&& final(self).last_activity_at == old(self).last_activity_at
                } else {
                    match parsed_uuid(v.run_id@) {
                        None => (r matches Err(ChatError::Invalid(m)) && m@ == "Invalid UUID"@) && *final(self) == *old(self),
                        Some(rk) => {
                            &&& no_run(old(self).runs@, rk) ==> (r matches Err(ChatError::NotFound)) && *final(self) == *old(self)
                            &&& forall|j: int| #[trigger] run_index(old(self).runs@, rk, j) ==> {
                                let texts = unconsumed_texts(old(self).commands@, v.id@, pending@);
                                if status@ == "stopped"@ && texts.len() > 0 && old(self).runs@[j].status@ != "suspending"@
                                    && parsed_uuid(v.participant_id@) is None {
                                    r matches Err(ChatError::Invalid(m)) && m@ == "Invalid UUID"@
                                } else {
                                    r matches Ok(f) && f.ended is Some
                                }
                            }
                        },
                    }
                }
            },
            r matches Ok(f) && f.ended is Some ==> exists|i: int, j: int| #![trigger old(self).invocations@[i], old(self).runs@[j]] {
                let f = r->Ok_0;
                let v = old(self).invocations@[i];
                let run = old(self).runs@[j];
                let nv = f.ended.unwrap().0;
                let nr = f.ended.unwrap().1;
                let suspending = run.status@ == "suspending"@;
                let stopped = status@ == "stopped"@;
                let texts = unconsumed_texts(old(self).commands@, v.id@, pending@);
                let invs1 = old(self).invocations@.update(i, nv);
                let runs1 = old(self).runs@.update(j, nr);
                let cmds1 = if stopped { settle_inputs(old(self).commands@, v.id@, pending@, suspending, now) } else { old(self).commands@ };
                let evs1 = window(window(old(self).events@.push(f.events@[0])).push(f.events@[1]));
                &&& invocation_index(old(self).invocations@, hyphenated(key), i)
                &&& active(v) && owns && old(self).lease.epoch == v.generation
                &&& parsed_uuid(v.run_id@) is Some && run_index(old(self).runs@, parsed_uuid(v.run_id@).unwrap(), j)
                &&& ended_as(v, nv, status@, now)
                &&& run_after(run, nr, status@)
                &&& f.events@.len() == 2
                &&& f.events@[0].kind@ == "invocation.ended"@ && f.events@[1].kind@ == "run.updated"@
                &&& f.events@[0].sequence == old(self).sequence + 1 && f.events@[1].sequence == old(self).sequence + 2
                &&& if stopped && texts.len() > 0 && !suspending {
                    &&& parsed_uuid(v.participant_id@) is Some
                    &&& f.next is Some && f.next.unwrap().begun is Some
                    &&& began_from(invs1, cmds1, runs1, evs1, old(self).sequence + 2, old(self).lease.epoch, *final(self),
                        follow_up_key(key), joined(texts), "active"@, Seq::empty(), f.next.unwrap().run,
                        f.next.unwrap().begun.unwrap(), instance, agent, parsed_uuid(v.participant_id@).unwrap(), now)
                } else {
                    &&& f.next is None
                    &&& final(self).invocations@ == invs1
                    &&& final(self).runs@ == runs1
                    &&& final(self).commands@ == cmds1
                    &&& final(self).events@ == evs1
                    &&& final(self).sequence == old(self).sequence + 2
                    &&& final(self).last_activity_at == now
                }
            },
            final(self).messages@ == old(self).messages@,
            final(self).lease == old(self).lease,
    {
        let text = uuid_text(key);
        let i = match find_invocation(&self.invocations, text.as_str()) {
            Some(i) => i,
            None => return Err(ChatError::NotFound),
        };
        proof {
            assert forall|k: int| invocation_index(old(self).invocations@, hyphenated(key), k) implies k == i by {
                if k < i {
                    assert(old(self).invocations@[k].id@ != hyphenated(key));
                } else if k > i {
                    assert(old(self).invocations@[i as int].id@ != hyphenated(key));
                }
            }
        }
        let mut v = self.invocations[i].duplicate();
        let empty = Finished { ended: None, events: Vec::new(), next: None };
        if !(str_eq(v.status.as_str(), "pending") || str_eq(v.status.as_str(), "running")) {
            return Ok(empty);
        }
        if !owns || self.lease.epoch != v.generation {
            v.status = "failed".to_owned();
            v.ended_at = now;
            self.invocations.set(i, v);
            return Ok(empty);
        }
        v.status = status.to_owned();
        v.ended_at = now;
        let rk = match parse_uuid(v.run_id.as_str()) {
            Some(k) => k,
            None => return Err(ChatError::Invalid("Invalid UUID".to_owned())),
        };
        let j = match find_run(&self.runs, rk) {
            Some(j) => j,
            None => return Err(ChatError::NotFound),
        };
        proof {
            assert forall|k: int| run_index(old(self).runs@, rk, k) implies k == j by {
                if k < j {
                    assert(old(self).runs@[k].key != rk);
                } else if k > j {
                    assert(old(self).runs@[j as int].key != rk);
                }
            }
        }
        let mut run = self.runs[j].duplicate();
        let suspending = str_eq(run.status.as_str(), "suspending");
        run.invocation_status = status.to_owned();
        if str_eq(run.status.as_str(), "active") || suspending {
            run.status = if str_eq(status, "stopped") { "waiting".to_owned() } else { status.to_owned() };
        }
        proof {
            reveal_strlit("active");
            reveal_strlit("suspending");
            reveal_strlit("stopped");
            reveal_strlit("waiting");
        }
        self.invocations.set(i, v.duplicate());
        self.runs.set(j, run.duplicate());
        let mut events: Vec<QueuedEvent> = Vec::new();
        let first = self.emit("invocation.ended", now);
        let ghost middle = self.events@;
        events.push(first);
        let second = self.emit("run.updated", now);
        events.push(second);
        proof {
            assert(events@[0] == first && events@[1] == second);
            assert(middle == window(old(self).events@.push(first)));
        }
        let ghost s = self.commands@;
        let ghost stopped = status@ == "stopped"@;
        let mut next: Option<Started> = None;
        if str_eq(status, "stopped") {
            let mut texts = String::new();
            let mut count: usize = 0;
            let mut k: usize = 0;
            while k < self.commands.len()
                invariant
                    0 <= k <= s.len(),
                    self.commands@.len() == s.len(),
                    s == old(self).commands@,
                    self.invocations@ == old(self).invocations@.update(i as int, v),
                    self.runs@ == old(self).runs@.update(j as int, run),
                    self.messages@ == old(self).messages@,
                    self.lease == old(self).lease,
                    self.sequence == old(self).sequence + 2,
                    self.last_activity_at == now,
                    self.events@ == window(window(old(self).events@.push(first)).push(second)),
                    v.id@ == old(self).invocations@[i as int].id@,
                    forall|q: int| 0 <= q < k ==> #[trigger] self.commands@[q]
                        == settle_inputs(s, v.id@, pending@, suspending, now)[q],
                    forall|q: int| k <= q < s.len() ==> #[trigger] self.commands@[q] == s[q],
                    count == unconsumed_texts(s.subrange(0, k as int), v.id@, pending@).len(),
                    texts@ == joined(unconsumed_texts(s.subrange(0, k as int), v.id@, pending@)),
                    count <= k,
                decreases s.len() - k,
            {
                let ghost before = unconsumed_texts(s.subrange(0, k as int), v.id@, pending@);
                proof {
                    assert(s.subrange(0, k as int + 1).drop_last() =~= s.subrange(0, k as int));
                    assert(s.subrange(0, k as int + 1).last() == s[k as int]);
                }
                let c = &self.commands[k];
                let hit = c.finished_at.is_none() && match &c.action {
                    CommandAction::Steer(st) => str_eq(st.invocation_id.as_str(), v.id.as_str())
                        && (holds(pending, st.input_id.as_str()) || c.acked_at.is_none()),
                    _ => false,
                };
                if hit {
                    proof {
                        assert(unconsumed(s[k as int], v.id@, pending@));
                    }
                    if count > 0 {
                        texts.append("\n");
                        proof {
                            reveal_strlit("\n");
                        }
                    }
                    match &c.action {
                        CommandAction::Steer(st) => texts.append(st.text.as_str()),
                        _ => {},
                    }
                    let mut settled = c.duplicate();
                    if suspending {
                        settled.acked_at = None;
                    } else {
                        settled.finished_at = Some(now);
                    }
                    proof {
                        let after = before.push(input_text(s[k as int]));
                        assert(unconsumed_texts(s.subrange(0, k as int + 1), v.id@, pending@) == after);
                        if count == 0 {
                            assert(before.len() == 0);
                            assert(texts@ =~= joined(after));
                        } else {
                            assert(after.drop_last() =~= before);
                            assert(texts@ =~= joined(after));
                        }
                        assert(settled == settle_inputs(s, v.id@, pending@, suspending, now)[k as int]);
                    }
                    self.commands.set(k, settled);
                    count = count + 1;
                } else {
                    proof {
                        assert(!unconsumed(s[k as int], v.id@, pending@));
                        assert(self.commands@[k as int] == settle_inputs(s, v.id@, pending@, suspending, now)[k as int]);
                    }
                }
                k = k + 1;
            }
            proof {
                assert(s.subrange(0, s.len() as int) =~= s);
                assert(self.commands@ =~= settle_inputs(s, v.id@, pending@, suspending, now));
            }
            if count > 0 && !suspending {
                let participant = match parse_uuid(v.participant_id.as_str()) {
                    Some(p) => p,
                    None => return Err(ChatError::Invalid("Invalid UUID".to_owned())),
                };
                let follow_up = name_uuid(key, "unconsumed-input".as_bytes());
                let mut fresh = Run {
                    key: follow_up,
                    objective: texts,
                    status: "active".to_owned(),
                    invocation_id: String::new(),
                    invocation_status: String::new(),
                };
                let ghost settled_state = *self;
                let b = match self.begin_invocation(true, instance, agent, &mut fresh, participant, now) {
                    Ok(b) => b,
                    Err(e) => return Err(e),
                };
                proof {
                    assert(began(settled_state, *self, follow_up, fresh.objective@, "active"@, Seq::empty(), fresh, b,
                        instance, agent, participant, now));
                }
                next = Some(Started { run: fresh, begun: Some(b) });
            }
        }
        Ok(Finished { ended: Some((v, run)), events, next })
    }

    /// Marks the run of the running invocation `key` as being suspended, for
    /// the replica that owns the conversation: a replica that does not own it
    /// is refused, then an unknown invocation, then one that is not running,
    /// then an unknown run. The change is recorded as a `run.updated` event.
    pub fn suspend_invocation(&mut self, owns: bool, key: u128, now: i64) -> (r: Result<QueuedEvent, ChatError>)
        requires
            old(self).sequence < i64::MAX,
        ensures
            !owns ==> r matches Err(ChatError::Denied),
            owns && no_invocation(old(self).invocations@, hyphenated(key)) ==> r matches Err(ChatError::NotFound),
            forall|i: int| owns && #[trigger] invocation_index(old(self).invocations@, hyphenated(key), i) ==> {
                let v = old(self).invocations@[i];
                if v.status@ != "running"@ {
                    r matches Err(ChatError::Conflict)
                } else {
                    match parsed_uuid(v.run_id@) {
                        None => r matches Err(ChatError::Invalid(m)) && m@ == "Invalid UUID"@,
                        Some(rk) => {
                            &&& no_run(old(self).runs@, rk) ==> (r matches Err(ChatError::NotFound))
                            &&& forall|j: int| #[trigger] run_index(old(self).runs@, rk, j) ==> {
                                let o = old(self).runs@[j];
                                let n = final(self).runs@[j];
                                &&& (r matches Ok(e) && emitted(*old(self), *final(self), e, "run.updated"@, now))
                                &&& final(self).runs@ == old(self).runs@.update(j, n)
                                &&& n.key == o.key && n.objective == o.objective && n.invocation_id == o.invocation_id
                                &&& n.invocation_status == o.invocation_status
                                &&& n.status@ == "suspending"@
                            }
                        },
                    }
                }
            },
            r is Err ==> *final(self) == *old(self),
            final(self).messages@ == old(self).messages@,
            final(self).commands@ == old(self).commands@,
            final(self).invocations@ == old(self).invocations@,
            final(self).lease == old(self).lease,
    {
        if !owns {
            return Err(ChatError::Denied);
        }
        let text = uuid_text(key);
        let i = match find_invocation(&self.invocations, text.as_str()) {
            Some(i) => i,
            None => return Err(ChatError::NotFound),
        };
        proof {
            assert forall|k: int| invocation_index(old(self).invocations@, hyphenated(key), k) implies k == i by {
                if k < i {
                    assert(old(self).invocations@[k].id@ != hyphenated(key));
                } else if k > i {
                    assert(old(self).invocations@[i as int].id@ != hyphenated(key));
                }
            }
        }
        if !str_eq(self.invocations[i].status.as_str(), "running") {
            return Err(ChatError::Conflict);
        }
        let rk = match parse_uuid(self.invocations[i].run_id.as_str()) {
            Some(k) => k,
            None => return Err(ChatError::Invalid("Invalid UUID".to_owned())),
        };
        let j = match find_run(&self.runs, rk) {
            Some(j) => j,
            None => return Err(ChatError::NotFound),
        };
        proof {
            assert forall|k: int| run_index(old(self).runs@, rk, k) implies k == j by {
                if k < j {
                    assert(old(self).runs@[k].key != rk);
                } else if k > j {
                    assert(old(self).runs@[j as int].key != rk);
                }
            }
        }
        let mut run = self.runs[j].duplicate();
        run.status = "suspending".to_owned();
        self.runs.set(j, run);
        let e = self.emit("run.updated", now);
        Ok(e)
    }

    /// The inputs still waiting for invocation `key`, neither acknowledged
    /// nor finished, in order: each command's identifier and its input.
    pub fn pending_steering(&self, key: u128) -> (r: Vec<(String, Steer)>)
        ensures
            r@.len() == carried(self.commands@, hyphenated(key)).len(),
            forall|k: int| 0 <= k < r@.len() ==> {
                let c = #[trigger] carried(self.commands@, hyphenated(key))[k];
                &&& r@[k].0 == c.command_id
                &&& c.action == CommandAction::Steer(r@[k].1)
            },
    {
        let text = uuid_text(key);
        let mut r: Vec<(String, Steer)> = Vec::new();
        let mut i: usize = 0;
        while i < self.commands.len()
            invariant
                0 <= i <= self.commands@.len(),
                text@ == hyphenated(key),
                r@.len() == carried(self.commands@.subrange(0, i as int), hyphenated(key)).len(),
                forall|k: int| 0 <= k < r@.len() ==> {
                    let c = #[trigger] carried(self.commands@.subrange(0, i as int), hyphenated(key))[k];
                    &&& r@[k].0 == c.command_id
                    &&& c.action == CommandAction::Steer(r@[k].1)
                },
            decreases self.commands@.len() - i,
        {
            let ghost s = self.commands@;
            let ghost before = carried(s.subrange(0, i as int), hyphenated(key));
            proof {
                assert(s.subrange(0, i as int + 1).drop_last() =~= s.subrange(0, i as int));
                assert(s.subrange(0, i as int + 1).last() == s[i as int]);
            }
            let c = &self.commands[i];
            if c.acked_at.is_none() && c.finished_at.is_none() {
                match &c.action {
                    CommandAction::Steer(st) => {
                        if str_eq(st.invocation_id.as_str(), text.as_str()) {
                            let input = Steer {
                                invocation_id: st.invocation_id.clone(),
                                input_id: st.input_id.clone(),
                                text: st.text.clone(),
                                history_through_message_id: st.history_through_message_id.clone(),
                            };
                            r.push((c.command_id.clone(), input));
                            proof {
                                assert(carried(s.subrange(0, i as int + 1), hyphenated(key)) == before.push(s[i as int]));
                            }
                        }
                    },
                    _ => {},
                }
            }
            i = i + 1;
        }
        proof {
            assert(self.commands@.subrange(0, self.commands@.len() as int) =~= self.commands@);
        }
        r
    }

    /// Sets the status of the run under `key`, for the replica that owns the
    /// conversation: a status a run may not be given is refused first, then
    /// a replica that does not own the conversation, then an unknown run.
    /// The change is recorded as a `run.updated` event.
    pub fn set_run_status(&mut self, owns: bool, key: u128, status: &str, now: i64) -> (r: Result<QueuedEvent, ChatError>)
        requires
            old(self).sequence < i64::MAX,
        ensures
            !settable(status@) ==> (r matches Err(ChatError::Invalid(m)) && m@ == "Invalid run status"@),
            settable(status@) && !owns ==> r matches Err(ChatError::Denied),
            settable(status@) && owns && no_run(old(self).runs@, key) ==> r matches Err(ChatError::NotFound),
            r is Err ==> *final(self) == *old(self),
            r matches Ok(e) ==> {
                &&& settable(status@) && owns
                &&& exists|i: int| #[trigger] run_index(old(self).runs@, key, i) && {
                    let o = old(self).runs@[i];
                    let n = final(self).runs@[i];
                    &&& final(self).runs@ == old(self).runs@.update(i, n)
                    &&& n.key == key && n.status@ == status@
                    &&& n.objective == o.objective && n.invocation_id == o.invocation_id
                    &&& n.invocation_status == o.invocation_status
                }
                &&& emitted(*old(self), *final(self), e, "run.updated"@, now)
                &&& final(self).messages@ == old(self).messages@
                &&& final(self).commands@ == old(self).commands@
                &&& final(self).invocations@ == old(self).invocations@
                &&& final(self).lease == old(self).lease
            },
    {
        match check_run_status(status) {
            Ok(()) => {},
            Err(e) => return Err(e),
        }
        if !owns {
            return Err(ChatError::Denied);
        }
        let i = match find_run(&self.runs, key) {
            Some(i) => i,
            None => return Err(ChatError::NotFound),
        };
        let mut run = self.runs[i].duplicate();
        run.status = status.to_owned();
        let ghost n = run;
        proof {
            assert forall|k: int| run_index(old(self).runs@, key, k) implies k == i by {
                if k < i {
                    assert(old(self).runs@[k].key != key);
                } else if k > i {
                    assert(old(self).runs@[i as int].key != key);
                }
            }
        }
        self.put_run(run);
        let e = self.emit("run.updated", now);
        proof {
            assert(run_index(old(self).runs@, key, i as int));
            assert(self.runs@ == old(self).runs@.update(i as int, n));
        }
        Ok(e)
    }

    /// Cancels the invocation with identifier `key` and its run, for the
    /// replica that owns the conversation. An invocation that has already
    /// ended is left as it is (`Ok` with no events). Otherwise the invocation
    /// ends as `canceled` at `now`, its run is `canceled`, and both changes
    /// are recorded as events (`invocation.ended`, then `run.updated`).
    pub fn cancel_invocation(&mut self, owns: bool, key: u128, now: i64) -> (r: Result<Vec<QueuedEvent>, ChatError>)
        requires
            old(self).sequence < i64::MAX - 1,
        ensures
            !owns ==> r matches Err(ChatError::Denied),
            owns && no_invocation(old(self).invocations@, hyphenated(key)) ==> r matches Err(ChatError::NotFound),
            forall|i: int| owns && #[trigger] invocation_index(old(self).invocations@, hyphenated(key), i) ==> {
                let v = old(self).invocations@[i];
                if !active(v) {
                    r matches Ok(es) && es@.len() == 0
                } else {
                    match parsed_uuid(v.run_id@) {
                        None => r matches Err(ChatError::Invalid(m)) && m@ == "Invalid UUID"@,
                        Some(run) => if no_run(old(self).runs@, run) {
                            r matches Err(ChatError::NotFound)
                        } else {
                            r matches Ok(es) && es@.len() == 2 && exists|j: int| #[trigger] run_index(old(self).runs@, run, j) && {
                                let nv = final(self).invocations@[i];
                                let nr = final(self).runs@[j];
                                &&& canceled_invocation(v, nv, now)
                                &&& canceled_run(old(self).runs@[j], nr)
                                &&& final(self).invocations@ == old(self).invocations@.update(i, nv)
                                &&& final(self).runs@ == old(self).runs@.update(j, nr)
                                &&& es@[0].kind@ == "invocation.ended"@ && es@[1].kind@ == "run.updated"@
                                &&& es@[0].sequence == old(self).sequence + 1 && es@[1].sequence == old(self).sequence + 2
                                &&& final(self).sequence == old(self).sequence + 2
                                &&& final(self).events@ == window(window(old(self).events@.push(es@[0])).push(es@[1]))
                                &&& final(self).last_activity_at == now
                            }
                        },
                    }
                }
            },
            r is Err || (r matches Ok(es) && es@.len() == 0) ==> *final(self) == *old(self),
            final(self).messages@ == old(self).messages@,
            final(self).commands@ == old(self).commands@,
            final(self).lease == old(self).lease,
    {
        if !owns {
            return Err(ChatError::Denied);
        }
        let text = uuid_text(key);
        let i = match find_invocation(&self.invocations, text.as_str()) {
            Some(i) => i,
            None => return Err(ChatError::NotFound),
        };
        proof {
            assert forall|k: int| invocation_index(old(self).invocations@, hyphenated(key), k) implies k == i by {
                if k < i {
                    assert(old(self).invocations@[k].id@ != hyphenated(key));
                } else if k > i {
                    assert(old(self).invocations@[i as int].id@ != hyphenated(key));
                }
            }
        }
        let mut v = self.invocations[i].duplicate();
        if !(str_eq(v.status.as_str(), "pending") || str_eq(v.status.as_str(), "running")) {
            return Ok(Vec::new());
        }
        v.status = "canceled".to_owned();
        v.ended_at = now;
        let run_key = match parse_uuid(v.run_id.as_str()) {
            Some(k) => k,
            None => return Err(ChatError::Invalid("Invalid UUID".to_owned())),
        };
        let j = match find_run(&self.runs, run_key) {
            Some(j) => j,
            None => return Err(ChatError::NotFound),
        };
        proof {
            assert forall|k: int| run_index(old(self).runs@, run_key, k) implies k == j by {
                if k < j {
                    assert(old(self).runs@[k].key != run_key);
                } else if k > j {
                    assert(old(self).runs@[j as int].key != run_key);
                }
            }
        }
        let mut run = self.runs[j].duplicate();
        run.status = "canceled".to_owned();
        run.invocation_status = "canceled".to_owned();
        let ghost nv = v;
        let ghost nr = run;
        self.put_invocation(v);
        self.put_run(run);
        let ghost placed = *self;
        let mut es: Vec<QueuedEvent> = Vec::new();
        let first = self.emit("invocation.ended", now);
        let ghost middle = *self;
        es.push(first);
        let second = self.emit("run.updated", now);
        es.push(second);
        proof {
            assert(invocation_index(old(self).invocations@, nv.id@, i as int));
            assert(placed.invocations@ == old(self).invocations@.update(i as int, nv));
            assert(run_index(old(self).runs@, run_key, j as int));
            assert(self.runs@ == old(self).runs@.update(j as int, nr));
            assert(self.invocations@[i as int] == nv);
            assert(self.runs@[j as int] == nr);
            assert(es@[0] == first && es@[1] == second);
            assert(middle.events@ == window(old(self).events@.push(first)));
        }
        Ok(es)
    }
}

/// The inputs waiting in a history that starts with `x`.
proof fn lemma_carried_cons(x: Command, rest: Seq<Command>, previous: Seq<char>)
    ensures
        carried(seq![x] + rest, previous) == (if carries(x, previous) { seq![x] } else { Seq::<Command>::empty() })
            + carried(rest, previous),
    decreases rest.len(),
{
    let t = seq![x] + rest;
    let head = if carries(x, previous) { seq![x] } else { Seq::<Command>::empty() };
    if rest.len() == 0 {
        assert(t.drop_last() =~= Seq::<Command>::empty());
        assert(t.last() == x);
        assert(rest =~= Seq::<Command>::empty());
        assert(carried(Seq::<Command>::empty(), previous) =~= Seq::<Command>::empty());
        assert(carried(t, previous) =~= head + carried(rest, previous));
    } else {
        lemma_carried_cons(x, rest.drop_last(), previous);
        assert(t.drop_last() =~= seq![x] + rest.drop_last());
        assert(t.last() == rest.last());
        if carries(rest.last(), previous) {
            assert(carried(t, previous) =~= head + carried(rest, previous));
        } else {
            assert(carried(t, previous) =~= head + carried(rest, previous));
        }
    }
}

/// Pruning a history keeps every input waiting for an invocation.
proof fn lemma_carried_prune(s: Seq<Command>, excess: nat, previous: Seq<char>)
    ensures
        carried(prune(s, excess), previous) == carried(s, previous),
    decreases s.len(),
{
    if s.len() > 0 {
        assert(s =~= seq![s[0]] + s.drop_first());
        lemma_carried_cons(s[0], s.drop_first(), previous);
        if excess > 0 && s[0].finished_at is Some {
            lemma_carried_prune(s.drop_first(), (excess - 1) as nat, previous);
            assert(carried(s, previous) =~= carried(s.drop_first(), previous));
        } else {
            lemma_carried_prune(s.drop_first(), excess, previous);
            lemma_carried_cons(s[0], prune(s.drop_first(), excess), previous);
        }
    }
}

/// Pushing a command that is no waiting input keeps the waiting inputs.
proof fn lemma_carried_pushed(s: Seq<Command>, c: Command, previous: Seq<char>)
    requires
        !carries(c, previous),
    ensures
        carried(pushed(s, c), previous) == carried(s, previous),
{
    let t = s.push(c);
    assert(t.drop_last() =~= s);
    if t.len() > COMMAND_LIMIT {
        lemma_carried_prune(t, (t.len() - COMMAND_LIMIT) as nat, previous);
    }
}

/// The inputs waiting in a longer history begin with those of its prefix.
proof fn lemma_carried_prefix(s: Seq<Command>, previous: Seq<char>, n: int)
    requires
        0 <= n <= s.len(),
    ensures
        carried(s.subrange(0, n), previous).len() <= carried(s, previous).len(),
        forall|k: int| 0 <= k < carried(s.subrange(0, n), previous).len()
            ==> #[trigger] carried(s.subrange(0, n), previous)[k] == carried(s, previous)[k],
    decreases s.len() - n,
{
    if n < s.len() {
        lemma_carried_prefix(s, previous, n + 1);
        let t = s.subrange(0, n + 1);
        assert(t.drop_last() =~= s.subrange(0, n));
        assert(t.last() == s[n]);
        let a = carried(s.subrange(0, n), previous);
        let b = carried(t, previous);
        assert(b == if carries(s[n], previous) { a.push(s[n]) } else { a });
        assert forall|k: int| 0 <= k < a.len() implies #[trigger] a[k] == carried(s, previous)[k] by {
            assert(a[k] == b[k]);
        }
    } else {
        assert(s.subrange(0, n) =~= s);
    }
}

/// An unfinished command is among the unfinished ones of its history.
proof fn lemma_unfinished_has(t: Seq<Command>, i: int)
    requires
        0 <= i < t.len(),
        t[i].finished_at is None,
    ensures
        unfinished(t).contains(t[i]),
    decreases t.len(),
{
    if i == 0 {
        assert(unfinished(t)[0] == t[0]);
    } else {
        assert(t.drop_first()[i - 1] == t[i]);
        lemma_unfinished_has(t.drop_first(), i - 1);
        let w = choose|k: int| 0 <= k < unfinished(t.drop_first()).len() && unfinished(t.drop_first())[k] == t[i];
        if t[0].finished_at is None {
            assert(unfinished(t)[w + 1] == t[i]);
        } else {
            assert(unfinished(t)[w] == t[i]);
        }
    }
}

/// The unfinished commands of a history are commands of it.
proof fn lemma_unfinished_within(t: Seq<Command>, c: Command)
    requires
        unfinished(t).contains(c),
    ensures
        t.contains(c),
    decreases t.len(),
{
    if t.len() > 0 {
        let w = choose|k: int| 0 <= k < unfinished(t).len() && unfinished(t)[k] == c;
        if t[0].finished_at is None && w == 0 {
            assert(t[0] == c);
        } else {
            let rest = unfinished(t.drop_first());
            if t[0].finished_at is None {
                assert(rest[w - 1] == c);
            } else {
                assert(rest[w] == c);
            }
            lemma_unfinished_within(t.drop_first(), c);
            let v = choose|k: int| 0 <= k < t.drop_first().len() && t.drop_first()[k] == c;
            assert(t[v + 1] == c);
        }
    }
}

/// A steering command once given stays in the history it joined, since only
/// finished commands are ever dropped; so the same input given again finds
/// it there and changes nothing.
pub proof fn law_steering_is_recorded(s: Seq<Command>, c: Command)
    requires
        c.finished_at is None,
    ensures
        pushed(s, c).contains(c),
{
    let t = s.push(c);
    assert(t[t.len() - 1] == c);
    if t.len() > COMMAND_LIMIT {
        let e = (t.len() - COMMAND_LIMIT) as nat;
        lemma_unfinished_has(t, t.len() - 1);
        lemma_prune_unfinished(t, e);
        lemma_unfinished_within(prune(t, e), c);
    } else {
        assert(t.contains(c));
    }
}

/// After a stop, while the run is not being suspended, no input of the
/// invocation is left unconsumed: each was finished.
pub proof fn law_stop_settles_inputs(s: Seq<Command>, invocation: Seq<char>, pending: Seq<String>, now: i64)
    ensures
        forall|k: int| 0 <= k < s.len() ==> !unconsumed(#[trigger] settle_inputs(s, invocation, pending, false, now)[k], invocation, pending),
{
}

/// After a cancel, the invocation under the same identifier is found at the
/// same place and has ended, so canceling it again changes nothing.
pub proof fn law_canceled_invocation_stays_ended(vs: Seq<InvocationState>, key: u128, i: int, after: InvocationState, now: i64)
    requires
        invocation_index(vs, hyphenated(key), i),
        canceled_invocation(vs[i], after, now),
    ensures
        invocation_index(vs.update(i, after), hyphenated(key), i),
        !active(vs.update(i, after)[i]),
{
    reveal_strlit("canceled");
    reveal_strlit("pending");
    reveal_strlit("running");
    let ws = vs.update(i, after);
    assert(ws[i] == after);
    assert(after.status@.len() == 8);
    assert forall|j: int| 0 <= j < i implies (#[trigger] ws[j]).id@ != hyphenated(key) by {
        assert(ws[j] == vs[j]);
    }
}

} // verus!
