//! What the gateway decides about the events a replica publishes: which
//! frames it admits, which need the thread's lease, who may introduce a thread,
//! and what a batch answers the replica.
use vstd::prelude::*;
use crate::error::{DatabaseFault, Error, Fault};
use crate::ids::{hyphenated, id, id_result, uuid_text};
use crate::json::key_less;
use crate::text::{str_eq};
use crate::json::str_less;

verus! {

/// Who holds a thread's lease, as the gateway tells a replica.
#[derive(Debug)]
pub struct ThreadLease {
    pub thread_id: String,
    pub agent_id: String,
    pub holder_instance_id: String,
    pub holder_public_url: String,
    pub held: bool,
}

/// What projecting one event did.
#[derive(Debug)]
pub enum Outcome {
    Projected,
    Duplicate,
    /// Run state from a replica that does not hold the lease; carries who does.
    NotHolder(ThreadLease),
}

/// The kind of typed state an event carries.
#[derive(Clone, Copy, PartialEq, Eq, Debug, Structural)]
pub enum StateKind {
    User,
    Thread,
    Participant,
    Message,
    Goal,
    Task,
    Run,
    Invocation,
    Attachment,
    AttachmentSource,
    ConvertedMessage,
    ToolCall,
    ChannelDecision,
    Activity,
    Typing,
}

/// The roster a thread-creating event carries.
#[derive(Debug)]
pub struct Roster {
    pub id: String,
    pub primary_agent_id: String,
    /// The agent of each participant, where the participant is an agent.
    pub participant_agents: Vec<Option<String>>,
}

/// The text of an identifier, or nothing.
pub open spec fn holder_text(holder: Option<(u128, String)>) -> Seq<char> {
    match holder {
        Some((i, _)) => hyphenated(i),
        None => Seq::empty(),
    }
}

/// The lease frame for `thread` of `agent`, held by `holder` where there is one.
pub fn lease_frame(agent: u128, thread: u128, holder: Option<(u128, String)>) -> (r: ThreadLease)
    ensures
        r.thread_id@ == hyphenated(thread),
        r.agent_id@ == hyphenated(agent),
        r.holder_instance_id@ == holder_text(holder),
        r.holder_public_url@ == match holder {
            Some((_, url)) => url@,
            None => Seq::<char>::empty(),
        },
        r.held == holder is Some,
{
    let held = holder.is_some();
    let (instance, url) = match holder {
        Some((i, u)) => (uuid_text(i), u),
        None => (String::new(), String::new()),
    };
    ThreadLease {
        thread_id: uuid_text(thread),
        agent_id: uuid_text(agent),
        holder_instance_id: instance,
        holder_public_url: url,
        held,
    }
}

/// Faults caused by the frame itself, as opposed to the gateway's own infrastructure.
pub open spec fn rejectable_fault(f: Fault) -> bool {
    match f {
        Fault::Denied | Fault::Invalid(_) | Fault::NotFound | Fault::Conflict => true,
        Fault::Database(d) => d == DatabaseFault::UniqueViolation
            || d == DatabaseFault::ForeignKeyViolation || d == DatabaseFault::CheckViolation,
        _ => false,
    }
}

/// Errors caused by the frame itself, as opposed to the gateway's own infrastructure.
pub fn rejectable(error: &Error) -> (r: bool)
    ensures
        r == rejectable_fault(error@),
{
    match error {
        Error::Denied | Error::Invalid(_) | Error::NotFound | Error::Conflict => true,
        Error::Database(d) => match d {
            DatabaseFault::UniqueViolation
            | DatabaseFault::ForeignKeyViolation
            | DatabaseFault::CheckViolation => true,
            DatabaseFault::Other => false,
        },
        _ => false,
    }
}

/// Kinds of state only the lease holder may write: they drive the agent process.
pub open spec fn lease_bound(state: Option<StateKind>) -> bool {
    state == Some(StateKind::Run) || state == Some(StateKind::Invocation) || state == Some(
        StateKind::ToolCall,
    )
}

/// Kinds of state only the lease holder may write: they drive the agent process.
pub fn needs_lease(state: Option<StateKind>) -> (r: bool)
    ensures
        r == lease_bound(state),
{
    match state {
        Some(StateKind::Run) | Some(StateKind::Invocation) | Some(StateKind::ToolCall) => true,
        _ => false,
    }
}

/// The identifiers an event is admitted with.
pub struct Admitted {
    pub event: u128,
    pub thread: u128,
}

/// What the gateway makes of an event's header: the event's own identifier
/// first, then its agent and origin replica, which must be the publisher's, a
/// sequence from one on, and the thread's identifier.
pub open spec fn admission(
    event_id: Seq<char>,
    event_agent: Seq<char>,
    origin_instance: Seq<char>,
    origin_sequence: i64,
    thread_id: Seq<char>,
    agent: u128,
    instance: u128,
) -> Result<(u128, u128), Fault> {
    match id_result(event_id) {
        Err(f) => Err(f),
        Ok(event) => match id_result(event_agent) {
            Err(f) => Err(f),
            Ok(a) => if a != agent {
                Err(Fault::Denied)
            } else {
                match id_result(origin_instance) {
                    Err(f) => Err(f),
                    Ok(i) => if i != instance || origin_sequence < 1 {
                        Err(Fault::Denied)
                    } else {
                        match id_result(thread_id) {
                            Err(f) => Err(f),
                            Ok(t) => Ok((event, t)),
                        }
                    },
                }
            },
        },
    }
}

/// Checks an event's header against the publishing replica.
pub fn check_header(
    event_id: &str,
    event_agent: &str,
    origin_instance: &str,
    origin_sequence: i64,
    thread_id: &str,
    agent: u128,
    instance: u128,
) -> (r: Result<Admitted, Error>)
    ensures
        match r {
            Ok(a) => admission(event_id@, event_agent@, origin_instance@, origin_sequence, thread_id@, agent, instance)
                == Ok::<(u128, u128), Fault>((a.event, a.thread)),
            Err(e) => admission(event_id@, event_agent@, origin_instance@, origin_sequence, thread_id@, agent, instance)
                == Err::<(u128, u128), Fault>(e@),
        },
{
    let event = match id(event_id) {
        Ok(v) => v,
        Err(e) => return Err(e),
    };
    let a = match id(event_agent) {
        Ok(v) => v,
        Err(e) => return Err(e),
    };
    if a != agent {
        return Err(Error::Denied);
    }
    let i = match id(origin_instance) {
        Ok(v) => v,
        Err(e) => return Err(e),
    };
    if i != instance || origin_sequence < 1 {
        return Err(Error::Denied);
    }
    let thread = match id(thread_id) {
        Ok(v) => v,
        Err(e) => return Err(e),
    };
    Ok(Admitted { event, thread })
}

/// Whether run state for `thread` must be refused: the thread is a real one,
/// the state needs the lease and `instance` does not hold it.
pub open spec fn refused_by_lease(
    thread: u128,
    state: Option<StateKind>,
    holder: Option<(u128, String)>,
    instance: u128,
) -> bool {
    thread != 0 && lease_bound(state) && match holder {
        Some((i, _)) => i != instance,
        None => true,
    }
}

/// The lease frame that tells a replica it may not write this state, where
/// that is so.
pub fn lease_check(
    agent: u128,
    thread: u128,
    state: Option<StateKind>,
    holder: Option<(u128, String)>,
    instance: u128,
) -> (r: Option<ThreadLease>)
    ensures
        r is Some <==> refused_by_lease(thread, state, holder, instance),
        match r {
            Some(l) => {
                &&& l.thread_id@ == hyphenated(thread)
                &&& l.agent_id@ == hyphenated(agent)
                &&& l.holder_instance_id@ == holder_text(holder)
                &&& l.held == holder is Some
                &&& l.holder_public_url@ == match holder {
                    Some((_, url)) => url@,
                    None => Seq::<char>::empty(),
                }
            },
            None => true,
        },
{
    if thread == 0 || !needs_lease(state) {
        return None;
    }
    let holds = match &holder {
        Some((i, _)) => *i == instance,
        None => false,
    };
    if holds {
        None
    } else {
        Some(lease_frame(agent, thread, holder))
    }
}

/// Whether a participant's agent is `agent`.
pub open spec fn names_agent(participant: Option<String>, agent: u128) -> bool {
    match participant {
        Some(a) => a@ == hyphenated(agent),
        None => false,
    }
}

/// Whether `agent` is in a roster: as its primary agent or as a participant.
pub open spec fn in_roster(primary: Seq<char>, participants: Seq<Option<String>>, agent: u128) -> bool {
    primary == hyphenated(agent) || exists|i: int|
        0 <= i < participants.len() && names_agent(#[trigger] participants[i], agent)
}

/// Only the creating event may introduce a thread, and the agent must be in it:
/// an event for a thread the gateway does not know is refused unless it carries
/// the roster of a thread that names `agent`.
pub fn check_new_thread(roster: Option<&Roster>, agent: u128) -> (r: Result<(), Error>)
    ensures
        r is Ok <==> match roster {
            Some(t) => in_roster(t.primary_agent_id@, t.participant_agents@, agent),
            None => false,
        },
        match r {
            Err(e) => e@ == Fault::Denied,
            Ok(_) => true,
        },
{
    let t = match roster {
        Some(t) => t,
        None => return Err(Error::Denied),
    };
    let text = uuid_text(agent);
    if str_eq(t.primary_agent_id.as_str(), text.as_str()) {
        return Ok(());
    }
    let mut i: usize = 0;
    while i < t.participant_agents.len()
        invariant
            roster == Some(t),
            text@ == hyphenated(agent),
            t.primary_agent_id@ != hyphenated(agent),
            0 <= i <= t.participant_agents@.len(),
            forall|j: int| 0 <= j < i ==> !names_agent(#[trigger] t.participant_agents@[j], agent),
        decreases t.participant_agents@.len() - i,
    {
        match &t.participant_agents[i] {
            Some(a) => {
                if str_eq(a.as_str(), text.as_str()) {
                    assert(names_agent(t.participant_agents@[i as int], agent));
                    return Ok(());
                }
            },
            None => {},
        }
        i = i + 1;
    }
    proof {
        assert forall|j: int| 0 <= j < t.participant_agents@.len()
            implies !names_agent(#[trigger] t.participant_agents@[j], agent) by {}
    }
    Err(Error::Denied)
}

// ---------------------------------------------------------------------------
// What a batch answers

/// The position of the lease for `thread_id` in `lost`.
pub open spec fn lease_index(lost: Seq<ThreadLease>, thread_id: Seq<char>) -> Option<nat>
    decreases lost.len(),
{
    if lost.len() == 0 {
        None
    } else if lost[0].thread_id@ == thread_id {
        Some(0)
    } else {
        match lease_index(lost.drop_first(), thread_id) {
            Some(i) => Some(i + 1),
            None => None,
        }
    }
}

/// Where a lease for a new thread goes: after the leading ones whose thread
/// identifiers sort before it.
pub open spec fn lease_point(lost: Seq<ThreadLease>, thread_id: Seq<char>) -> nat
    decreases lost.len(),
{
    if lost.len() == 0 {
        0
    } else if key_less(lost[0].thread_id@, thread_id) {
        1 + lease_point(lost.drop_first(), thread_id)
    } else {
        0
    }
}

/// The lost leases after a new one: it replaces the one for its thread, or
/// joins in thread order, as in a map keyed by thread.
pub open spec fn put_lease(lost: Seq<ThreadLease>, lease: ThreadLease) -> Seq<ThreadLease> {
    match lease_index(lost, lease.thread_id@) {
        Some(i) => lost.update(i as int, lease),
        None => lost.insert(lease_point(lost, lease.thread_id@) as int, lease),
    }
}

proof fn lemma_lease_index(lost: Seq<ThreadLease>, thread_id: Seq<char>, i: int)
    requires
        0 <= i <= lost.len(),
        forall|k: int| 0 <= k < i ==> #[trigger] lost[k].thread_id@ != thread_id,
        i < lost.len() ==> lost[i].thread_id@ == thread_id,
    ensures
        lease_index(lost, thread_id) == (if i < lost.len() {
            Some(i as nat)
        } else {
            None::<nat>
        }),
    decreases lost.len(),
{
    if i > 0 {
        assert forall|k: int| 0 <= k < i - 1 implies #[trigger] lost.drop_first()[k].thread_id@
            != thread_id by {
            assert(lost[k + 1].thread_id@ != thread_id);
        }
        lemma_lease_index(lost.drop_first(), thread_id, i - 1);
    }
}

proof fn lemma_lease_point(lost: Seq<ThreadLease>, thread_id: Seq<char>, i: int)
    requires
        0 <= i <= lost.len(),
        forall|k: int| 0 <= k < i ==> key_less(#[trigger] lost[k].thread_id@, thread_id),
        i < lost.len() ==> !key_less(lost[i].thread_id@, thread_id),
    ensures
        lease_point(lost, thread_id) == i,
    decreases lost.len(),
{
    if i > 0 {
        assert forall|k: int| 0 <= k < i - 1 implies key_less(
            #[trigger] lost.drop_first()[k].thread_id@,
            thread_id,
        ) by {
            assert(key_less(lost[k + 1].thread_id@, thread_id));
        }
        lemma_lease_point(lost.drop_first(), thread_id, i - 1);
    }
}

/// Leases for pairwise different threads.
pub open spec fn distinct_threads(s: Seq<ThreadLease>) -> bool {
    forall|i: int, j: int| 0 <= i < j < s.len() ==> #[trigger] s[i].thread_id@ != #[trigger] s[j].thread_id@
}

proof fn lemma_lease_index_found(lost: Seq<ThreadLease>, thread_id: Seq<char>)
    ensures
        match lease_index(lost, thread_id) {
            Some(i) => i < lost.len() && lost[i as int].thread_id@ == thread_id,
            None => forall|k: int| 0 <= k < lost.len() ==> #[trigger] lost[k].thread_id@ != thread_id,
        },
    decreases lost.len(),
{
    if lost.len() > 0 {
        lemma_lease_index_found(lost.drop_first(), thread_id);
        if lease_index(lost, thread_id) is None {
            assert forall|k: int| 0 <= k < lost.len() implies #[trigger] lost[k].thread_id@ != thread_id by {
                if k > 0 {
                    assert(lost[k] == lost.drop_first()[k - 1]);
                }
            }
        }
    }
}

proof fn lemma_lease_point_bound(lost: Seq<ThreadLease>, thread_id: Seq<char>)
    ensures
        lease_point(lost, thread_id) <= lost.len(),
    decreases lost.len(),
{
    if lost.len() > 0 {
        lemma_lease_point_bound(lost.drop_first(), thread_id);
    }
}

/// A batch answers with at most one lost lease per thread, the latest one:
/// filing a lease keeps the threads distinct, holds the new lease, and keeps
/// every lease of another thread.
pub proof fn law_one_lease_per_thread(lost: Seq<ThreadLease>, lease: ThreadLease)
    requires
        distinct_threads(lost),
    ensures
        distinct_threads(put_lease(lost, lease)),
        put_lease(lost, lease).contains(lease),
        forall|k: int| 0 <= k < lost.len() && (#[trigger] lost[k]).thread_id@ != lease.thread_id@
            ==> put_lease(lost, lease).contains(lost[k]),
{
    let t = lease.thread_id@;
    lemma_lease_index_found(lost, t);
    let r = put_lease(lost, lease);
    match lease_index(lost, t) {
        Some(i) => {
            assert(r[i as int] == lease);
            assert forall|k: int| 0 <= k < lost.len() && (#[trigger] lost[k]).thread_id@ != t implies r.contains(lost[k]) by {
                assert(r[k] == lost[k]);
            }
        },
        None => {
            let p = lease_point(lost, t) as int;
            lemma_lease_point_bound(lost, t);
            assert(r[p] == lease);
            assert forall|i: int, j: int| 0 <= i < j < r.len() implies #[trigger] r[i].thread_id@ != #[trigger] r[j].thread_id@ by {
                if i == p {
                    assert(r[j] == lost[j - 1]);
                } else if j == p {
                    assert(r[i] == lost[i]);
                } else {
                    let a = if i < p { i } else { i - 1 };
                    let b = if j < p { j } else { j - 1 };
                    assert(r[i] == lost[a]);
                    assert(r[j] == lost[b]);
                }
            }
            assert forall|k: int| 0 <= k < lost.len() && (#[trigger] lost[k]).thread_id@ != t implies r.contains(lost[k]) by {
                if k < p {
                    assert(r[k] == lost[k]);
                } else {
                    assert(r[k + 1] == lost[k]);
                }
            }
        },
    }
}

/// The answer to a published batch: the events the gateway refused, and for
/// each thread whose lease the replica no longer holds, who does.
pub struct BatchReport {
    pub rejected: Vec<String>,
    pub lost: Vec<ThreadLease>,
}

impl BatchReport {
    /// A report of nothing.
    pub fn new() -> (r: Self)
        ensures
            r.rejected@.len() == 0,
            r.lost@.len() == 0,
    {
        BatchReport { rejected: Vec::new(), lost: Vec::new() }
    }

    /// Files a lost lease under its thread.
    pub fn lose(&mut self, lease: ThreadLease)
        ensures
            final(self).lost@ == put_lease(old(self).lost@, lease),
            final(self).rejected@ == old(self).rejected@,
    {
        let ghost before = self.lost@;
        let mut i: usize = 0;
        while i < self.lost.len()
            invariant
                before == self.lost@,
                before == old(self).lost@,
                self.rejected@ == old(self).rejected@,
                0 <= i <= self.lost@.len(),
                forall|k: int| 0 <= k < i ==> #[trigger] self.lost@[k].thread_id@ != lease.thread_id@,
            decreases self.lost@.len() - i,
        {
            if str_eq(self.lost[i].thread_id.as_str(), lease.thread_id.as_str()) {
                proof {
                    lemma_lease_index(before, lease.thread_id@, i as int);
                }
                self.lost.set(i, lease);
                return;
            }
            i = i + 1;
        }
        proof {
            lemma_lease_index(before, lease.thread_id@, before.len() as int);
        }
        let mut p: usize = 0;
        while p < self.lost.len() && str_less(self.lost[p].thread_id.as_str(), lease.thread_id.as_str())
            invariant
                before == self.lost@,
                before == old(self).lost@,
                self.rejected@ == old(self).rejected@,
                0 <= p <= self.lost@.len(),
                forall|k: int| 0 <= k < p ==> key_less(#[trigger] self.lost@[k].thread_id@, lease.thread_id@),
            decreases self.lost@.len() - p,
        {
            p = p + 1;
        }
        proof {
            lemma_lease_point(before, lease.thread_id@, p as int);
        }
        self.lost.insert(p, lease);
    }

    /// Takes in what projecting one event came to: a lost lease is filed under
    /// its thread, an error the frame caused refuses that event alone, and any
    /// other error fails the batch.
    pub fn record(&mut self, event_id: String, outcome: Result<Outcome, Error>) -> (r: Result<(), Error>)
        ensures
            match outcome {
                Ok(Outcome::NotHolder(lease)) => r is Ok
                    && final(self).lost@ == put_lease(old(self).lost@, lease)
                    && final(self).rejected@ == old(self).rejected@,
                Ok(_) => r is Ok && final(self).lost@ == old(self).lost@
                    && final(self).rejected@ == old(self).rejected@,
                Err(e) => if rejectable_fault(e@) {
                    r is Ok && final(self).rejected@ == old(self).rejected@.push(event_id)
                        && final(self).lost@ == old(self).lost@
                } else {
                    (r matches Err(x) && x@ == e@) && final(self).lost@ == old(self).lost@
                        && final(self).rejected@ == old(self).rejected@
                },
            },
    {
        match outcome {
            Ok(Outcome::NotHolder(lease)) => {
                self.lose(lease);
                Ok(())
            },
            Ok(_) => Ok(()),
            Err(e) => {
                if rejectable(&e) {
                    self.rejected.push(event_id);
                    Ok(())
                } else {
                    Err(e)
                }
            },
        }
    }
}

/// Whether `chrono::DateTime::<Utc>::from_timestamp_millis` accepts a time
/// in milliseconds since the epoch: a date within chrono's range.
pub uninterp spec fn millis_in_range(ms: i64) -> bool;

/// `chrono::DateTime::<Utc>::from_timestamp_millis(ms).is_some()`. Claimed:
/// the result is `millis_in_range` of the time.
#[verifier::external_body]
fn timestamp_in_range(ms: i64) -> (r: bool)
    ensures
        r == millis_in_range(ms),
{
    chrono::DateTime::<chrono::Utc>::from_timestamp_millis(ms).is_some()
}

/// Refuses an event whose creation time is no date.
pub fn check_event_time(ms: i64) -> (r: Result<(), Error>)
    ensures
        r is Ok <==> millis_in_range(ms),
        r matches Err(e) ==> e@ == Fault::Invalid("Invalid event timestamp"@),
{
    if timestamp_in_range(ms) {
        Ok(())
    } else {
        Err(Error::Invalid("Invalid event timestamp".to_owned()))
    }
}

/// The refusal of an event whose state belongs to another thread or agent:
/// a thread's or message's state must name the event's thread; a run's or
/// invocation's must name its thread and then its agent. Identifiers that do
/// not read are refused as such, in that order.
pub open spec fn identity_fault(kind: StateKind, state_thread: Seq<char>, state_agent: Seq<char>, thread: u128, agent: u128) -> Option<Fault> {
    match kind {
        StateKind::Thread | StateKind::Message => match id_result(state_thread) {
            Err(f) => Some(f),
            Ok(t) => if t != thread { Some(Fault::Denied) } else { None },
        },
        StateKind::Run | StateKind::Invocation => match id_result(state_thread) {
            Err(f) => Some(f),
            Ok(t) => if t != thread {
                Some(Fault::Denied)
            } else {
                match id_result(state_agent) {
                    Err(f) => Some(f),
                    Ok(a) => if a != agent { Some(Fault::Denied) } else { None },
                }
            },
        },
        _ => None,
    }
}

/// Checks that an event's state belongs to the event's thread and agent;
/// `state_thread` is the thread (for a thread, its own identifier) the
/// state names, `state_agent` the agent of a run or invocation.
pub fn check_state_identity(kind: StateKind, state_thread: &str, state_agent: &str, thread: u128, agent: u128) -> (r: Result<(), Error>)
    ensures
        match r {
            Ok(_) => identity_fault(kind, state_thread@, state_agent@, thread, agent) is None,
            Err(e) => identity_fault(kind, state_thread@, state_agent@, thread, agent) == Some(e@),
        },
{
    match kind {
        StateKind::Thread | StateKind::Message | StateKind::Run | StateKind::Invocation => {
            let t = match id(state_thread) {
                Ok(t) => t,
                Err(e) => return Err(e),
            };
            if t != thread {
                return Err(Error::Denied);
            }
            if kind == StateKind::Run || kind == StateKind::Invocation {
                let a = match id(state_agent) {
                    Ok(a) => a,
                    Err(e) => return Err(e),
                };
                if a != agent {
                    return Err(Error::Denied);
                }
            }
            Ok(())
        },
        _ => Ok(()),
    }
}

/// Whether an event's receipt was new: a replayed event is answered as a
/// duplicate and changes nothing.
pub fn receipt_outcome(inserted: bool) -> (r: Option<Outcome>)
    ensures
        inserted <==> r is None,
        !inserted ==> r matches Some(Outcome::Duplicate),
{
    if inserted {
        None
    } else {
        Some(Outcome::Duplicate)
    }
}

/// Whether an agent may project into an event's thread, decided once per
/// thread and batch: a thread already admitted in the batch passes; an
/// existing thread accepts events only from agents in it (`member`); a new
/// thread only from the event that creates it with the agent in its roster.
pub fn check_member(admitted: bool, exists: bool, member: bool, roster: Option<&Roster>, agent: u128) -> (r: Result<(), Error>)
    ensures
        admitted ==> r is Ok,
        !admitted && exists ==> (r is Ok <==> member),
        !admitted && !exists ==> (r is Ok <==> match roster {
            Some(t) => in_roster(t.primary_agent_id@, t.participant_agents@, agent),
            None => false,
        }),
        r matches Err(e) ==> e@ == Fault::Denied,
{
    if admitted {
        Ok(())
    } else if exists {
        if member { Ok(()) } else { Err(Error::Denied) }
    } else {
        check_new_thread(roster, agent)
    }
}

} // verus!
