//! Shared history between the replicas of the agents in one conversation:
//! which activities call for a copy, the outbox record that carries it, where
//! a copy may go, and what a replica writes and routes when one arrives.
//! History is copied only into retained conversations, never retiring ones,
//! and replayed history starts no work.
use vstd::prelude::*;
use crate::deployment::ingest::Participant;
use crate::deployment::store::Message;
use crate::deployment::wire::ChatError;
use crate::ids::{be_bytes, be_bytes_of, hyphenated, name_based_uuid, name_uuid, parse_uuid, parsed_uuid, uuid_text};
use crate::json::{JsonNumber, NumberV};
use crate::oauth::{number_string, number_text};
use crate::text::str_eq;
use vstd::string::*;
use vstd::utf8::encode_utf8;

verus! {

/// How many pending copies one pass takes; a full page means more may wait.
pub const BRIDGE_BATCH: usize = 50;

/// The name under which the copy of activity `sequence` for `agent` is kept.
pub open spec fn bridge_name(agent: u128, sequence: i64) -> Seq<char> {
    "bridge:"@ + hyphenated(agent) + seq![':'] + number_text(NumberV::Signed(sequence))
}

/// The outbox record carrying the copy of activity `sequence` of `thread` to `agent`.
pub open spec fn bridge_record_key(thread: u128, agent: u128, sequence: i64) -> u128 {
    name_based_uuid(thread, encode_utf8(bridge_name(agent, sequence)))
}

/// What a pass does with one pending copy.
#[derive(Debug, PartialEq, Eq)]
pub enum BridgeStep {
    /// Leave it: another pass took its receipt, or the activity is gone.
    Skip,
    /// Take the receipt only: the agent wrote the activity itself.
    Receipt,
    /// Take the receipt, place the conversation with the agent, and queue
    /// the copy under `record`.
    Copy { record: u128 },
}

/// What a pass does with the pending copy of activity `sequence` of `thread`
/// for `agent`: `claimed` tells whether its receipt was taken now, and
/// `origin` is the agent that wrote the activity, where it was found.
pub fn bridge_step(thread: u128, agent: u128, sequence: i64, claimed: bool, origin: Option<&str>) -> (r: BridgeStep)
    ensures
        r == (if !claimed || origin is None {
            BridgeStep::Skip
        } else if origin.unwrap()@ == hyphenated(agent) {
            BridgeStep::Receipt
        } else {
            BridgeStep::Copy { record: bridge_record_key(thread, agent, sequence) }
        }),
{
    if !claimed {
        return BridgeStep::Skip;
    }
    let origin = match origin {
        Some(o) => o,
        None => return BridgeStep::Skip,
    };
    let own = uuid_text(agent);
    if str_eq(origin, own.as_str()) {
        return BridgeStep::Receipt;
    }
    let mut name = "bridge:".to_owned();
    name.append(own.as_str());
    name.append(":");
    let n = number_string(&JsonNumber::Signed(sequence));
    name.append(n.as_str());
    proof {
        reveal_strlit(":");
        assert(name@ =~= bridge_name(agent, sequence));
    }
    BridgeStep::Copy { record: name_uuid(thread, name.as_str().as_bytes()) }
}

/// Whether a conversation's placement lets a copy of its history reach a
/// sidecar: the agent runs as a sidecar, and the conversation is not kept
/// elsewhere (it has no placement with the agent, or lives in its replicas).
pub open spec fn deliverable(sidecar: bool, storage: Option<Seq<char>>) -> bool {
    sidecar && match storage {
        None => true,
        Some(s) => s == "corrosion"@,
    }
}

/// Whether a copy of a conversation's history goes to the agent's sidecar.
pub fn delivers(sidecar: bool, storage: Option<&str>) -> (r: bool)
    ensures
        r == deliverable(sidecar, match storage { Some(s) => Some(s@), None => None }),
{
    if !sidecar {
        return false;
    }
    match storage {
        None => true,
        Some(s) => str_eq(s, "corrosion"),
    }
}

/// Where a run requested of a retained conversation goes: `Ok(false)` where
/// the sidecar does not serve it (the agent is no sidecar, or the conversation
/// is kept in the database), `Ok(true)` where its replica does, and a conflict
/// while the conversation is being retired.
pub fn retained_run(sidecar: bool, storage: Option<&str>) -> (r: Result<bool, ChatError>)
    ensures
        !sidecar ==> r == Ok::<bool, ChatError>(false),
        sidecar ==> match storage {
            Some(s) if s@ == "postgres"@ => r == Ok::<bool, ChatError>(false),
            Some(s) if s@ == "retiring"@ => r matches Err(ChatError::Conflict),
            _ => r == Ok::<bool, ChatError>(true),
        },
{
    if !sidecar {
        return Ok(false);
    }
    match storage {
        Some(s) => {
            if str_eq(s, "postgres") {
                Ok(false)
            } else if str_eq(s, "retiring") {
                proof {
                    reveal_strlit("postgres");
                    reveal_strlit("retiring");
                }
                Err(ChatError::Conflict)
            } else {
                Ok(true)
            }
        },
        None => Ok(true),
    }
}

/// One activity of a copied history, as the sending side recorded it; empty
/// texts and a zero origin sequence stand for what the receiver fills in.
pub struct BridgeActivity {
    pub event_id: String,
    pub sequence: i64,
    pub origin_instance_id: String,
    pub origin_agent_id: String,
    pub origin_sequence: i64,
    /// Creation time: whole seconds and the nanoseconds beyond them.
    pub created_seconds: i64,
    pub created_nanos: i32,
    pub kind: String,
    /// The message the activity carries, if any.
    pub message: Option<Message>,
}

/// A copy of a conversation's history, sent for the activity at `sequence`.
pub struct BridgeSnapshot {
    pub thread_id: String,
    pub primary_agent_id: String,
    pub participants: Vec<Participant>,
    pub messages: Vec<Message>,
    pub activities: Vec<BridgeActivity>,
    pub sequence: i64,
}

/// An event a replica records for an activity it received.
pub struct BridgeEvent {
    pub key: u128,
    pub origin_instance_id: String,
    pub origin_agent_id: String,
    pub origin_sequence: i64,
    pub created_ms: i64,
    pub kind: String,
}

/// What a replica writes and routes for a copy it received: the
/// conversation, its participants, each message under its identifier, an
/// event per activity, and the messages to route to the agent.
pub struct BridgePlan {
    pub thread: u128,
    pub participants: Vec<Participant>,
    pub messages: Vec<(u128, Message)>,
    pub events: Vec<BridgeEvent>,
    pub routed: Vec<Message>,
}

/// Whether the agent takes part in the conversation.
pub open spec fn agent_takes_part(ps: Seq<Participant>, agent: u128) -> bool {
    exists|i: int| 0 <= i < ps.len() && (#[trigger] ps[i]).agent_id is Some && ps[i].agent_id.unwrap()@ == hyphenated(agent)
}

/// The messages the activities carry, in order.
pub open spec fn carried_messages(acts: Seq<BridgeActivity>) -> Seq<Message>
    decreases acts.len(),
{
    if acts.len() == 0 {
        Seq::empty()
    } else {
        let rest = carried_messages(acts.drop_last());
        match acts.last().message {
            Some(m) => rest.push(m),
            None => rest,
        }
    }
}

/// The complete messages carried by the activity at `sequence`: the only
/// ones a copy routes to the agent.
pub open spec fn triggering(acts: Seq<BridgeActivity>, sequence: i64) -> Seq<Message>
    decreases acts.len(),
{
    if acts.len() == 0 {
        Seq::empty()
    } else {
        let rest = triggering(acts.drop_last(), sequence);
        let a = acts.last();
        if a.sequence == sequence && a.message is Some && a.message.unwrap().status@ == "complete"@ {
            rest.push(a.message.unwrap())
        } else {
            rest
        }
    }
}

/// Every message a copy brings: the history's messages, then those of its activities.
pub open spec fn incoming(s: BridgeSnapshot) -> Seq<Message> {
    s.messages@ + carried_messages(s.activities@)
}

/// The identifier of an activity's event: its own, or one named by the
/// conversation and the activity's sequence (its eight big-endian bytes).
pub open spec fn event_key(thread: u128, a: BridgeActivity) -> Option<u128> {
    if a.event_id@.len() == 0 {
        Some(name_based_uuid(thread, be_bytes((a.sequence as u64) as nat, 8)))
    } else {
        parsed_uuid(a.event_id@)
    }
}

/// Nanoseconds as whole milliseconds, rounded toward zero.
pub open spec fn nanos_millis(n: i32) -> int {
    if n >= 0 {
        n / 1_000_000
    } else {
        -((-n) / 1_000_000)
    }
}

/// An activity's creation time in milliseconds.
pub open spec fn created_millis(a: BridgeActivity) -> int {
    a.created_seconds * 1000 + nanos_millis(a.created_nanos)
}

/// Creation times whose milliseconds fit an `i64`.
pub open spec fn millis_fit(acts: Seq<BridgeActivity>) -> bool {
    forall|i: int| 0 <= i < acts.len() ==>
        i64::MIN <= (#[trigger] acts[i]).created_seconds * 1000 <= i64::MAX
        && i64::MIN <= created_millis(acts[i]) <= i64::MAX
}

/// The event recorded for activity `a`: its origin filled in where the
/// sender left it open (no instance, the primary agent, its own sequence).
pub open spec fn event_for(e: BridgeEvent, thread: u128, primary: Seq<char>, a: BridgeActivity) -> bool {
    &&& event_key(thread, a) == Some(e.key)
    &&& e.origin_instance_id@ == (if a.origin_instance_id@.len() == 0 { hyphenated(0) } else { a.origin_instance_id@ })
    &&& e.origin_agent_id@ == (if a.origin_agent_id@.len() == 0 { primary } else { a.origin_agent_id@ })
    &&& e.origin_sequence == (if a.origin_sequence == 0 { a.sequence } else { a.origin_sequence })
    &&& e.created_ms == created_millis(a)
    &&& e.kind@ == a.kind@
}

/// Whether every message and activity of a copy carries a readable identifier.
pub open spec fn identified(s: BridgeSnapshot, thread: u128) -> bool {
    &&& forall|i: int| 0 <= i < incoming(s).len() ==> parsed_uuid((#[trigger] incoming(s)[i]).id@) is Some
    &&& forall|i: int| 0 <= i < s.activities@.len() ==> event_key(thread, #[trigger] s.activities@[i]) is Some
}

/// What a replica does with a copy it received.
pub open spec fn planned(p: BridgePlan, s: BridgeSnapshot, thread: u128) -> bool {
    &&& p.thread == thread
    &&& p.participants@ == s.participants@
    &&& p.messages@.len() == incoming(s).len()
    &&& forall|i: int| 0 <= i < incoming(s).len() ==>
        (#[trigger] p.messages@[i]).1 == incoming(s)[i] && parsed_uuid(incoming(s)[i].id@) == Some(p.messages@[i].0)
    &&& p.events@.len() == s.activities@.len()
    &&& forall|i: int| 0 <= i < s.activities@.len() ==>
        event_for(#[trigger] p.events@[i], thread, s.primary_agent_id@, s.activities@[i])
    &&& p.routed@ == triggering(s.activities@, s.sequence)
}

/// The messages carried by the first activities start those carried by all.
proof fn lemma_carried_prefix(acts: Seq<BridgeActivity>, j: int)
    requires
        0 <= j <= acts.len(),
    ensures
        carried_messages(acts.subrange(0, j)).len() <= carried_messages(acts).len(),
        carried_messages(acts.subrange(0, j))
            == carried_messages(acts).subrange(0, carried_messages(acts.subrange(0, j)).len() as int),
    decreases acts.len() - j,
{
    if j == acts.len() {
        assert(acts.subrange(0, j) =~= acts);
        assert(carried_messages(acts).subrange(0, carried_messages(acts).len() as int) =~= carried_messages(acts));
    } else {
        lemma_carried_prefix(acts, j + 1);
        let a = acts.subrange(0, j + 1);
        assert(a.drop_last() =~= acts.subrange(0, j));
        let c = carried_messages(acts);
        let cj = carried_messages(acts.subrange(0, j));
        let cj1 = carried_messages(a);
        assert(cj1.subrange(0, cj.len() as int) =~= cj);
        assert(c.subrange(0, cj.len() as int) =~= cj1.subrange(0, cj.len() as int));
    }
}

/// What a replica writes and routes for a copy of a conversation's history
/// sent to `agent`: refused unless the agent takes part in the conversation
/// and every identifier reads; of the activities only the one at the copy's
/// own sequence routes its complete message, so replayed history starts no work.
#[verifier::loop_isolation(false)]
pub fn plan_bridge(agent: u128, snapshot: BridgeSnapshot) -> (r: Result<BridgePlan, ChatError>)
    requires
        millis_fit(snapshot.activities@),
    ensures
        match parsed_uuid(snapshot.thread_id@) {
            None => (r matches Err(ChatError::Invalid(m)) && m@ == "Invalid UUID"@),
            Some(thread) => {
                &&& (!agent_takes_part(snapshot.participants@, agent) ==> r matches Err(ChatError::Denied))
                &&& (agent_takes_part(snapshot.participants@, agent) && !identified(snapshot, thread)
                    ==> (r matches Err(ChatError::Invalid(m)) && m@ == "Invalid UUID"@))
                &&& (agent_takes_part(snapshot.participants@, agent) && identified(snapshot, thread)
                    ==> (r matches Ok(p) && planned(p, snapshot, thread)))
            },
        },
{
    let ghost s = snapshot;
    let thread = match parse_uuid(snapshot.thread_id.as_str()) {
        Some(t) => t,
        None => return Err(ChatError::Invalid("Invalid UUID".to_owned())),
    };
    let own = uuid_text(agent);
    let mut found = false;
    let mut i: usize = 0;
    while i < snapshot.participants.len()
        invariant
            s == snapshot,
            own@ == hyphenated(agent),
            0 <= i <= snapshot.participants@.len(),
            found <==> exists|k: int| 0 <= k < i && (#[trigger] snapshot.participants@[k]).agent_id is Some
                && snapshot.participants@[k].agent_id.unwrap()@ == hyphenated(agent),
        decreases snapshot.participants@.len() - i,
    {
        match &snapshot.participants[i].agent_id {
            Some(a) => {
                if str_eq(a.as_str(), own.as_str()) {
                    found = true;
                }
            },
            None => {},
        }
        i = i + 1;
    }
    if !found {
        return Err(ChatError::Denied);
    }
    let BridgeSnapshot { thread_id, primary_agent_id, participants, messages, activities, sequence } = snapshot;
    let mut written: Vec<(u128, Message)> = Vec::new();
    let mut i: usize = 0;
    while i < messages.len()
        invariant
            messages@ == s.messages@,
            0 <= i <= messages@.len(),
            written@.len() == i,
            forall|k: int| 0 <= k < i ==>
                (#[trigger] written@[k]).1 == messages@[k] && parsed_uuid(messages@[k].id@) == Some(written@[k].0),
        decreases messages@.len() - i,
    {
        let key = match parse_uuid(messages[i].id.as_str()) {
            Some(k) => k,
            None => {
                proof {
                    assert(incoming(s)[i as int] == messages@[i as int]);
                }
                return Err(ChatError::Invalid("Invalid UUID".to_owned()));
            },
        };
        written.push((key, messages[i].duplicate()));
        i = i + 1;
    }
    let mut events: Vec<BridgeEvent> = Vec::new();
    let mut routed: Vec<Message> = Vec::new();
    let mut j: usize = 0;
    proof {
        assert(activities@.subrange(0, 0) =~= Seq::<BridgeActivity>::empty());
        assert(messages@ + carried_messages(activities@.subrange(0, 0)) =~= messages@);
    }
    while j < activities.len()
        invariant
            messages@ == s.messages@,
            activities@ == s.activities@,
            primary_agent_id@ == s.primary_agent_id@,
            sequence == s.sequence,
            millis_fit(activities@),
            0 <= j <= activities@.len(),
            written@.len() == (messages@ + carried_messages(activities@.subrange(0, j as int))).len(),
            forall|k: int| 0 <= k < written@.len() ==>
                (#[trigger] written@[k]).1 == (messages@ + carried_messages(activities@.subrange(0, j as int)))[k]
                && parsed_uuid(written@[k].1.id@) == Some(written@[k].0),
            events@.len() == j,
            forall|k: int| 0 <= k < j ==> event_for(#[trigger] events@[k], thread, primary_agent_id@, activities@[k]),
            routed@ == triggering(activities@.subrange(0, j as int), sequence),
        decreases activities@.len() - j,
    {
        let a = &activities[j];
        let ghost before = activities@.subrange(0, j as int);
        let ghost upto = activities@.subrange(0, j as int + 1);
        proof {
            assert(upto.drop_last() =~= before);
            assert(upto.last() == activities@[j as int]);
        }
        let key = if a.event_id.as_str().unicode_len() == 0 {
            let bytes = be_bytes_of((#[verifier::truncate] (a.sequence as u64)) as u128, 8);
            name_uuid(thread, bytes.as_slice())
        } else {
            match parse_uuid(a.event_id.as_str()) {
                Some(k) => k,
                None => return Err(ChatError::Invalid("Invalid UUID".to_owned())),
            }
        };
        match &a.message {
            Some(m) => {
                let mkey = match parse_uuid(m.id.as_str()) {
                    Some(k) => k,
                    None => {
                        proof {
                            lemma_carried_prefix(activities@, j as int + 1);
                            let idx = (messages@.len() + carried_messages(before).len()) as int;
                            let c = carried_messages(activities@);
                            let cb = carried_messages(before);
                            assert(carried_messages(upto) == cb.push(*m));
                            assert(carried_messages(upto)[cb.len() as int] == *m);
                            assert(c.subrange(0, cb.len() as int + 1)[cb.len() as int] == *m);
                            assert(c[cb.len() as int] == *m);
                            assert(incoming(s)[idx] == *m);
                        }
                        return Err(ChatError::Invalid("Invalid UUID".to_owned()));
                    },
                };
                written.push((mkey, m.duplicate()));
                if a.sequence == sequence && str_eq(m.status.as_str(), "complete") {
                    routed.push(m.duplicate());
                }
            },
            None => {},
        }
        proof {
            assert(messages@ + carried_messages(upto) =~= (match a.message {
                Some(m) => (messages@ + carried_messages(before)).push(m),
                None => messages@ + carried_messages(before),
            }));
        }
        let origin_instance = if a.origin_instance_id.as_str().unicode_len() == 0 {
            uuid_text(0)
        } else {
            crate::text::copy(a.origin_instance_id.as_str())
        };
        let origin_agent = if a.origin_agent_id.as_str().unicode_len() == 0 {
            crate::text::copy(primary_agent_id.as_str())
        } else {
            crate::text::copy(a.origin_agent_id.as_str())
        };
        let origin_sequence = if a.origin_sequence == 0 { a.sequence } else { a.origin_sequence };
        let nanos = a.created_nanos as i64;
        let part: i64 = if nanos >= 0 { nanos / 1_000_000 } else { 0 - ((0 - nanos) / 1_000_000) };
        proof {
            assert(i64::MIN <= activities@[j as int].created_seconds * 1000 <= i64::MAX);
            assert(i64::MIN <= created_millis(activities@[j as int]) <= i64::MAX);
        }
        let created_ms = a.created_seconds * 1000 + part;
        events.push(BridgeEvent {
            key,
            origin_instance_id: origin_instance,
            origin_agent_id: origin_agent,
            origin_sequence,
            created_ms,
            kind: crate::text::copy(a.kind.as_str()),
        });
        j = j + 1;
    }
    proof {
        assert(activities@.subrange(0, activities@.len() as int) =~= activities@);
        assert(messages@ + carried_messages(activities@) == incoming(s));
    }
    let p = BridgePlan { thread, participants, messages: written, events, routed };
    proof {
        assert(p.participants@ == s.participants@);
        assert(p.routed@ == triggering(s.activities@, s.sequence));
        assert(p.messages@.len() == incoming(s).len());
        assert(p.events@.len() == s.activities@.len());
        assert forall|i: int| 0 <= i < incoming(s).len() implies
            (#[trigger] p.messages@[i]).1 == incoming(s)[i] && parsed_uuid(incoming(s)[i].id@) == Some(p.messages@[i].0) by {
            assert(p.messages@[i] == written@[i]);
        }
        assert forall|i: int| 0 <= i < s.activities@.len() implies
            event_for(#[trigger] p.events@[i], thread, s.primary_agent_id@, s.activities@[i]) by {
            assert(p.events@[i] == events@[i]);
        }
        assert(planned(p, s, thread));
        assert forall|i: int| 0 <= i < incoming(s).len() implies parsed_uuid((#[trigger] incoming(s)[i]).id@) is Some by {
            assert(p.messages@[i].1 == incoming(s)[i]);
        }
        assert forall|i: int| 0 <= i < s.activities@.len() implies event_key(thread, #[trigger] s.activities@[i]) is Some by {
            assert(event_for(p.events@[i], thread, s.primary_agent_id@, s.activities@[i]));
        }
        assert(identified(s, thread));
        assert(agent_takes_part(s.participants@, agent));
    }
    Ok(p)
}

/// A copy routes only complete messages carried by the activity at the
/// copy's own sequence, so the history replayed with it starts no work; a
/// copy without such an activity routes nothing.
pub proof fn law_replay_starts_no_work(acts: Seq<BridgeActivity>, sequence: i64)
    ensures
        forall|i: int| #![trigger triggering(acts, sequence)[i]] 0 <= i < triggering(acts, sequence).len() ==> exists|j: int|
            0 <= j < acts.len() && (#[trigger] acts[j]).sequence == sequence
            && acts[j].message == Some(triggering(acts, sequence)[i])
            && triggering(acts, sequence)[i].status@ == "complete"@,
        (forall|j: int| 0 <= j < acts.len() ==> (#[trigger] acts[j]).sequence != sequence)
            ==> triggering(acts, sequence).len() == 0,
    decreases acts.len(),
{
    if acts.len() > 0 {
        let init = acts.drop_last();
        law_replay_starts_no_work(init, sequence);
        let t = triggering(acts, sequence);
        let ti = triggering(init, sequence);
        assert forall|i: int| #![trigger t[i]] 0 <= i < t.len() implies exists|j: int|
            0 <= j < acts.len() && (#[trigger] acts[j]).sequence == sequence
            && acts[j].message == Some(t[i]) && t[i].status@ == "complete"@ by {
            if i < ti.len() {
                assert(t[i] == ti[i]);
                let j = choose|j: int| 0 <= j < init.len() && (#[trigger] init[j]).sequence == sequence
                    && init[j].message == Some(ti[i]) && ti[i].status@ == "complete"@;
                assert(acts[j] == init[j]);
            } else {
                assert(acts[acts.len() - 1] == acts.last());
            }
        }
        if forall|j: int| 0 <= j < acts.len() ==> (#[trigger] acts[j]).sequence != sequence {
            assert forall|j: int| 0 <= j < init.len() implies (#[trigger] init[j]).sequence != sequence by {
                assert(init[j] == acts[j]);
            }
            assert(acts[acts.len() - 1] == acts.last());
        }
    }
}

/// History is never copied into a conversation being retired, nor into one
/// kept in the database.
pub proof fn law_no_copy_into_retired(sidecar: bool)
    ensures
        !deliverable(sidecar, Some("retiring"@)),
        !deliverable(sidecar, Some("postgres"@)),
{
    reveal_strlit("retiring");
    reveal_strlit("postgres");
    reveal_strlit("corrosion");
    assert("retiring"@[0] != "corrosion"@[0]);
    assert("postgres"@[0] != "corrosion"@[0]);
}

} // verus!
