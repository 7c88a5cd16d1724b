//! What a replica does with a completed message in a conversation it holds:
//! whether its agent is addressed, and whether the message steers the running
//! invocation or starts a run.
use vstd::prelude::*;
use crate::deployment::ingest::Participant;
use crate::deployment::wire::ChatError;
use crate::ids::{hyphenated, uuid_text};
use crate::text::str_eq;

verus! {

/// What a message leads to for the agent.
#[derive(Debug)]
pub enum Routed {
    /// Nothing: the agent is paused or not addressed, or the message was
    /// already taken.
    Ignored,
    /// An input for the running invocation, from the agent's participant.
    Steer { participant: String, objective: String },
    /// A new run toward the message, from the agent's participant.
    Run { participant: String, objective: String },
}

/// Whether a participant is the agent itself, active in the conversation.
pub open spec fn is_agent_here(p: Participant, agent: u128) -> bool {
    p.active && (p.agent_id matches Some(a) && a@ == hyphenated(agent))
}

/// The position of the first participant with this identifier.
pub open spec fn first_with_id(ps: Seq<Participant>, id: Seq<char>, i: int) -> bool {
    0 <= i < ps.len() && ps[i].id@ == id && forall|j: int| 0 <= j < i ==> (#[trigger] ps[j]).id@ != id
}

/// The position of the agent's first active participant.
pub open spec fn first_agent(ps: Seq<Participant>, agent: u128, i: int) -> bool {
    0 <= i < ps.len() && is_agent_here(ps[i], agent) && forall|j: int| 0 <= j < i ==> !is_agent_here(#[trigger] ps[j], agent)
}

/// The objective a message sets: its text, or a note that it carries only attachments.
pub open spec fn objective_of(text: Seq<char>) -> Seq<char> {
    if text.len() == 0 { "New message with attachments."@ } else { text }
}

/// Whether the agent's participant `target` is addressed: named among the
/// addressees, or, where nobody is named, the primary agent of a message a
/// user sent.
pub open spec fn addressed_to(addressed: Seq<String>, target: Participant, sender: Participant, primary_is_agent: bool) -> bool {
    (exists|i: int| 0 <= i < addressed.len() && (#[trigger] addressed[i])@ == target.id@)
        || (addressed.len() == 0 && sender.user_id is Some && primary_is_agent)
}

/// The first participant matching `id`.
fn find_participant(ps: &Vec<Participant>, id: &str) -> (r: Option<usize>)
    ensures
        match r {
            Some(i) => first_with_id(ps@, id@, i as int),
            None => forall|i: int| 0 <= i < ps@.len() ==> (#[trigger] ps@[i]).id@ != id@,
        },
{
    let mut i: usize = 0;
    while i < ps.len()
        invariant
            0 <= i <= ps@.len(),
            forall|j: int| 0 <= j < i ==> (#[trigger] ps@[j]).id@ != id@,
        decreases ps@.len() - i,
    {
        if str_eq(ps[i].id.as_str(), id) {
            return Some(i);
        }
        i = i + 1;
    }
    None
}

/// The agent's own active participant.
pub(crate) fn find_agent(ps: &Vec<Participant>, agent: u128) -> (r: Option<usize>)
    ensures
        match r {
            Some(i) => first_agent(ps@, agent, i as int),
            None => forall|i: int| 0 <= i < ps@.len() ==> !is_agent_here(#[trigger] ps@[i], agent),
        },
{
    let text = uuid_text(agent);
    let mut i: usize = 0;
    while i < ps.len()
        invariant
            text@ == hyphenated(agent),
            0 <= i <= ps@.len(),
            forall|j: int| 0 <= j < i ==> !is_agent_here(#[trigger] ps@[j], agent),
        decreases ps@.len() - i,
    {
        let p = &ps[i];
        let mine = p.active && match &p.agent_id {
            Some(a) => str_eq(a.as_str(), text.as_str()),
            None => false,
        };
        if mine {
            return Some(i);
        }
        i = i + 1;
    }
    None
}

/// Whether a list of identifiers holds one.
pub(crate) fn holds(ids: &Vec<String>, id: &str) -> (r: bool)
    ensures
        r == exists|i: int| 0 <= i < ids@.len() && (#[trigger] ids@[i])@ == id@,
{
    let mut i: usize = 0;
    while i < ids.len()
        invariant
            0 <= i <= ids@.len(),
            forall|j: int| 0 <= j < i ==> (#[trigger] ids@[j])@ != id@,
        decreases ids@.len() - i,
    {
        if str_eq(ids[i].as_str(), id) {
            assert((ids@[i as int])@ == id@);
            return true;
        }
        i = i + 1;
    }
    false
}

/// Routes a message: ignored while the agent is paused or the message is not
/// complete; refused when its sender is not in the conversation; ignored when
/// the agent is not in it or not addressed, or the message was already taken;
/// otherwise it steers the running invocation where there is one, and starts a
/// run where there is none, from the agent's participant.
pub fn route_message(
    paused: bool,
    status: &str,
    sender_id: &str,
    participants: &Vec<Participant>,
    agent: u128,
    addressed: &Vec<String>,
    primary_agent: &str,
    already_taken: bool,
    has_active: bool,
    text: &str,
) -> (r: Result<Routed, ChatError>)
    ensures
        (paused || status@ != "complete"@) ==> (r matches Ok(Routed::Ignored)),
        !paused && status@ == "complete"@ ==> {
            &&& (forall|i: int| 0 <= i < participants@.len() ==> (#[trigger] participants@[i]).id@ != sender_id@)
                <==> (r matches Err(ChatError::NotFound))
            &&& forall|s: int, t: int| first_with_id(participants@, sender_id@, s) && first_agent(participants@, agent, t)
                ==> if addressed_to(addressed@, participants@[t], participants@[s], primary_agent@ == hyphenated(agent)) && !already_taken {
                    if has_active {
                        (r matches Ok(Routed::Steer { participant, objective })
                            && participant == participants@[t].id && objective@ == objective_of(text@))
                    } else {
                        (r matches Ok(Routed::Run { participant, objective })
                            && participant == participants@[t].id && objective@ == objective_of(text@))
                    }
                } else {
                    r matches Ok(Routed::Ignored)
                }
            &&& (exists|s: int| first_with_id(participants@, sender_id@, s))
                && (forall|i: int| 0 <= i < participants@.len() ==> !is_agent_here(#[trigger] participants@[i], agent))
                ==> (r matches Ok(Routed::Ignored))
        },
        r matches Err(e) ==> e matches ChatError::NotFound,
{
    if paused || !str_eq(status, "complete") {
        return Ok(Routed::Ignored);
    }
    let s = match find_participant(participants, sender_id) {
        Some(s) => s,
        None => return Err(ChatError::NotFound),
    };
    let t = match find_agent(participants, agent) {
        Some(t) => t,
        None => return Ok(Routed::Ignored),
    };
    proof {
        assert forall|s2: int| first_with_id(participants@, sender_id@, s2) implies s2 == s by {
            if s2 < s {
                assert(participants@[s2].id@ != sender_id@);
            } else if s2 > s {
                assert(participants@[s as int].id@ != sender_id@);
            }
        }
        assert forall|t2: int| first_agent(participants@, agent, t2) implies t2 == t by {
            if t2 < t {
                assert(!is_agent_here(participants@[t2], agent));
            } else if t2 > t {
                assert(!is_agent_here(participants@[t as int], agent));
            }
        }
    }
    let me = uuid_text(agent);
    let target_id = participants[t].id.as_str();
    let is_addressed = holds(addressed, target_id)
        || (addressed.len() == 0 && participants[s].user_id.is_some() && str_eq(primary_agent, me.as_str()));
    if !is_addressed || already_taken {
        return Ok(Routed::Ignored);
    }
    let objective = if text.unicode_len() == 0 {
        "New message with attachments.".to_owned()
    } else {
        text.to_owned()
    };
    if has_active {
        Ok(Routed::Steer { participant: participants[t].id.clone(), objective })
    } else {
        Ok(Routed::Run { participant: participants[t].id.clone(), objective })
    }
}

} // verus!
