//! Which deployment serves an agent, and how the gateway serves calls for a
//! sidecar agent: reads from the projection, writes on a replica.
use vstd::prelude::*;
use crate::deployment::ingest::AccessMode;
use crate::deployment::wire::target_for_mode;
use crate::error::{Error, Fault};
use crate::text::str_eq;

verus! {

/// The calls the projection answers for every replica: agent-wide reads.
pub open spec fn read_method(method: Seq<char>) -> bool {
    method == "GetThread"@ || method == "ListThreads"@ || method == "ListMessages"@
        || method == "ListActivity"@ || method == "GetRun"@
}

/// Whether the projection answers a call.
pub fn is_read(method: &str) -> (r: bool)
    ensures
        r == read_method(method@),
{
    str_eq(method, "GetThread") || str_eq(method, "ListThreads") || str_eq(method, "ListMessages")
        || str_eq(method, "ListActivity") || str_eq(method, "GetRun")
}

/// A read about a conversation is for a credential scoped to it or to none,
/// and for a conversation of the agent; a read about none is for a
/// credential scoped to none.
pub fn check_read_scope(thread: Option<u128>, token_thread: Option<u128>, agent_has_thread: bool) -> (r: Result<(), Error>)
    ensures
        r is Ok <==> match thread {
            Some(t) => !(token_thread matches Some(s) && s != t) && agent_has_thread,
            None => token_thread is None,
        },
        r matches Err(e) ==> e@ == Fault::Denied,
{
    match thread {
        Some(t) => {
            let other = match token_thread {
                Some(s) => s != t,
                None => false,
            };
            if other || !agent_has_thread {
                Err(Error::Denied)
            } else {
                Ok(())
            }
        },
        None => if token_thread.is_some() {
            Err(Error::Denied)
        } else {
            Ok(())
        },
    }
}

/// A write goes to a replica; none available is refused.
pub fn require_replica(instance: Option<u128>) -> (r: Result<u128, Error>)
    ensures
        match instance {
            Some(i) => r matches Ok(j) && j == i,
            None => r matches Err(e) && e@ == Fault::Invalid("No sidecar replica is available for this agent"@),
        },
{
    match instance {
        Some(i) => Ok(i),
        None => Err(Error::Invalid("No sidecar replica is available for this agent".to_owned())),
    }
}

/// A deployment serves an agent only where its target is the one the
/// agent's execution mode runs on.
pub fn check_promotion(mode: &str, target: &str) -> (r: Result<(), Error>)
    ensures
        r is Ok <==> target@ == (if mode@ == "sidecar"@ { "sidecar"@ } else { "direct"@ }),
        r matches Err(e) ==> e@ == Fault::Invalid("The deployment's target does not match the agent's execution mode"@),
{
    if str_eq(target_for_mode(mode), target) {
        Ok(())
    } else {
        Err(Error::Invalid("The deployment's target does not match the agent's execution mode".to_owned()))
    }
}

/// What retiring `deployment` does to serving: where it serves the agent,
/// the newest other deployment for the agent's target (`next`) takes over,
/// and without one retiring is refused; otherwise serving stays.
pub fn retire_successor(serving: Option<u128>, deployment: u128, next: Option<u128>) -> (r: Result<Option<u128>, Error>)
    ensures
        serving != Some(deployment) ==> (r matches Ok(None)),
        serving == Some(deployment) ==> match next {
            Some(n) => r matches Ok(Some(m)) && m == n,
            None => r matches Err(e) && e@ == Fault::Invalid("Register another deployment before retiring the serving one"@),
        },
{
    match serving {
        Some(s) if s == deployment => match next {
            Some(n) => Ok(Some(n)),
            None => Err(Error::Invalid("Register another deployment before retiring the serving one".to_owned())),
        },
        _ => Ok(None),
    }
}

/// The access mode an assignment records: `public`, `disabled`, and
/// private otherwise.
pub fn access_mode_of(text: &str) -> (r: AccessMode)
    ensures
        r == (if text@ == "public"@ {
            AccessMode::Public
        } else if text@ == "disabled"@ {
            AccessMode::Disabled
        } else {
            AccessMode::Private
        }),
{
    if str_eq(text, "public") {
        AccessMode::Public
    } else if str_eq(text, "disabled") {
        AccessMode::Disabled
    } else {
        AccessMode::Private
    }
}

} // verus!
