//! Registry calls an agent makes beside a sidecar, relayed through the
//! gateway: which calls are relayed, and which tokens and replicas may relay them.
use vstd::prelude::*;
use crate::deployment::proxy::{has_prefix, strip_prefix};
use crate::error::{Error, Fault};

verus! {

/// Whether a method name is one or more ASCII letters and digits.
pub open spec fn plain_name(m: Seq<char>) -> bool {
    m.len() > 0 && forall|i: int| 0 <= i < m.len() ==> {
        let c = #[trigger] m[i];
        ('0' <= c <= '9') || ('a' <= c <= 'z') || ('A' <= c <= 'Z')
    }
}

/// The registry method a relayed path names.
#[verifier::loop_isolation(false)]
pub fn registry_method(path: &str) -> (r: Result<&str, Error>)
    ensures
        match r {
            Ok(m) => has_prefix(path@, "tilde.runtime.v1.AgentService/"@)
                && m@ == path@.subrange(30, path@.len() as int) && plain_name(m@),
            Err(e) => e@ == Fault::Denied && !(has_prefix(path@, "tilde.runtime.v1.AgentService/"@)
                && plain_name(path@.subrange(30, path@.len() as int))),
        },
{
    proof {
        reveal_strlit("tilde.runtime.v1.AgentService/");
    }
    let m = match strip_prefix(path, "tilde.runtime.v1.AgentService/") {
        Some(m) => m,
        None => return Err(Error::Denied),
    };
    let n = m.unicode_len();
    if n == 0 {
        return Err(Error::Denied);
    }
    let mut i: usize = 0;
    while i < n
        invariant
            n == m@.len(),
            0 <= i <= n,
            forall|k: int| 0 <= k < i ==> {
                let c = #[trigger] m@[k];
                ('0' <= c <= '9') || ('a' <= c <= 'z') || ('A' <= c <= 'Z')
            },
        decreases n - i,
    {
        let c = m.get_char(i);
        if !(('0' <= c && c <= '9') || ('a' <= c && c <= 'z') || ('A' <= c && c <= 'Z')) {
            return Err(Error::Denied);
        }
        i = i + 1;
    }
    Ok(m)
}

/// Why a relay is refused, in the order the gateway checks: a token of
/// another agent, a paused deployment or an older generation; a conversation
/// nobody holds; a holder other than the relaying replica; an invocation the
/// gateway already knows has ended.
pub open spec fn relay_fault(
    subject: u128,
    agent: u128,
    paused: bool,
    generation: i64,
    token_generation: i64,
    holder: Option<u128>,
    instance: u128,
    projected_status: Option<Seq<char>>,
) -> Option<Fault> {
    if subject != agent || paused || generation != token_generation {
        Some(Fault::Invalid("Registry relay: agent generation changed"@))
    } else if holder is None {
        Some(Fault::Invalid("Registry relay: conversation has no holder"@))
    } else if holder != Some(instance) {
        Some(Fault::Invalid("Registry relay: replica does not hold the conversation"@))
    } else if projected_status matches Some(s) && s != "pending"@ && s != "running"@ {
        Some(Fault::Denied)
    } else {
        None
    }
}

/// Checks a relayed registry call against the deployment, the thread's lease
/// and the projected invocation.
pub fn check_relay(
    subject: u128,
    agent: u128,
    paused: bool,
    generation: i64,
    token_generation: i64,
    holder: Option<u128>,
    instance: u128,
    projected_status: Option<&str>,
) -> (r: Result<(), Error>)
    ensures
        match r {
            Ok(_) => relay_fault(subject, agent, paused, generation, token_generation, holder, instance,
                crate::setup::opt_str(projected_status)) is None,
            Err(e) => relay_fault(subject, agent, paused, generation, token_generation, holder, instance,
                crate::setup::opt_str(projected_status)) == Some(e@),
        },
{
    if subject != agent || paused || generation != token_generation {
        return Err(Error::Invalid("Registry relay: agent generation changed".to_owned()));
    }
    match holder {
        None => return Err(Error::Invalid("Registry relay: conversation has no holder".to_owned())),
        Some(h) => if h != instance {
            return Err(Error::Invalid("Registry relay: replica does not hold the conversation".to_owned()));
        },
    }
    match projected_status {
        Some(s) => if !crate::text::str_eq(s, "pending") && !crate::text::str_eq(s, "running") {
            return Err(Error::Denied);
        },
        None => {},
    }
    Ok(())
}

/// The participant a relayed call acts as: the projected invocation's, else
/// the agent's participant in the thread, else the one its token claims.
pub fn relay_participant(projected: Option<u128>, in_thread: Option<u128>, claimed: u128) -> (r: u128)
    ensures
        r == match projected {
            Some(p) => p,
            None => match in_thread {
                Some(p) => p,
                None => claimed,
            },
        },
{
    match projected {
        Some(p) => p,
        None => match in_thread {
            Some(p) => p,
            None => claimed,
        },
    }
}

/// Whether a capability is among some.
pub open spec fn has_capability(set: Seq<String>, c: Seq<char>) -> bool {
    exists|i: int| 0 <= i < set.len() && (#[trigger] set[i])@ == c
}

/// The capabilities a relayed call runs with: those its token claims that
/// the agent still holds, in the token's order.
pub open spec fn shared_capabilities(claimed: Seq<String>, held: Seq<String>) -> Seq<Seq<char>>
    decreases claimed.len(),
{
    if claimed.len() == 0 {
        Seq::empty()
    } else {
        let rest = shared_capabilities(claimed.drop_last(), held);
        if has_capability(held, claimed.last()@) {
            rest.push(claimed.last()@)
        } else {
            rest
        }
    }
}

/// The texts of some strings.
pub open spec fn string_texts(v: Seq<String>) -> Seq<Seq<char>> {
    v.map_values(|s: String| s@)
}

/// The capabilities a relayed call runs with: the intersection of what its
/// token claims and what the agent holds now.
pub fn relay_capabilities(claimed: &Vec<String>, held: &Vec<String>) -> (r: Vec<String>)
    ensures
        string_texts(r@) == shared_capabilities(claimed@, held@),
{
    let mut r: Vec<String> = Vec::new();
    let mut i: usize = 0;
    while i < claimed.len()
        invariant
            0 <= i <= claimed@.len(),
            string_texts(r@) == shared_capabilities(claimed@.subrange(0, i as int), held@),
        decreases claimed@.len() - i,
    {
        let c = claimed[i].as_str();
        let mut found = false;
        let mut j: usize = 0;
        while j < held.len()
            invariant
                0 <= j <= held@.len(),
                found <==> exists|k: int| 0 <= k < j && (#[trigger] held@[k])@ == c@,
            decreases held@.len() - j,
        {
            if crate::text::str_eq(held[j].as_str(), c) {
                found = true;
            }
            j = j + 1;
        }
        proof {
            assert(claimed@.subrange(0, i as int + 1).drop_last() =~= claimed@.subrange(0, i as int));
            assert(claimed@.subrange(0, i as int + 1).last() == claimed@[i as int]);
            assert(found == has_capability(held@, c@));
        }
        let ghost before = r@;
        if found {
            r.push(crate::text::copy(c));
            proof {
                assert(string_texts(r@) =~= string_texts(before).push(c@));
            }
        }
        i = i + 1;
    }
    proof {
        assert(claimed@.subrange(0, claimed@.len() as int) =~= claimed@);
    }
    r
}

/// A relayed call never runs with a capability its token did not claim or
/// that the agent no longer holds.
pub proof fn law_relay_within_both(claimed: Seq<String>, held: Seq<String>)
    ensures
        forall|i: int| 0 <= i < shared_capabilities(claimed, held).len() ==>
            has_capability(held, #[trigger] shared_capabilities(claimed, held)[i])
            && has_capability(claimed, shared_capabilities(claimed, held)[i]),
    decreases claimed.len(),
{
    if claimed.len() > 0 {
        let init = claimed.drop_last();
        law_relay_within_both(init, held);
        let t = shared_capabilities(claimed, held);
        let ti = shared_capabilities(init, held);
        assert forall|i: int| 0 <= i < t.len() implies
            has_capability(held, #[trigger] t[i]) && has_capability(claimed, t[i]) by {
            if i < ti.len() {
                assert(t[i] == ti[i]);
                let k = choose|k: int| 0 <= k < init.len() && (#[trigger] init[k])@ == ti[i];
                assert(claimed[k] == init[k]);
            } else {
                assert(claimed[claimed.len() - 1] == claimed.last());
            }
        }
    }
}

} // verus!
