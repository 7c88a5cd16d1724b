//! Starting an invocation on a cold replica: who may fetch a command's
//! invocation, and what the token it runs with claims.
use vstd::prelude::*;
use crate::error::{Error, Fault};
use crate::ids::{hyphenated, uuid_text};

verus! {

/// How long an invocation token lasts, in seconds.
pub const TOKEN_SECONDS: i64 = 900;

/// The issuer of invocation tokens.
pub const ISSUER: &'static str = "tilde:invocation";

/// The audience of invocation tokens.
pub const AUDIENCE: &'static str = "tilde:agent-api";

/// The current executor of the thread a command belongs to.
#[derive(Debug)]
pub struct Assignment {
    pub generation: i64,
    pub owner_instance: u128,
    pub stopped: bool,
}

/// Whether a replica may fetch a command: it owns the thread in the command's
/// generation, the thread is not stopped and the command not finished.
pub open spec fn may_fetch(a: Assignment, generation: i64, instance: u128, finished: bool) -> bool {
    a.generation == generation && a.owner_instance == instance && !a.stopped && !finished
}

/// The invocation a replica may start for a command, or its refusal.
pub fn check_command(
    assignment: &Assignment,
    generation: i64,
    instance: u128,
    finished: bool,
    invocation: Option<u128>,
) -> (r: Result<u128, Error>)
    ensures
        match r {
            Ok(i) => may_fetch(*assignment, generation, instance, finished) && invocation == Some(i),
            Err(e) => e@ == Fault::Denied && !(may_fetch(*assignment, generation, instance, finished)
                && invocation is Some),
        },
{
    if assignment.generation != generation || assignment.owner_instance != instance || assignment.stopped
        || finished
    {
        return Err(Error::Denied);
    }
    match invocation {
        Some(i) => Ok(i),
        None => Err(Error::Denied),
    }
}

/// What an invocation token claims.
#[derive(Debug)]
pub struct RuntimeClaims {
    pub iss: String,
    pub aud: String,
    pub sub: u128,
    pub invocation_id: u128,
    pub run_id: u128,
    pub thread_id: u128,
    pub iat: i64,
    pub exp: i64,
    pub assignment_generation: u64,
    pub agent_generation: i64,
}

/// The claims of the token an invocation runs with: issued now, valid for
/// fifteen minutes, for the agent's API.
pub fn runtime_claims(
    agent: u128,
    invocation: u128,
    run: u128,
    thread: u128,
    now: i64,
    generation: i64,
    agent_generation: i64,
) -> (r: RuntimeClaims)
    requires
        now <= i64::MAX - TOKEN_SECONDS,
    ensures
        r.iss@ == ISSUER@,
        r.aud@ == AUDIENCE@,
        r.sub == agent,
        r.invocation_id == invocation,
        r.run_id == run,
        r.thread_id == thread,
        r.iat == now,
        r.exp == now + TOKEN_SECONDS,
        r.assignment_generation == generation as u64,
        r.agent_generation == agent_generation,
{
    RuntimeClaims {
        iss: ISSUER.to_owned(),
        aud: AUDIENCE.to_owned(),
        sub: agent,
        invocation_id: invocation,
        run_id: run,
        thread_id: thread,
        iat: now,
        exp: now + TOKEN_SECONDS,
        assignment_generation: generation as u64,
        agent_generation,
    }
}

/// What an invocation request echoes of its command and replica.
#[derive(Debug)]
pub struct InvokeHead {
    pub command_id: String,
    pub assignment_generation: u64,
    pub owner_instance_id: String,
    pub agent_generation: i64,
    pub invocation_id: String,
    pub thread_id: String,
    pub agent_id: String,
}

/// Decides an invocation request once the command, its assignment and the
/// agent are read: refused unless the replica may fetch the command, it names
/// an invocation and its action is an invocation; a conflict where the
/// invocation was started already (`started` tells whether it was started
/// now); refused while the agent is paused. Otherwise the request echoes the
/// command, the generations, the replica, the invocation, the thread and the agent.
pub fn invocation_start(
    assignment: &Assignment,
    generation: i64,
    instance: u128,
    finished: bool,
    invocation: Option<u128>,
    invoke: bool,
    started: bool,
    paused: bool,
    agent: u128,
    command: u128,
    thread: u128,
    agent_generation: i64,
) -> (r: Result<InvokeHead, Error>)
    ensures
        !(may_fetch(*assignment, generation, instance, finished) && invocation is Some && invoke)
            ==> (r matches Err(e) && e@ == Fault::Denied),
        may_fetch(*assignment, generation, instance, finished) && invocation is Some && invoke && !started
            ==> (r matches Err(e) && e@ == Fault::Conflict),
        may_fetch(*assignment, generation, instance, finished) && invocation is Some && invoke && started && paused
            ==> (r matches Err(e) && e@ == Fault::Denied),
        r matches Ok(h) ==> {
            &&& may_fetch(*assignment, generation, instance, finished) && invoke && started && !paused
            &&& h.command_id@ == hyphenated(command)
            &&& h.assignment_generation == generation as u64
            &&& h.owner_instance_id@ == hyphenated(instance)
            &&& h.agent_generation == agent_generation
            &&& invocation matches Some(i) && h.invocation_id@ == hyphenated(i)
            &&& h.thread_id@ == hyphenated(thread)
            &&& h.agent_id@ == hyphenated(agent)
        },
        may_fetch(*assignment, generation, instance, finished) && invocation is Some && invoke && started && !paused
            ==> r is Ok,
{
    let i = match check_command(assignment, generation, instance, finished, invocation) {
        Ok(i) => i,
        Err(e) => return Err(e),
    };
    if !invoke {
        return Err(Error::Denied);
    }
    if !started {
        return Err(Error::Conflict);
    }
    if paused {
        return Err(Error::Denied);
    }
    Ok(InvokeHead {
        command_id: uuid_text(command),
        assignment_generation: generation as u64,
        owner_instance_id: uuid_text(instance),
        agent_generation,
        invocation_id: uuid_text(i),
        thread_id: uuid_text(thread),
        agent_id: uuid_text(agent),
    })
}

} // verus!
