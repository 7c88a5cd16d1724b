//! How a replica takes in the gateway's word on who holds a thread's lease:
//! it takes the lease, or lets go of it and of all work under it.
use vstd::prelude::*;
use crate::deployment::project::ThreadLease;
use crate::deployment::store::{Command, InvocationState, Lease, ThreadState};
use crate::ids::{hyphenated, parse_uuid, parsed_uuid, uuid_text};
use crate::text::str_eq;
use crate::error::{Error, Fault};

verus! {

/// What a lease frame did to a thread.
#[derive(Clone, Copy, PartialEq, Eq, Debug, Structural)]
pub enum LeaseChange {
    /// This replica took the lease.
    Taken,
    /// This replica already held it.
    Kept,
    /// The frame concerns neither this replica nor a lease it held.
    Ignored,
    /// The lease is elsewhere or free: the work this replica had under it ended.
    Released,
}

/// Whether an invocation is still pending or running.
pub open spec fn active(v: InvocationState) -> bool {
    v.status@ == "pending"@ || v.status@ == "running"@
}

/// Whether a frame hands the lease to `me`.
pub open spec fn hands_to(lease: ThreadLease, me: u128) -> bool {
    lease.held && lease.holder_instance_id@ == hyphenated(me)
}

/// The change a frame makes for a thread leased as `current`.
pub open spec fn change_of(lease: ThreadLease, me: u128, current: Option<u128>) -> LeaseChange {
    if hands_to(lease, me) {
        if current != Some(me) { LeaseChange::Taken } else { LeaseChange::Kept }
    } else if current != Some(me) && !lease.held {
        LeaseChange::Ignored
    } else {
        LeaseChange::Released
    }
}

impl ThreadState {
    /// Applies the gateway's word on a thread's lease. Taking the lease starts
    /// a new epoch. Where the lease is elsewhere or free, the replica records
    /// who holds it, its pending and running invocations fail, and its
    /// unfinished commands end as `lease_changed`.
    #[verifier::loop_isolation(false)]
    pub fn apply_lease(&mut self, lease: &ThreadLease, me: u128, next_epoch: u64, now: i64) -> (r: LeaseChange)
        ensures
            r == change_of(*lease, me, old(self).lease.holder),
            final(self).messages@ == old(self).messages@,
            final(self).commands@.len() == old(self).commands@.len(),
            final(self).invocations@.len() == old(self).invocations@.len(),
            r == LeaseChange::Taken ==> final(self).lease.holder == Some(me) && final(self).lease.epoch == next_epoch
                && final(self).lease.holder_url@.len() == 0,
            r != LeaseChange::Taken && r != LeaseChange::Released ==> final(self).lease == old(self).lease
                && final(self).commands@ == old(self).commands@ && final(self).invocations@ == old(self).invocations@,
            r == LeaseChange::Released ==> {
                &&& final(self).lease.holder == (if lease.held { parsed_uuid(lease.holder_instance_id@) } else { None })
                &&& final(self).lease.holder_url@ == lease.holder_public_url@
                &&& forall|i: int| 0 <= i < final(self).invocations@.len() ==> {
                    let v = #[trigger] final(self).invocations@[i];
                    let o = old(self).invocations@[i];
                    &&& v.id == o.id && v.agent_id == o.agent_id
                    &&& if active(o) { v.status@ == "failed"@ && v.ended_at == now } else { v.status == o.status && v.ended_at == o.ended_at }
                }
                &&& forall|i: int| 0 <= i < final(self).commands@.len() ==> {
                    let c = #[trigger] final(self).commands@[i];
                    let o = old(self).commands@[i];
                    &&& c.command_id == o.command_id && c.action == o.action && c.acked_at == o.acked_at
                    &&& if o.finished_at is None { c.finished_at == Some(now) && c.failure@ == "lease_changed"@ } else { c == o }
                }
            },
    {
        let me_text = uuid_text(me);
        let mine = lease.held && str_eq(lease.holder_instance_id.as_str(), me_text.as_str());
        let current_is_me = match self.lease.holder {
            Some(h) => h == me,
            None => false,
        };
        if mine {
            if !current_is_me {
                self.lease = Lease { holder: Some(me), holder_url: String::new(), epoch: next_epoch };
                return LeaseChange::Taken;
            }
            return LeaseChange::Kept;
        }
        if !current_is_me && !lease.held {
            return LeaseChange::Ignored;
        }
        self.lease.holder = if lease.held { parse_uuid(lease.holder_instance_id.as_str()) } else { None };
        self.lease.holder_url = lease.holder_public_url.clone();
        let ghost oi = self.invocations@;
        let ghost l = self.lease;
        let ghost oc0 = self.commands@;
        let mut i: usize = 0;
        while i < self.invocations.len()
            invariant
                self.lease == l,
                self.messages@ == old(self).messages@,
                self.commands@ == oc0,
                0 <= i <= self.invocations@.len(),
                self.invocations@.len() == oi.len(),
                forall|j: int| i <= j < oi.len() ==> #[trigger] self.invocations@[j] == oi[j],
                forall|j: int| 0 <= j < i ==> {
                    let v = #[trigger] self.invocations@[j];
                    let o = oi[j];
                    &&& v.id == o.id && v.agent_id == o.agent_id
                    &&& if active(o) { v.status@ == "failed"@ && v.ended_at == now } else { v.status == o.status && v.ended_at == o.ended_at }
                },
            decreases oi.len() - i,
        {
            let v = &self.invocations[i];
            if str_eq(v.status.as_str(), "pending") || str_eq(v.status.as_str(), "running") {
                let failed = InvocationState {
                    id: v.id.clone(),
                    agent_id: v.agent_id.clone(),
                    run_id: v.run_id.clone(),
                    participant_id: v.participant_id.clone(),
                    generation: v.generation,
                    status: "failed".to_owned(),
                    ended_at: now,
                };
                self.invocations.set(i, failed);
            }
            i = i + 1;
        }
        let ghost oc = self.commands@;
        let ghost fi = self.invocations@;
        let mut k: usize = 0;
        while k < self.commands.len()
            invariant
                self.lease == l,
                self.messages@ == old(self).messages@,
                self.invocations@ == fi,
                0 <= k <= self.commands@.len(),
                self.commands@.len() == oc.len(),
                forall|j: int| k <= j < oc.len() ==> #[trigger] self.commands@[j] == oc[j],
                forall|j: int| 0 <= j < k ==> {
                    let c = #[trigger] self.commands@[j];
                    let o = oc[j];
                    &&& c.command_id == o.command_id && c.action == o.action && c.acked_at == o.acked_at
                    &&& if o.finished_at is None { c.finished_at == Some(now) && c.failure@ == "lease_changed"@ } else { c == o }
                },
            decreases oc.len() - k,
        {
            if self.commands[k].finished_at.is_none() {
                let mut c = self.commands[k].duplicate();
                c.finished_at = Some(now);
                c.failure = "lease_changed".to_owned();
                self.commands.set(k, c);
            }
            k = k + 1;
        }
        LeaseChange::Released
    }
}

/// A replica that lets go of a lease keeps no work under it: no invocation is
/// pending or running and every command has finished.
pub proof fn law_released_leaves_no_work(invocations: Seq<InvocationState>, commands: Seq<Command>, now: i64, old_invocations: Seq<InvocationState>, old_commands: Seq<Command>)
    requires
        invocations.len() == old_invocations.len(),
        commands.len() == old_commands.len(),
        forall|i: int| 0 <= i < invocations.len() ==> {
            let v = #[trigger] invocations[i];
            let o = old_invocations[i];
            if active(o) { v.status@ == "failed"@ } else { v.status == o.status }
        },
        forall|i: int| 0 <= i < commands.len() ==> {
            let c = #[trigger] commands[i];
            let o = old_commands[i];
            if o.finished_at is None { c.finished_at == Some(now) } else { c == o }
        },
    ensures
        forall|i: int| 0 <= i < invocations.len() ==> !active(#[trigger] invocations[i]),
        forall|i: int| 0 <= i < commands.len() ==> (#[trigger] commands[i]).finished_at is Some,
{
    reveal_strlit("failed");
    reveal_strlit("pending");
    reveal_strlit("running");
    assert forall|i: int| 0 <= i < invocations.len() implies !active(#[trigger] invocations[i]) by {
        let o = old_invocations[i];
        if active(o) {
            assert(invocations[i].status@[0] == 'f');
        }
    }
}

/// What the gateway does with a lease whose holder stopped reporting.
#[derive(Clone, Copy, PartialEq, Eq, Debug, Structural)]
pub enum Recovery {
    /// The lease moved or its holder is alive again: leave it.
    Skip,
    /// Nothing was running: drop the lease; the next replica to touch the
    /// thread takes it.
    Free,
    /// The agent's failure policy stops its work: fail it and drop the lease.
    Stop,
    /// No live replica of the holder's deployment yet: the run waits for one.
    Wait,
    /// Hand the thread and its directives to this replica.
    Move(u128),
}

/// The recovery of a thread whose lease `dead` held when it was found dead:
/// `current` is the lease's holder now, `replacement` a live replica of the
/// same deployment, where there is one.
pub open spec fn recovery_of(current: Option<u128>, dead: u128, live: bool, active: bool, failure_mode: Seq<char>, replacement: Option<u128>) -> Recovery {
    if current != Some(dead) || live {
        Recovery::Skip
    } else if !active {
        Recovery::Free
    } else if failure_mode == "stop"@ {
        Recovery::Stop
    } else {
        match replacement {
            None => Recovery::Wait,
            Some(n) => Recovery::Move(n),
        }
    }
}

/// Decides the recovery of a thread from a dead replica.
pub fn recovery(current: Option<u128>, dead: u128, live: bool, active: bool, failure_mode: &str, replacement: Option<u128>) -> (r: Recovery)
    ensures
        r == recovery_of(current, dead, live, active, failure_mode@, replacement),
{
    let held = match current {
        Some(c) => c == dead,
        None => false,
    };
    if !held || live {
        Recovery::Skip
    } else if !active {
        Recovery::Free
    } else if str_eq(failure_mode, "stop") {
        Recovery::Stop
    } else {
        match replacement {
            None => Recovery::Wait,
            Some(n) => Recovery::Move(n),
        }
    }
}

/// Recovery never moves a thread away from a live holder, nor to the dead one
/// unless it is the replacement found.
pub proof fn law_recovery_spares_live_holders(current: Option<u128>, dead: u128, active: bool, failure_mode: Seq<char>, replacement: Option<u128>)
    ensures
        recovery_of(current, dead, true, active, failure_mode, replacement) == Recovery::Skip,
        recovery_of(current, dead, false, active, failure_mode, replacement) matches Recovery::Move(n) ==> replacement == Some(n),
{
}

/// The outcome of a replica's claim on a thread's lease.
#[derive(Clone, Copy, PartialEq, Eq, Debug, Structural)]
pub enum Claim {
    /// The claimant holds the lease.
    Granted,
    /// A live replica holds it and keeps it.
    Held(u128),
    /// The holder is dead: the claimant takes over, and the interrupted work
    /// follows the agent's failure policy.
    TakeOver(u128),
}

/// The outcome of a claim by `instance`: `current` is the holder found when
/// the lease was locked; where there was none, `inserted` says whether the
/// claimant's own lease went in, and `after` is the holder found then; `live`
/// says whether the holder (other than the claimant) still reports.
pub open spec fn claim_of(current: Option<u128>, inserted: bool, after: Option<u128>, instance: u128, live: bool) -> Result<Claim, ()> {
    let holder = if current is None { if inserted { Some(instance) } else { after } } else { current };
    match holder {
        None => Err(()),
        Some(h) => if h == instance {
            Ok(Claim::Granted)
        } else if live {
            Ok(Claim::Held(h))
        } else {
            Ok(Claim::TakeOver(h))
        },
    }
}

/// Decides a claim on a thread's lease; a claim that finds no holder even
/// after losing the race to insert one is a conflict.
pub fn claim(current: Option<u128>, inserted: bool, after: Option<u128>, instance: u128, live: bool) -> (r: Result<Claim, Error>)
    ensures
        match r {
            Ok(c) => claim_of(current, inserted, after, instance, live) == Ok::<Claim, ()>(c),
            Err(e) => claim_of(current, inserted, after, instance, live) is Err && e@ == Fault::Conflict,
        },
{
    let holder = match current {
        Some(h) => Some(h),
        None => if inserted { Some(instance) } else { after },
    };
    match holder {
        None => Err(Error::Conflict),
        Some(h) => if h == instance {
            Ok(Claim::Granted)
        } else if live {
            Ok(Claim::Held(h))
        } else {
            Ok(Claim::TakeOver(h))
        },
    }
}

/// A live holder keeps its lease: no claim by another replica takes it.
pub proof fn law_live_holder_keeps_lease(holder: u128, instance: u128, inserted: bool, after: Option<u128>)
    requires
        holder != instance,
    ensures
        claim_of(Some(holder), inserted, after, instance, true) == Ok::<Claim, ()>(Claim::Held(holder)),
{
}

} // verus!
