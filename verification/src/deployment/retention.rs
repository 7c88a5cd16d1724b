//! Retiring idle conversations from a sidecar's replicated store once the
//! gateway holds them: a two-phase protocol whose decisions are made here and
//! whose reads and writes the service performs.
use vstd::prelude::*;
use crate::ids::{hyphenated, uuid_text};
use crate::text::str_eq;

verus! {

/// Milliseconds in a day.
pub const DAY_MILLIS: i64 = 86_400_000;

/// A conversation the gateway considers retiring.
#[derive(Debug)]
pub struct Candidate {
    /// Where the gateway records the conversation as stored: `corrosion`,
    /// `retiring` or `postgres`.
    pub storage: String,
    pub paused: bool,
    pub retention_days: i64,
    /// The epoch of the retirement the gateway prepared, if any.
    pub retirement_epoch: Option<u128>,
}

/// A retirement as the sidecars replicate it.
#[derive(Debug)]
pub struct Retirement {
    pub thread_id: String,
    pub epoch: String,
    pub phase: String,
}

/// A replica's answer to a prepared retirement.
#[derive(Debug)]
pub struct Ack {
    pub instance_id: String,
    pub ready: i64,
    pub event_count: i64,
}

/// What to do next with a candidate.
#[derive(Clone, Copy, PartialEq, Eq, Debug, Structural)]
pub enum Step {
    /// Record the conversation as held by the gateway alone.
    Commit,
    /// Leave it for a later round.
    Skip,
    /// Withdraw the retirement: the conversation is in use.
    Cancel,
    /// Go on to the retirement itself.
    Proceed,
}

/// How long ago, in milliseconds, the last activity was, saturating at the
/// bounds of the integer.
pub open spec fn age(now: i64, last_activity: i64) -> int {
    clamp(now - last_activity)
}

/// The retention period in milliseconds, saturating at the bounds of the integer.
pub open spec fn period(retention_days: i64) -> int {
    clamp(retention_days * DAY_MILLIS)
}

/// A value clamped to the bounds of `i64`.
pub open spec fn clamp(v: int) -> int {
    if v > i64::MAX { i64::MAX as int } else if v < i64::MIN { i64::MIN as int } else { v }
}

/// `a.saturating_sub(b)`.
fn saturating_sub(a: i64, b: i64) -> (r: i64)
    ensures
        r == clamp(a - b),
{
    let d: i128 = a as i128 - b as i128;
    if d > i64::MAX as i128 {
        i64::MAX
    } else if d < i64::MIN as i128 {
        i64::MIN
    } else {
        d as i64
    }
}

/// `days.saturating_mul(DAY_MILLIS)`.
fn days_to_millis(days: i64) -> (r: i64)
    ensures
        r == clamp(days * DAY_MILLIS),
{
    let p: i128 = days as i128 * 86_400_000i128;
    if p > i64::MAX as i128 {
        i64::MAX
    } else if p < i64::MIN as i128 {
        i64::MIN
    } else {
        p as i64
    }
}

/// Whether a committed retirement is the one the gateway prepared.
pub open spec fn commits_epoch(committed: Seq<String>, epoch: Option<u128>) -> bool {
    match epoch {
        Some(e) => exists|i: int| 0 <= i < committed.len() && (#[trigger] committed[i])@ == hyphenated(e),
        None => false,
    }
}

/// The first decision on a candidate, once the sidecar store has been asked
/// for the conversation's last activity. Where the conversation is gone from
/// it, the retirement is committed if the gateway marked it retiring and the
/// store shows the prepared epoch committed, and skipped otherwise. A
/// conversation active within its retention period is kept unless retention
/// is paused.
pub open spec fn first_step(
    c: Candidate,
    last_activity: Option<i64>,
    committed: Seq<String>,
    now: i64,
) -> Step {
    match last_activity {
        None => if c.storage@ == "retiring"@ && commits_epoch(committed, c.retirement_epoch) {
            Step::Commit
        } else {
            Step::Skip
        },
        Some(a) => if !c.paused && age(now, a) < period(c.retention_days) {
            Step::Cancel
        } else {
            Step::Proceed
        },
    }
}

/// Decides what to do with a candidate from its last activity.
pub fn decide(c: &Candidate, last_activity: Option<i64>, committed: &Vec<String>, now: i64) -> (r: Step)
    ensures
        r == first_step(*c, last_activity, committed@, now),
{
    match last_activity {
        None => {
            if !str_eq(c.storage.as_str(), "retiring") {
                return Step::Skip;
            }
            let e = match c.retirement_epoch {
                Some(e) => e,
                None => return Step::Skip,
            };
            let text = uuid_text(e);
            let mut i: usize = 0;
            while i < committed.len()
                invariant
                    text@ == hyphenated(e),
                    c.retirement_epoch == Some(e),
                    c.storage@ == "retiring"@,
                    last_activity is None,
                    0 <= i <= committed@.len(),
                    forall|j: int| 0 <= j < i ==> (#[trigger] committed@[j])@ != hyphenated(e),
                decreases committed@.len() - i,
            {
                if str_eq(committed[i].as_str(), text.as_str()) {
                    assert(committed@[i as int]@ == hyphenated(e));
                    return Step::Commit;
                }
                i = i + 1;
            }
            Step::Skip
        },
        Some(a) => {
            let age = saturating_sub(now, a);
            let period = days_to_millis(c.retention_days);
            if !c.paused && age < period {
                Step::Cancel
            } else {
                Step::Proceed
            }
        },
    }
}

/// A conversation that was active within its retention period, with retention
/// not paused, is never retired: the decision keeps it.
pub proof fn law_recent_conversations_stay(c: Candidate, a: i64, committed: Seq<String>, now: i64)
    requires
        !c.paused,
        0 <= c.retention_days,
        0 <= now - a < clamp(c.retention_days * DAY_MILLIS),
    ensures
        first_step(c, Some(a), committed, now) == Step::Cancel,
{
}

/// Whether some replica refused the prepared retirement.
pub open spec fn refused(acks: Seq<Ack>) -> bool {
    exists|i: int| 0 <= i < acks.len() && (#[trigger] acks[i]).ready == 0
}

/// Whether some replica refused: the retirement is then withdrawn.
pub fn any_refused(acks: &Vec<Ack>) -> (r: bool)
    ensures
        r == refused(acks@),
{
    let mut i: usize = 0;
    while i < acks.len()
        invariant
            0 <= i <= acks@.len(),
            forall|j: int| 0 <= j < i ==> (#[trigger] acks@[j]).ready != 0,
        decreases acks@.len() - i,
    {
        if acks[i].ready == 0 {
            return true;
        }
        i = i + 1;
    }
    false
}

/// Whether a replica's answer covers what it holds: it answered, and every
/// event it counted is among the identifiers read from it. A replica that did
/// not answer is never taken as proof.
pub open spec fn answered_for(acks: Seq<Ack>, instance: u128, events_read: nat) -> bool {
    exists|i: int| {
        &&& 0 <= i < acks.len()
        &&& (#[trigger] acks[i]).instance_id@ == hyphenated(instance)
        &&& forall|j: int| 0 <= j < i ==> (#[trigger] acks[j]).instance_id@ != hyphenated(instance)
        &&& acks[i].event_count <= events_read
    }
}

/// Whether the answer of replica `instance` covers the `events_read` event
/// identifiers read from it.
pub fn covered(acks: &Vec<Ack>, instance: u128, events_read: usize) -> (r: bool)
    ensures
        r == answered_for(acks@, instance, events_read as nat),
{
    let text = uuid_text(instance);
    let mut i: usize = 0;
    while i < acks.len()
        invariant
            text@ == hyphenated(instance),
            0 <= i <= acks@.len(),
            forall|j: int| 0 <= j < i ==> (#[trigger] acks@[j]).instance_id@ != hyphenated(instance),
        decreases acks@.len() - i,
    {
        if str_eq(acks[i].instance_id.as_str(), text.as_str()) {
            let ok = (acks[i].event_count as i128) <= (events_read as i128);
            proof {
                let ii = i as int;
                assert(acks@[ii].instance_id@ == hyphenated(instance));
                if !ok {
                    assert forall|k: int|
                        0 <= k < acks@.len() && (#[trigger] acks@[k]).instance_id@ == hyphenated(instance)
                        && (forall|j: int| 0 <= j < k ==> (#[trigger] acks@[j]).instance_id@ != hyphenated(instance))
                        implies !(acks@[k].event_count <= events_read) by {
                        if k > ii {
                            assert(acks@[ii].instance_id@ == hyphenated(instance));
                        }
                    }
                }
            }
            return ok;
        }
        i = i + 1;
    }
    false
}

/// The acknowledgement a replica writes for a retirement it is asked to
/// prepare: keyed by thread, epoch and replica, ready when nothing in the
/// conversation is still running.
#[derive(Debug)]
pub struct AckRow {
    pub id: String,
    pub thread_id: String,
    pub epoch: String,
    pub instance_id: String,
    pub ready: i32,
    pub event_count: i64,
    pub max_sequence: i64,
}

/// The acknowledgement of a retirement in its prepare phase; none in another phase.
pub fn acknowledge(r: &Retirement, instance: u128, active: i64, event_count: i64, max_sequence: i64) -> (a: Option<AckRow>)
    ensures
        a is Some <==> r.phase@ == "prepare"@,
        match a {
            Some(row) => {
                &&& row.id@ == r.thread_id@ + ":"@ + r.epoch@ + ":"@ + hyphenated(instance)
                &&& row.thread_id@ == r.thread_id@
                &&& row.epoch@ == r.epoch@
                &&& row.instance_id@ == hyphenated(instance)
                &&& row.ready == (if active == 0 { 1i32 } else { 0i32 })
                &&& row.event_count == event_count
                &&& row.max_sequence == max_sequence
            },
            None => true,
        },
{
    if !str_eq(r.phase.as_str(), "prepare") {
        return None;
    }
    let instance_id = uuid_text(instance);
    let mut id = r.thread_id.clone();
    id.append(":");
    id.append(r.epoch.as_str());
    id.append(":");
    id.append(instance_id.as_str());
    Some(AckRow {
        id,
        thread_id: r.thread_id.clone(),
        epoch: r.epoch.clone(),
        instance_id,
        ready: if active == 0 { 1 } else { 0 },
        event_count,
        max_sequence,
    })
}

/// How many event identifiers are checked against the archive at once.
pub const ARCHIVE_BATCH: usize = 1000;

/// The size of batch `i` of `n` identifiers taken 1000 at a time.
pub open spec fn batch_len(n: nat, i: int) -> int {
    let rest = n - 1000 * i;
    if rest < 1000 { rest } else { 1000 }
}

/// How many batches `n` identifiers make.
pub open spec fn batch_count(n: nat) -> int {
    ((n + 999) / 1000) as int
}

/// Identifiers in batches of 1000, the last one holding what is left.
pub fn archive_batches(ids: &Vec<u128>) -> (r: Vec<Vec<u128>>)
    ensures
        r@.len() == batch_count(ids@.len()),
        forall|i: int| 0 <= i < r@.len() ==> (#[trigger] r@[i])@
            == ids@.subrange(1000 * i, 1000 * i + batch_len(ids@.len(), i)),
{
    let mut r: Vec<Vec<u128>> = Vec::new();
    let mut start: usize = 0;
    while start < ids.len()
        invariant
            0 <= start <= ids@.len(),
            start == 1000 * r@.len() || start == ids@.len(),
            start < ids@.len() ==> start == 1000 * r@.len(),
            r@.len() == (start + 999) / 1000,
            forall|i: int| 0 <= i < r@.len() ==> (#[trigger] r@[i])@
                == ids@.subrange(1000 * i, 1000 * i + batch_len(ids@.len(), i)),
        decreases ids@.len() - start,
    {
        let end = if ids.len() - start < ARCHIVE_BATCH { ids.len() } else { start + ARCHIVE_BATCH };
        let mut batch: Vec<u128> = Vec::new();
        let mut k = start;
        while k < end
            invariant
                start <= k <= end <= ids@.len(),
                batch@ == ids@.subrange(start as int, k as int),
            decreases end - k,
        {
            batch.push(ids[k]);
            proof {
                assert(ids@.subrange(start as int, k as int + 1) =~= ids@.subrange(start as int, k as int).push(ids@[k as int]));
            }
            k = k + 1;
        }
        let ghost n = r@.len() as int;
        r.push(batch);
        proof {
            assert(r@[n]@ == ids@.subrange(1000 * n, 1000 * n + batch_len(ids@.len(), n)));
        }
        start = end;
    }
    proof {
        assert(r@.len() == batch_count(ids@.len()));
    }
    r
}

/// Whether a replica's events are all archived: its identifiers could be
/// read, its acknowledgement covers them, and the archive holds each batch
/// of them whole (`stored` are the archive's counts, batch by batch, as far
/// as they were asked).
pub open spec fn node_archived_spec(acks: Seq<Ack>, instance: u128, ids: Option<Seq<u128>>, stored: Seq<i64>) -> bool {
    match ids {
        None => false,
        Some(ids) => {
            &&& answered_for(acks, instance, ids.len())
            &&& stored.len() == batch_count(ids.len())
            &&& forall|i: int| 0 <= i < stored.len() ==> #[trigger] stored[i] == batch_len(ids.len(), i)
        },
    }
}

/// Whether a replica's events are all archived before its copy is deleted.
#[verifier::loop_isolation(false)]
pub fn node_archived(acks: &Vec<Ack>, instance: u128, ids: Option<&Vec<u128>>, stored: &Vec<i64>) -> (r: bool)
    ensures
        r == node_archived_spec(acks@, instance, match ids { Some(v) => Some(v@), None => None }, stored@),
{
    let ids = match ids {
        Some(v) => v,
        None => return false,
    };
    if !covered(acks, instance, ids.len()) {
        return false;
    }
    let batches = archive_batches(ids);
    if stored.len() != batches.len() {
        return false;
    }
    let mut i: usize = 0;
    while i < stored.len()
        invariant
            stored@.len() == batches@.len() == batch_count(ids@.len()),
            0 <= i <= stored@.len(),
            forall|k: int| 0 <= k < batches@.len() ==> (#[trigger] batches@[k])@
                == ids@.subrange(1000 * k, 1000 * k + batch_len(ids@.len(), k)),
            forall|k: int| 0 <= k < i ==> #[trigger] stored@[k] == batch_len(ids@.len(), k),
        decreases stored@.len() - i,
    {
        let ghost ii = i as int;
        proof {
            assert(0 <= 1000 * ii <= 1000 * ii + batch_len(ids@.len(), ii) <= ids@.len()) by (nonlinear_arith)
                requires 0 <= ii < batch_count(ids@.len());
            assert(batches@[ii]@.len() == batch_len(ids@.len(), ii));
        }
        if stored[i] != batches[i].len() as i64 {
            return false;
        }
        i = i + 1;
    }
    true
}

/// Whether a prepared, archived conversation's replica copy is deleted now:
/// no attachment waits for upload and its storage is still being retired.
pub fn deletes_now(pending_uploads: i64, storage: &str) -> (r: bool)
    ensures
        r == (pending_uploads <= 0 && storage@ == "retiring"@),
{
    pending_uploads <= 0 && str_eq(storage, "retiring")
}

/// How many conversations a pass retired.
pub fn retired_count(deleted: &Vec<bool>) -> (n: usize)
    ensures
        n == deleted@.filter(|d: bool| d).len(),
{
    let mut n: usize = 0;
    let mut i: usize = 0;
    while i < deleted.len()
        invariant
            0 <= i <= deleted@.len(),
            n == deleted@.subrange(0, i as int).filter(|d: bool| d).len(),
            n <= i,
        decreases deleted@.len() - i,
    {
        proof {
            assert(deleted@.subrange(0, i as int + 1) =~= deleted@.subrange(0, i as int).push(deleted@[i as int]));
            deleted@.subrange(0, i as int).lemma_filter_push(deleted@[i as int], |d: bool| d);
        }
        if deleted[i] {
            n = n + 1;
        }
        i = i + 1;
    }
    proof {
        assert(deleted@.subrange(0, deleted@.len() as int) =~= deleted@);
    }
    n
}

} // verus!
