//! Scheduling inputs under the thread lease: inputs wait as steer commands,
//! and an agent's concurrency policy decides whether they start one at a time,
//! start together, or join the invocation still pending.
use vstd::prelude::*;
use crate::deployment::store::{Command, CommandAction, Steer, ThreadState};
use crate::text::str_eq;

verus! {

/// How an agent takes inputs that arrive while it works.
#[derive(Clone, Copy, PartialEq, Eq, Debug, Structural)]
pub enum ConcurrencyPolicy {
    /// A new input cancels the running invocation.
    Interrupt,
    /// Inputs start one at a time.
    Queue,
    /// Waiting inputs start together, and join an invocation still pending.
    QueueAndBatch,
    /// Any other policy: inputs are left as they are.
    Other,
}

/// Whether a command is an input still waiting for `invocation`.
pub open spec fn waiting_for(c: Command, invocation: Seq<char>) -> bool {
    c.finished_at is None && match c.action {
        CommandAction::Steer(s) => s.invocation_id@ == invocation,
        _ => false,
    }
}

/// The positions of the inputs waiting for `invocation`, in order.
pub open spec fn waiting(s: Seq<Command>, invocation: Seq<char>, r: Seq<usize>) -> bool {
    &&& forall|k: int| 0 <= k < r.len() ==> (r[k] as int) < s.len() && waiting_for(s[r[k] as int], invocation)
    &&& forall|k: int, l: int| 0 <= k < l < r.len() ==> r[k] < r[l]
    &&& forall|i: int| 0 <= i < s.len() && waiting_for(#[trigger] s[i], invocation) ==> exists|k: int|
        0 <= k < r.len() && r[k] == i
}

/// How many waiting inputs start together.
pub open spec fn batch_count(policy: ConcurrencyPolicy, waiting: nat) -> nat {
    if policy == ConcurrencyPolicy::Queue && waiting > 0 { 1 } else { waiting }
}

/// The text of inputs joined line by line.
pub open spec fn joined(texts: Seq<Seq<char>>) -> Seq<char>
    decreases texts.len(),
{
    if texts.len() == 0 {
        Seq::empty()
    } else if texts.len() == 1 {
        texts[0]
    } else {
        joined(texts.drop_last()) + seq!['\n'] + texts.last()
    }
}

/// An objective with each of `texts` appended on a line of its own.
pub open spec fn appended(objective: Seq<char>, texts: Seq<Seq<char>>) -> Seq<char>
    decreases texts.len(),
{
    if texts.len() == 0 {
        objective
    } else {
        appended(objective, texts.drop_last()) + seq!['\n'] + texts.last()
    }
}

/// The text of the input a command carries.
pub open spec fn input_text(c: Command) -> Seq<char> {
    match c.action {
        CommandAction::Steer(s) => s.text@,
        _ => Seq::empty(),
    }
}

/// What starting waiting inputs hands to the new invocation.
#[derive(Debug)]
pub struct Batch {
    /// The objective: the inputs' texts, line by line.
    pub objective: String,
    /// The input the new run is named after.
    pub first_input_id: String,
    /// The history the last input was written against.
    pub history_through_message_id: String,
}

/// The texts of the commands at `positions`.
pub open spec fn texts_at(s: Seq<Command>, positions: Seq<usize>) -> Seq<Seq<char>> {
    positions.map_values(|p: usize| input_text(s[p as int]))
}

impl ThreadState {
    /// The positions of the inputs waiting for `invocation`.
    pub fn queued(&self, invocation: &str) -> (r: Vec<usize>)
        ensures
            waiting(self.commands@, invocation@, r@),
    {
        let mut r: Vec<usize> = Vec::new();
        let mut i: usize = 0;
        while i < self.commands.len()
            invariant
                0 <= i <= self.commands@.len(),
                forall|k: int| 0 <= k < r@.len() ==> (r@[k] as int) < i && waiting_for(self.commands@[r@[k] as int], invocation@),
                forall|k: int, l: int| 0 <= k < l < r@.len() ==> r@[k] < r@[l],
                forall|j: int| 0 <= j < i && waiting_for(#[trigger] self.commands@[j], invocation@) ==> exists|k: int|
                    0 <= k < r@.len() && r@[k] == j,
            decreases self.commands@.len() - i,
        {
            let c = &self.commands[i];
            let hit = c.finished_at.is_none() && match &c.action {
                CommandAction::Steer(s) => str_eq(s.invocation_id.as_str(), invocation),
                _ => false,
            };
            if hit {
                let ghost before = r@;
                r.push(i);
                proof {
                    assert forall|j: int| 0 <= j < i + 1 && waiting_for(#[trigger] self.commands@[j], invocation@) implies exists|k: int|
                        0 <= k < r@.len() && r@[k] == j by {
                        if j == i {
                            assert(r@[before.len() as int] == i);
                        } else {
                            let k = choose|k: int| 0 <= k < before.len() && before[k] == j;
                            assert(r@[k] == j);
                        }
                    }
                }
            }
            i = i + 1;
        }
        r
    }

    /// Marks the commands at `positions` finished at `now`.
    pub fn finish_at(&mut self, positions: &Vec<usize>, now: i64)
        requires
            forall|k: int| 0 <= k < positions@.len() ==> (positions@[k] as int) < old(self).commands@.len(),
        ensures
            final(self).commands@.len() == old(self).commands@.len(),
            forall|i: int| 0 <= i < final(self).commands@.len() ==> {
                let c = #[trigger] final(self).commands@[i];
                let o = old(self).commands@[i];
                &&& c.action == o.action
                &&& c.command_id == o.command_id
                &&& c.finished_at == if marked(positions@, positions@.len() as int, i) { Some(now) } else { o.finished_at }
            },
            final(self).messages@ == old(self).messages@,
    {
        let ghost o = self.commands@;
        let mut k: usize = 0;
        while k < positions.len()
            invariant
                0 <= k <= positions@.len(),
                forall|j: int| 0 <= j < positions@.len() ==> (positions@[j] as int) < o.len(),
                self.commands@.len() == o.len(),
                self.messages@ == old(self).messages@,
                forall|i: int| 0 <= i < o.len() ==> {
                    let c = #[trigger] self.commands@[i];
                    &&& c.action == o[i].action
                    &&& c.command_id == o[i].command_id
                    &&& c.finished_at == if marked(positions@, k as int, i) { Some(now) } else { o[i].finished_at }
                },
            decreases positions@.len() - k,
        {
            let p = positions[k];
            let mut c = self.commands[p].duplicate();
            c.finished_at = Some(now);
            self.commands.set(p, c);
            proof {
                assert forall|i: int| 0 <= i < o.len() implies
                    (marked(positions@, k as int + 1, i) <==> (marked(positions@, k as int, i) || i == p)) by {
                    if marked(positions@, k as int + 1, i) {
                        let w = choose|w: int| 0 <= w < k + 1 && #[trigger] positions@[w] as int == i;
                        if w < k {
                            assert(marked(positions@, k as int, i));
                        }
                    }
                    if i == p {
                        assert(positions@[k as int] as int == i);
                    }
                }
            }
            k = k + 1;
        }
    }
}

/// What starting waiting inputs did: the batch the new invocation takes, the
/// positions of the inputs it took, and those of the inputs that wait for it.
#[derive(Debug)]
pub struct Dispatch {
    pub batch: Batch,
    pub started: Vec<usize>,
    pub moved: Vec<usize>,
}

/// The input a command carries.
pub open spec fn steer_of(c: Command) -> Option<Steer> {
    match c.action {
        CommandAction::Steer(s) => Some(s),
        _ => None,
    }
}

/// The objective of inputs taken together.
fn join_texts(commands: &Vec<Command>, positions: &Vec<usize>, count: usize) -> (r: String)
    requires
        0 < count <= positions@.len(),
        forall|k: int| 0 <= k < positions@.len() ==> (positions@[k] as int) < commands@.len(),
    ensures
        r@ == joined(texts_at(commands@, positions@.subrange(0, count as int))),
{
    let mut r = String::new();
    let mut k: usize = 0;
    while k < count
        invariant
            0 <= k <= count <= positions@.len(),
            forall|j: int| 0 <= j < positions@.len() ==> (positions@[j] as int) < commands@.len(),
            r@ == joined(texts_at(commands@, positions@.subrange(0, k as int))),
        decreases count - k,
    {
        let ghost before = texts_at(commands@, positions@.subrange(0, k as int));
        let ghost after = texts_at(commands@, positions@.subrange(0, k as int + 1));
        proof {
            assert(after.drop_last() =~= before);
        }
        if k > 0 {
            r.append("\n");
            proof {
                reveal_strlit("\n");
            }
        }
        match &commands[positions[k]].action {
            CommandAction::Steer(st) => r.append(st.text.as_str()),
            _ => {},
        }
        proof {
            if k == 0 {
                assert(before.len() == 0);
                assert(after.len() == 1);
                assert(r@ =~= after[0]);
            } else {
                assert(r@ =~= joined(before) + seq!['\n'] + after.last());
            }
        }
        k = k + 1;
    }
    r
}

impl ThreadState {
    /// Starts inputs waiting for the invocation that ended: one under the queue
    /// policy, all of them otherwise; those not started wait for the new
    /// invocation instead. Nothing starts where no input waits.
    pub fn dispatch_queued(
        &mut self,
        previous: &str,
        policy: ConcurrencyPolicy,
        next_invocation: &str,
        now: i64,
    ) -> (r: Option<Dispatch>)
        ensures
            final(self).commands@.len() == old(self).commands@.len(),
            final(self).messages@ == old(self).messages@,
            match r {
                None => forall|i: int| 0 <= i < old(self).commands@.len()
                    ==> !waiting_for(#[trigger] old(self).commands@[i], previous@),
                Some(d) => {
                    &&& waiting(old(self).commands@, previous@, d.started@ + d.moved@)
                    &&& d.started@.len() == batch_count(policy, (d.started@ + d.moved@).len())
                    &&& d.started@.len() > 0
                    &&& d.batch.objective@ == joined(texts_at(old(self).commands@, d.started@))
                    &&& steer_of(old(self).commands@[d.started@[0] as int]) matches Some(first)
                        && d.batch.first_input_id@ == first.input_id@
                    &&& steer_of(old(self).commands@[d.started@.last() as int]) matches Some(last)
                        && d.batch.history_through_message_id@ == last.history_through_message_id@
                    &&& forall|k: int| 0 <= k < d.started@.len()
                        ==> final(self).commands@[#[trigger] d.started@[k] as int].finished_at == Some(now)
                    &&& forall|k: int| 0 <= k < d.moved@.len()
                        ==> waiting_for(final(self).commands@[#[trigger] d.moved@[k] as int], next_invocation@)
                },
            },
    {
        let q = self.queued(previous);
        if q.len() == 0 {
            proof {
                assert forall|i: int| 0 <= i < self.commands@.len() implies !waiting_for(#[trigger] self.commands@[i], previous@) by {
                    if waiting_for(self.commands@[i], previous@) {
                        let k = choose|k: int| 0 <= k < q@.len() && q@[k] == i;
                    }
                }
            }
            return None;
        }
        let count = if policy == ConcurrencyPolicy::Queue { 1 } else { q.len() };
        let ghost o = self.commands@;
        let objective = join_texts(&self.commands, &q, count);
        let first = q[0];
        let last = q[count - 1];
        let first_input_id = match &self.commands[first].action {
            CommandAction::Steer(st) => st.input_id.clone(),
            _ => String::new(),
        };
        let history_through_message_id = match &self.commands[last].action {
            CommandAction::Steer(st) => st.history_through_message_id.clone(),
            _ => String::new(),
        };
        let mut started: Vec<usize> = Vec::new();
        let mut moved: Vec<usize> = Vec::new();
        let mut k: usize = 0;
        while k < q.len()
            invariant
                0 < count <= q@.len(),
                0 <= k <= q@.len(),
                waiting(o, previous@, q@),
                started@ == q@.subrange(0, if k < count { k as int } else { count as int }),
                moved@ == q@.subrange(if k < count { k as int } else { count as int }, k as int),
            decreases q@.len() - k,
        {
            if k < count {
                started.push(q[k]);
            } else {
                moved.push(q[k]);
            }
            proof {
                assert(started@ =~= q@.subrange(0, if k + 1 < count { k + 1 } else { count as int }));
                assert(moved@ =~= q@.subrange(if k + 1 < count { k + 1 } else { count as int }, k + 1));
            }
            k = k + 1;
        }
        proof {
            assert(started@ + moved@ =~= q@);
            assert(started@ =~= q@.subrange(0, count as int));
        }
        proof {
            assert forall|a: int| 0 <= a < moved@.len() implies (#[trigger] moved@[a] as int) < o.len() by {
                assert(q@[started@.len() + a] == moved@[a]);
            }
            assert forall|a: int| 0 <= a < started@.len() implies (#[trigger] started@[a] as int) < o.len() by {
                assert(q@[a] == started@[a]);
            }
            assert forall|a: int, b: int| 0 <= a < started@.len() && 0 <= b < moved@.len()
                implies #[trigger] started@[a] != #[trigger] moved@[b] by {
                assert(q@[a] == started@[a]);
                assert(q@[started@.len() + b] == moved@[b]);
            }
            assert forall|a: int, b: int| 0 <= a < moved@.len() && 0 <= b < moved@.len() && a != b
                implies #[trigger] moved@[a] != #[trigger] moved@[b] by {
                assert(q@[started@.len() + a] == moved@[a]);
                assert(q@[started@.len() + b] == moved@[b]);
            }
        }
        self.finish_at(&started, now);
        let ghost f = self.commands@;
        let mut j: usize = 0;
        while j < moved.len()
            invariant
                0 <= j <= moved@.len(),
                self.commands@.len() == o.len(),
                self.messages@ == old(self).messages@,
                started@ + moved@ == q@,
                waiting(o, previous@, q@),
                forall|a: int| 0 <= a < moved@.len() ==> (#[trigger] moved@[a] as int) < o.len(),
                forall|a: int| 0 <= a < started@.len() ==> (#[trigger] started@[a] as int) < o.len(),
                forall|a: int, b: int| 0 <= a < started@.len() && 0 <= b < moved@.len()
                    ==> #[trigger] started@[a] != #[trigger] moved@[b],
                forall|a: int, b: int| 0 <= a < moved@.len() && 0 <= b < moved@.len() && a != b
                    ==> #[trigger] moved@[a] != #[trigger] moved@[b],
                forall|a: int| 0 <= a < started@.len() ==> self.commands@[#[trigger] started@[a] as int].finished_at == Some(now),
                forall|a: int| 0 <= a < j ==> waiting_for(self.commands@[#[trigger] moved@[a] as int], next_invocation@),
                forall|a: int| j <= a < moved@.len() ==> self.commands@[#[trigger] moved@[a] as int] == f[moved@[a] as int],
                forall|a: int| j <= a < moved@.len() ==> waiting_for(f[#[trigger] moved@[a] as int], previous@),
            decreases moved@.len() - j,
        {
            let p = moved[j];
            let mut c = self.commands[p].duplicate();
            c.action = match c.action {
                CommandAction::Steer(st) => CommandAction::Steer(Steer {
                    invocation_id: next_invocation.to_owned(),
                    input_id: st.input_id,
                    text: st.text,
                    history_through_message_id: st.history_through_message_id,
                }),
                other => other,
            };
            let ghost before_set = self.commands@;
            self.commands.set(p, c);
            proof {
                assert forall|a: int| 0 <= a < started@.len()
                    implies self.commands@[#[trigger] started@[a] as int].finished_at == Some(now) by {
                    assert(started@[a] != moved@[j as int]);
                    assert(before_set[started@[a] as int].finished_at == Some(now));
                }
            }
            j = j + 1;
        }
        Some(Dispatch {
            batch: Batch { objective, first_input_id, history_through_message_id },
            started,
            moved,
        })
    }
}

/// What joining waiting inputs to a pending invocation did.
#[derive(Debug)]
pub struct Merged {
    /// The run's objective with the inputs appended.
    pub objective: String,
    /// The history the last input was written against.
    pub history_through_message_id: String,
    /// The positions of the inputs taken in.
    pub merged: Vec<usize>,
}

/// Whether a command starts `invocation`.
pub open spec fn invokes(c: Command, invocation: Seq<char>) -> bool {
    match c.action {
        CommandAction::Invoke { invocation_id, .. } => invocation_id@ == invocation,
        _ => false,
    }
}

/// An invoke action with its objective replaced.
pub open spec fn with_objective(a: CommandAction, objective: String) -> CommandAction {
    match a {
        CommandAction::Invoke { invocation_id, .. } => CommandAction::Invoke { invocation_id, objective },
        other => other,
    }
}

/// The objective of inputs appended to a run's objective.
fn append_texts(objective: &str, commands: &Vec<Command>, positions: &Vec<usize>) -> (r: String)
    requires
        forall|k: int| 0 <= k < positions@.len() ==> (positions@[k] as int) < commands@.len(),
    ensures
        r@ == appended(objective@, texts_at(commands@, positions@)),
{
    let mut r = objective.to_owned();
    let mut k: usize = 0;
    proof {
        assert(texts_at(commands@, positions@.subrange(0, 0)) =~= Seq::<Seq<char>>::empty());
    }
    while k < positions.len()
        invariant
            0 <= k <= positions@.len(),
            forall|j: int| 0 <= j < positions@.len() ==> (positions@[j] as int) < commands@.len(),
            r@ == appended(objective@, texts_at(commands@, positions@.subrange(0, k as int))),
        decreases positions@.len() - k,
    {
        let ghost before = texts_at(commands@, positions@.subrange(0, k as int));
        let ghost after = texts_at(commands@, positions@.subrange(0, k as int + 1));
        proof {
            assert(after.drop_last() =~= before);
            reveal_strlit("\n");
        }
        r.append("\n");
        match &commands[positions[k]].action {
            CommandAction::Steer(st) => r.append(st.text.as_str()),
            _ => {},
        }
        proof {
            assert(r@ =~= appended(objective@, before) + seq!['\n'] + after.last());
        }
        k = k + 1;
    }
    proof {
        assert(positions@.subrange(0, positions@.len() as int) =~= positions@);
    }
    r
}

impl ThreadState {
    /// Joins the inputs waiting for a pending invocation to its run: their
    /// texts are appended to the objective, each on a line of its own, every
    /// command starting the invocation takes the new objective, and the inputs
    /// are done. Nothing changes where no input waits.
    pub fn merge_pending(&mut self, invocation: &str, objective: &str, now: i64) -> (r: Option<Merged>)
        ensures
            final(self).commands@.len() == old(self).commands@.len(),
            final(self).messages@ == old(self).messages@,
            match r {
                None => final(self).commands@ == old(self).commands@ && forall|i: int| 0 <= i < old(self).commands@.len()
                    ==> !waiting_for(#[trigger] old(self).commands@[i], invocation@),
                Some(m) => {
                    &&& waiting(old(self).commands@, invocation@, m.merged@)
                    &&& m.merged@.len() > 0
                    &&& m.objective@ == appended(objective@, texts_at(old(self).commands@, m.merged@))
                    &&& steer_of(old(self).commands@[m.merged@.last() as int]) matches Some(last)
                        && m.history_through_message_id@ == last.history_through_message_id@
                    &&& forall|k: int| 0 <= k < m.merged@.len()
                        ==> final(self).commands@[#[trigger] m.merged@[k] as int].finished_at == Some(now)
                    &&& forall|i: int| 0 <= i < final(self).commands@.len() && invokes(old(self).commands@[i], invocation@)
                        ==> (#[trigger] final(self).commands@[i]).action == with_objective(old(self).commands@[i].action, m.objective)
                },
            },
    {
        let q = self.queued(invocation);
        if q.len() == 0 {
            proof {
                assert forall|i: int| 0 <= i < self.commands@.len() implies !waiting_for(#[trigger] self.commands@[i], invocation@) by {
                    if waiting_for(self.commands@[i], invocation@) {
                        let k = choose|k: int| 0 <= k < q@.len() && q@[k] == i;
                    }
                }
            }
            return None;
        }
        let ghost o = self.commands@;
        let merged_objective = append_texts(objective, &self.commands, &q);
        let last = q[q.len() - 1];
        let history_through_message_id = match &self.commands[last].action {
            CommandAction::Steer(st) => st.history_through_message_id.clone(),
            _ => String::new(),
        };
        self.finish_at(&q, now);
        let ghost f = self.commands@;
        let mut i: usize = 0;
        while i < self.commands.len()
            invariant
                0 <= i <= self.commands@.len(),
                self.commands@.len() == o.len(),
                self.messages@ == old(self).messages@,
                waiting(o, invocation@, q@),
                forall|j: int| 0 <= j < o.len() ==> (#[trigger] f[j]).action == o[j].action,
                forall|k: int| 0 <= k < q@.len() ==> f[#[trigger] q@[k] as int].finished_at == Some(now),
                forall|j: int| i <= j < o.len() ==> (#[trigger] self.commands@[j]) == f[j],
                forall|j: int| 0 <= j < i ==> (#[trigger] self.commands@[j]).finished_at == f[j].finished_at,
                forall|j: int| 0 <= j < i && invokes(o[j], invocation@) ==> (#[trigger] self.commands@[j]).action == with_objective(o[j].action, merged_objective),
            decreases o.len() - i,
        {
            let hit = match &self.commands[i].action {
                CommandAction::Invoke { invocation_id, .. } => str_eq(invocation_id.as_str(), invocation),
                _ => false,
            };
            if hit {
                let mut c = self.commands[i].duplicate();
                c.action = match c.action {
                    CommandAction::Invoke { invocation_id, objective: _ } => CommandAction::Invoke {
                        invocation_id,
                        objective: merged_objective.clone(),
                    },
                    other => other,
                };
                self.commands.set(i, c);
            }
            i = i + 1;
        }
        proof {
            assert forall|k: int| 0 <= k < q@.len() implies self.commands@[#[trigger] q@[k] as int].finished_at == Some(now) by {
                assert(f[q@[k] as int].finished_at == Some(now));
            }
        }
        Some(Merged { objective: merged_objective, history_through_message_id, merged: q })
    }
}

/// Starting waiting inputs loses none: each input that waited for the ended
/// invocation is either started (done) or waits for the new one.
pub proof fn law_dispatch_keeps_inputs(
    before: Seq<Command>,
    after: Seq<Command>,
    previous: Seq<char>,
    next: Seq<char>,
    started: Seq<usize>,
    moved: Seq<usize>,
    now: i64,
)
    requires
        waiting(before, previous, started + moved),
        forall|k: int| 0 <= k < started.len() ==> after[#[trigger] started[k] as int].finished_at == Some(now),
        forall|k: int| 0 <= k < moved.len() ==> waiting_for(after[#[trigger] moved[k] as int], next),
    ensures
        forall|i: int| 0 <= i < before.len() && waiting_for(#[trigger] before[i], previous)
            ==> after[i].finished_at == Some(now) || waiting_for(after[i], next),
{
    assert forall|i: int| 0 <= i < before.len() && waiting_for(#[trigger] before[i], previous)
        implies after[i].finished_at == Some(now) || waiting_for(after[i], next) by {
        let all = started + moved;
        let k = choose|k: int| 0 <= k < all.len() && all[k] == i;
        if k < started.len() {
            assert(started[k] == all[k]);
        } else {
            assert(moved[k - started.len()] == all[k]);
        }
    }
}

/// Whether `i` is among the first `k` positions.
pub open spec fn marked(positions: Seq<usize>, k: int, i: int) -> bool {
    exists|w: int| 0 <= w < k && #[trigger] positions[w] as int == i
}

} // verus!
