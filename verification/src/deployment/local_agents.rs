//! Agent processes that dial a sidecar: when each was last heard from,
//! which are still alive, and which one takes the next wake.
use vstd::prelude::*;

verus! {

/// Silence past this, in milliseconds, and an agent process counts as gone.
pub const LOCAL_LIVENESS_MS: i64 = 10000;

/// The agent processes attached to a sidecar and when each was last seen
/// ready (0 once one reports it is not).
#[derive(Debug)]
pub struct LocalAgents {
    pub instances: Vec<(u128, i64)>,
}

/// Whether a process last seen at `last_seen` is alive at `now`.
pub open spec fn alive(last_seen: i64, now: i64) -> bool {
    now - last_seen < LOCAL_LIVENESS_MS
}

/// No process is attached twice.
pub open spec fn distinct(s: Seq<(u128, i64)>) -> bool {
    forall|i: int, j: int| 0 <= i < j < s.len() ==> #[trigger] s[i].0 != #[trigger] s[j].0
}

/// When process `instance` was last seen, where it is attached.
pub open spec fn seen(s: Seq<(u128, i64)>, instance: u128) -> Option<i64> {
    if exists|i: int| 0 <= i < s.len() && s[i].0 == instance {
        Some(s[choose|i: int| 0 <= i < s.len() && s[i].0 == instance].1)
    } else {
        None
    }
}

/// Whether `now - last_seen` is under the liveness window, computed without overflow.
fn is_alive(last_seen: i64, now: i64) -> (r: bool)
    ensures
        r == alive(last_seen, now),
{
    (now as i128) - (last_seen as i128) < (LOCAL_LIVENESS_MS as i128)
}

impl LocalAgents {
    /// No process attached.
    pub fn new() -> (r: LocalAgents)
        ensures
            r.instances@.len() == 0,
    {
        LocalAgents { instances: Vec::new() }
    }

    /// The position of `instance`, where attached.
    fn position(&self, instance: u128) -> (r: Option<usize>)
        ensures
            match r {
                Some(i) => i < self.instances@.len() && self.instances@[i as int].0 == instance,
                None => forall|j: int| 0 <= j < self.instances@.len() ==> self.instances@[j].0 != instance,
            },
    {
        let mut i: usize = 0;
        while i < self.instances.len()
            invariant
                0 <= i <= self.instances@.len(),
                forall|j: int| 0 <= j < i ==> self.instances@[j].0 != instance,
            decreases self.instances@.len() - i,
        {
            if self.instances[i].0 == instance {
                return Some(i);
            }
            i = i + 1;
        }
        None
    }

    /// Attaches process `instance`, seen now; attaching it again replaces it.
    pub fn attach(&mut self, instance: u128, now: i64)
        requires
            distinct(old(self).instances@),
        ensures
            distinct(final(self).instances@),
            seen(final(self).instances@, instance) == Some(now),
            forall|other: u128| other != instance ==> #[trigger] seen(final(self).instances@, other)
                == seen(old(self).instances@, other),
    {
        let ghost o = self.instances@;
        match self.position(instance) {
            Some(i) => {
                self.instances.set(i, (instance, now));
                proof {
                    lemma_seen_at(self.instances@, i as int);
                    assert forall|other: u128| other != instance implies #[trigger] seen(self.instances@, other)
                        == seen(o, other) by {
                        lemma_seen_same(o, self.instances@, other);
                    }
                }
            },
            None => {
                self.instances.push((instance, now));
                proof {
                    lemma_seen_at(self.instances@, o.len() as int);
                    assert forall|other: u128| other != instance implies #[trigger] seen(self.instances@, other)
                        == seen(o, other) by {
                        lemma_seen_same(o, self.instances@, other);
                    }
                }
            },
        }
    }

    /// Detaches process `instance`.
    pub fn detach(&mut self, instance: u128)
        requires
            distinct(old(self).instances@),
        ensures
            distinct(final(self).instances@),
            seen(final(self).instances@, instance) is None,
            forall|other: u128| other != instance ==> #[trigger] seen(final(self).instances@, other)
                == seen(old(self).instances@, other),
    {
        let ghost o = self.instances@;
        match self.position(instance) {
            Some(i) => {
                self.instances.remove(i);
                proof {
                    let n = self.instances@;
                    assert(n =~= o.remove(i as int));
                    assert forall|a: int, b: int| 0 <= a < b < n.len() implies #[trigger] n[a].0 != #[trigger] n[b].0 by {
                        let a0 = if a < i { a } else { a + 1 };
                        let b0 = if b < i { b } else { b + 1 };
                        assert(n[a] == o[a0] && n[b] == o[b0]);
                    }
                    assert forall|j: int| 0 <= j < n.len() implies n[j].0 != instance by {
                        let j0 = if j < i { j } else { j + 1 };
                        assert(n[j] == o[j0]);
                    }
                    assert forall|other: u128| other != instance implies #[trigger] seen(n, other) == seen(o, other) by {
                        if exists|j: int| 0 <= j < o.len() && o[j].0 == other {
                            let j = choose|j: int| 0 <= j < o.len() && o[j].0 == other;
                            lemma_seen_at(o, j);
                            assert(j != i);
                            let jn = if j < i { j } else { j - 1 };
                            assert(n[jn] == o[j]);
                            lemma_seen_at(n, jn);
                        } else {
                            assert forall|j: int| 0 <= j < n.len() implies n[j].0 != other by {
                                let j0 = if j < i { j } else { j + 1 };
                                assert(n[j] == o[j0]);
                            }
                        }
                    }
                }
            },
            None => {},
        }
    }

    /// Records a heartbeat of process `instance`: seen now where it is
    /// ready, and counted gone where it is not. A process not attached is
    /// not recorded (`false`).
    pub fn heartbeat(&mut self, instance: u128, ready: bool, now: i64) -> (r: bool)
        requires
            distinct(old(self).instances@),
        ensures
            distinct(final(self).instances@),
            r == seen(old(self).instances@, instance) is Some,
            r ==> seen(final(self).instances@, instance) == Some(if ready { now } else { 0i64 }),
            !r ==> final(self).instances@ == old(self).instances@,
            forall|other: u128| other != instance ==> #[trigger] seen(final(self).instances@, other)
                == seen(old(self).instances@, other),
    {
        let ghost o = self.instances@;
        match self.position(instance) {
            Some(i) => {
                proof {
                    lemma_seen_at(o, i as int);
                }
                self.instances.set(i, (instance, if ready { now } else { 0 }));
                proof {
                    lemma_seen_at(self.instances@, i as int);
                    assert forall|other: u128| other != instance implies #[trigger] seen(self.instances@, other)
                        == seen(o, other) by {
                        lemma_seen_same(o, self.instances@, other);
                    }
                }
                true
            },
            None => false,
        }
    }

    /// Whether process `instance` is attached and alive at `now`.
    pub fn connected(&self, instance: u128, now: i64) -> (r: bool)
        requires
            distinct(self.instances@),
        ensures
            r == (seen(self.instances@, instance) matches Some(t) && alive(t, now)),
    {
        match self.position(instance) {
            Some(i) => {
                proof {
                    lemma_seen_at(self.instances@, i as int);
                }
                is_alive(self.instances[i].1, now)
            },
            None => false,
        }
    }

    /// Whether any attached process is alive at `now`.
    pub fn any_connected(&self, now: i64) -> (r: bool)
        ensures
            r == exists|i: int| 0 <= i < self.instances@.len() && alive(#[trigger] self.instances@[i].1, now),
    {
        let mut i: usize = 0;
        while i < self.instances.len()
            invariant
                0 <= i <= self.instances@.len(),
                forall|j: int| 0 <= j < i ==> !alive(#[trigger] self.instances@[j].1, now),
            decreases self.instances@.len() - i,
        {
            if is_alive(self.instances[i].1, now) {
                return true;
            }
            i = i + 1;
        }
        false
    }

    /// The process that takes the next wake: an alive one seen most
    /// recently; none where none is alive.
    pub fn pick(&self, now: i64) -> (r: Option<u128>)
        ensures
            match r {
                None => forall|i: int| 0 <= i < self.instances@.len() ==> !alive(#[trigger] self.instances@[i].1, now),
                Some(p) => exists|i: int| 0 <= i < self.instances@.len() && #[trigger] self.instances@[i].0 == p && {
                    let t = self.instances@[i].1;
                    &&& alive(t, now)
                    &&& forall|j: int| 0 <= j < self.instances@.len() && alive(#[trigger] self.instances@[j].1, now)
                        ==> self.instances@[j].1 <= t
                },
            },
    {
        let mut best: Option<usize> = None;
        let mut i: usize = 0;
        while i < self.instances.len()
            invariant
                0 <= i <= self.instances@.len(),
                match best {
                    None => forall|j: int| 0 <= j < i ==> !alive(#[trigger] self.instances@[j].1, now),
                    Some(b) => b < i && alive(self.instances@[b as int].1, now) && forall|j: int| 0 <= j < i
                        && alive(#[trigger] self.instances@[j].1, now) ==> self.instances@[j].1 <= self.instances@[b as int].1,
                },
            decreases self.instances@.len() - i,
        {
            if is_alive(self.instances[i].1, now) {
                match best {
                    None => best = Some(i),
                    Some(b) => if self.instances[i].1 >= self.instances[b].1 {
                        best = Some(i);
                    },
                }
            }
            i = i + 1;
        }
        match best {
            None => None,
            Some(b) => Some(self.instances[b].0),
        }
    }
}

/// The process at position `i` of a list without repeats is seen at its time.
proof fn lemma_seen_at(s: Seq<(u128, i64)>, i: int)
    requires
        0 <= i < s.len(),
        distinct(s),
    ensures
        seen(s, s[i].0) == Some(s[i].1),
{
    let k = choose|k: int| 0 <= k < s.len() && s[k].0 == s[i].0;
    if k != i {
        if k < i {
            assert(s[k].0 != s[i].0);
        } else {
            assert(s[i].0 != s[k].0);
        }
    }
}

/// Changing one place of a list changes nothing for the other processes,
/// where the process at that place stays the same one.
proof fn lemma_seen_same(o: Seq<(u128, i64)>, n: Seq<(u128, i64)>, other: u128)
    requires
        distinct(o),
        o.len() <= n.len() <= o.len() + 1,
        forall|j: int| 0 <= j < o.len() && j < n.len() && (o[j].0 != n[j].0 || o[j].1 != n[j].1)
            ==> o[j].0 != other && n[j].0 != other,
        n.len() == o.len() + 1 ==> n[o.len() as int].0 != other,
        forall|j: int| 0 <= j < o.len() ==> o[j].0 == n[j].0 || o[j].0 != other,
    ensures
        seen(n, other) == seen(o, other),
{
    if exists|j: int| 0 <= j < o.len() && o[j].0 == other {
        let j = choose|j: int| 0 <= j < o.len() && o[j].0 == other;
        lemma_seen_at(o, j);
        assert(n[j] == o[j]);
        let k = choose|k: int| 0 <= k < n.len() && n[k].0 == other;
        if k != j {
            if k < o.len() {
                assert(o[k].0 == n[k].0 || o[k].0 != other);
                if o[k].0 == n[k].0 && o[k].1 == n[k].1 {
                    assert(o[k].0 == other);
                    if k < j {
                        assert(o[k].0 != o[j].0);
                    } else {
                        assert(o[j].0 != o[k].0);
                    }
                }
            }
        }
    } else {
        assert forall|k: int| 0 <= k < n.len() implies n[k].0 != other by {
            if k < o.len() {
                assert(o[k].0 != other);
            }
        }
    }
}

} // verus!
