//! Goals, tasks and tool reports that an agent keeps in a conversation this
//! replica holds: what may be created, what a status may change to, and the
//! order a task's dependencies are kept in.
use vstd::prelude::*;
use crate::deployment::inbox::holds;
use crate::deployment::runs::emitted;
use crate::deployment::store::{QueuedEvent, ThreadState};
use crate::ids::{parse_uuid, parsed_uuid};
use crate::text::{blen, byte_len};
use crate::json::{bytes_less, key_less, str_less};
use crate::deployment::wire::ChatError;
use crate::text::str_eq;
use vstd::utf8::*;

verus! {

broadcast use {encode_utf8_decode_utf8, vstd::seq_lib::group_to_multiset_ensures};

/// A goal the agent pursues in the conversation.
#[derive(Debug)]
pub struct Goal {
    pub key: u128,
    pub id: String,
    pub objective: String,
    pub status: String,
}

/// A task toward a goal, with the tasks it waits for.
#[derive(Debug)]
pub struct Task {
    pub key: u128,
    pub id: String,
    pub title: String,
    pub status: String,
    pub goal_id: Option<String>,
    /// In `String` order, each once.
    pub dependency_ids: Vec<String>,
    pub blocked_reason: String,
}

/// A tool call the agent reports.
#[derive(Debug)]
pub struct ToolCall {
    pub key: u128,
    pub id: String,
    pub name: String,
    pub provider_id: String,
    pub status: String,
    /// The rest of the report, as it was written.
    pub detail: String,
}

/// The goals, tasks and tool reports of a conversation.
#[derive(Debug)]
pub struct Work {
    pub goals: Vec<Goal>,
    pub tasks: Vec<Task>,
    pub tool_calls: Vec<ToolCall>,
}

/// The texts of strings.
pub open spec fn views(v: Seq<String>) -> Seq<Seq<char>> {
    v.map_values(|s: String| s@)
}

/// Texts in the order of `String`'s `Ord`: no text sorts before an earlier one.
pub open spec fn sorted_texts(s: Seq<Seq<char>>) -> bool {
    forall|i: int, j: int| 0 <= i < j < s.len() ==> !key_less(#[trigger] s[j], #[trigger] s[i])
}

proof fn lemma_bytes_less_irreflexive(a: Seq<u8>)
    ensures
        !bytes_less(a, a),
    decreases a.len(),
{
    if a.len() > 0 {
        lemma_bytes_less_irreflexive(a.drop_first());
    }
}

proof fn lemma_bytes_less_transitive(a: Seq<u8>, b: Seq<u8>, c: Seq<u8>)
    requires
        bytes_less(a, b),
        bytes_less(b, c),
    ensures
        bytes_less(a, c),
    decreases a.len(),
{
    if a.len() > 0 && b.len() > 0 && c.len() > 0 && a[0] == b[0] && b[0] == c[0] {
        lemma_bytes_less_transitive(a.drop_first(), b.drop_first(), c.drop_first());
    }
}

proof fn lemma_bytes_less_total(a: Seq<u8>, b: Seq<u8>)
    requires
        a != b,
    ensures
        bytes_less(a, b) || bytes_less(b, a),
    decreases a.len(),
{
    if a.len() > 0 && b.len() > 0 && a[0] == b[0] {
        if a.drop_first() =~= b.drop_first() {
            assert(a =~= b) by {
                assert forall|k: int| 0 <= k < a.len() implies a[k] == b[k] by {
                    if k > 0 {
                        assert(a[k] == a.drop_first()[k - 1]);
                        assert(b[k] == b.drop_first()[k - 1]);
                    }
                }
            }
        } else {
            lemma_bytes_less_total(a.drop_first(), b.drop_first());
        }
    } else if a.len() == 0 && b.len() == 0 {
        assert(a =~= b);
    }
}

/// The order of texts is a strict total order.
pub(crate) proof fn lemma_key_order(a: Seq<char>, b: Seq<char>, c: Seq<char>)
    ensures
        !key_less(a, a),
        key_less(a, b) && key_less(b, c) ==> key_less(a, c),
        a != b ==> key_less(a, b) || key_less(b, a),
{
    lemma_bytes_less_irreflexive(encode_utf8(a));
    if key_less(a, b) && key_less(b, c) {
        lemma_bytes_less_transitive(encode_utf8(a), encode_utf8(b), encode_utf8(c));
    }
    if a != b {
        assert(decode_utf8(encode_utf8(a)) == a);
        assert(decode_utf8(encode_utf8(b)) == b);
        lemma_bytes_less_total(encode_utf8(a), encode_utf8(b));
    }
}

/// The texts at `k` and after it differ.
pub open spec fn differs_next(s: Seq<Seq<char>>, k: int) -> bool {
    s[k] != s[k + 1]
}

/// Sorted texts hold a text twice only where two neighbours are the same.
proof fn lemma_sorted_duplicates(s: Seq<Seq<char>>)
    requires
        sorted_texts(s),
    ensures
        s.no_duplicates() <==> forall|k: int| 0 <= k < s.len() - 1 ==> #[trigger] differs_next(s, k),
{
    if !s.no_duplicates() {
        let (i, j) = choose|i: int, j: int| 0 <= i < s.len() && 0 <= j < s.len() && i != j && s[i] == s[j];
        let (a, b) = if i < j { (i, j) } else { (j, i) };
        assert(s[a] == s[b]);
        lemma_key_order(s[a + 1], s[a], s[a]);
        if a + 1 < b {
            assert(!key_less(s[a + 1], s[a]));
            assert(!key_less(s[b], s[a + 1]));
        }
        assert(s[a] == s[a + 1]);
        assert(!differs_next(s, a));
    }
}

/// The texts of `v` in `String` order.
fn sort_texts(v: &Vec<String>) -> (r: Vec<String>)
    ensures
        r@.len() == v@.len(),
        views(r@).to_multiset() == views(v@).to_multiset(),
        sorted_texts(views(r@)),
{
    let mut r: Vec<String> = Vec::new();
    let mut i: usize = 0;
    while i < v.len()
        invariant
            0 <= i <= v@.len(),
            r@.len() == i,
            views(r@).to_multiset() == views(v@.subrange(0, i as int)).to_multiset(),
            sorted_texts(views(r@)),
        decreases v@.len() - i,
    {
        let x = v[i].clone();
        let mut p: usize = 0;
        while p < r.len() && !str_less(x.as_str(), r[p].as_str())
            invariant
                0 <= p <= r@.len(),
                forall|q: int| 0 <= q < p ==> !key_less(x@, #[trigger] r@[q]@),
            decreases r@.len() - p,
        {
            p = p + 1;
        }
        let ghost s = views(r@);
        proof {
            assert(v@.subrange(0, i as int + 1) =~= v@.subrange(0, i as int).push(v@[i as int]));
            assert(views(v@.subrange(0, i as int + 1)) =~= views(v@.subrange(0, i as int)).push(x@));
            vstd::seq_lib::to_multiset_build(views(v@.subrange(0, i as int)), x@);
        }
        r.insert(p, x);
        proof {
            let n = views(r@);
            assert(n =~= s.insert(p as int, x@));
            vstd::seq_lib::to_multiset_insert(s, p as int, x@);
            assert forall|a: int, b: int| 0 <= a < b < n.len() implies !key_less(#[trigger] n[b], #[trigger] n[a]) by {
                if a < p && b < p {
                    assert(n[a] == s[a] && n[b] == s[b]);
                } else if a < p && b == p {
                    assert(n[a] == s[a]);
                } else if a < p && b > p {
                    assert(n[a] == s[a] && n[b] == s[b - 1]);
                    if a < b - 1 {
                        assert(!key_less(s[b - 1], s[a]));
                    } else {
                        lemma_key_order(s[a], s[a], s[a]);
                    }
                } else if a == p {
                    assert(n[b] == s[b - 1]);
                    assert(p < s.len());
                    assert(key_less(x@, s[p as int]));
                    lemma_key_order(s[b - 1], x@, s[p as int]);
                    lemma_key_order(s[p as int], x@, s[p as int]);
                    if b - 1 > p {
                        assert(!key_less(s[b - 1], s[p as int]));
                    }
                } else {
                    assert(n[a] == s[a - 1] && n[b] == s[b - 1]);
                }
            }
        }
        i = i + 1;
    }
    proof {
        assert(v@.subrange(0, v@.len() as int) =~= v@);
    }
    r
}

/// Whether two neighbours among sorted texts are the same.
fn has_neighbour_twice(v: &Vec<String>) -> (r: bool)
    ensures
        r == !(forall|k: int| 0 <= k < views(v@).len() - 1 ==> #[trigger] differs_next(views(v@), k)),
{
    let mut k: usize = 0;
    while k < v.len() && k + 1 < v.len()
        invariant
            k + 1 <= v@.len() || k == 0,
            forall|q: int| 0 <= q < k ==> #[trigger] differs_next(views(v@), q),
        decreases v@.len() - k,
    {
        if str_eq(v[k].as_str(), v[k + 1].as_str()) {
            proof {
                assert(!differs_next(views(v@), k as int));
            }
            return true;
        }
        k = k + 1;
    }
    false
}

proof fn lemma_no_duplicates_carry(a: Seq<Seq<char>>, b: Seq<Seq<char>>)
    requires
        a.to_multiset() == b.to_multiset(),
        a.no_duplicates(),
    ensures
        b.no_duplicates(),
{
    a.lemma_multiset_has_no_duplicates();
    b.lemma_multiset_has_no_duplicates_conv();
}

/// The most dependencies a task may have.
pub const DEPENDENCY_LIMIT: usize = 100;

/// A task's dependencies as they are kept: in `String` order. Refused where
/// there are more than a hundred, one is named twice, or the task itself is
/// named among them.
pub fn sorted_dependencies(id: &str, deps: &Vec<String>) -> (r: Result<Vec<String>, ChatError>)
    ensures
        r is Ok <==> deps@.len() <= DEPENDENCY_LIMIT && views(deps@).no_duplicates() && !views(deps@).contains(id@),
        r matches Err(e) ==> (e matches ChatError::Invalid(m) && m@ == "Invalid task dependencies"@),
        r matches Ok(s) ==> sorted_texts(views(s@)) && views(s@).to_multiset() == views(deps@).to_multiset(),
{
    let sorted = sort_texts(deps);
    let twice = has_neighbour_twice(&sorted);
    let named = holds(&sorted, id);
    proof {
        lemma_sorted_duplicates(views(sorted@));
        if views(sorted@).no_duplicates() {
            lemma_no_duplicates_carry(views(sorted@), views(deps@));
        }
        if views(deps@).no_duplicates() {
            lemma_no_duplicates_carry(views(deps@), views(sorted@));
        }
        assert(views(sorted@).contains(id@) == views(deps@).contains(id@)) by {
            if views(sorted@).contains(id@) {
                assert(views(sorted@).to_multiset().count(id@) > 0);
            }
            if views(deps@).contains(id@) {
                assert(views(deps@).to_multiset().count(id@) > 0);
            }
        }
        if named {
            let i = choose|i: int| 0 <= i < sorted@.len() && (#[trigger] sorted@[i])@ == id@;
            assert(views(sorted@)[i] == id@);
        }
        if views(sorted@).contains(id@) {
            let i = choose|i: int| 0 <= i < views(sorted@).len() && views(sorted@)[i] == id@;
            assert(sorted@[i]@ == id@);
        }
    }
    if sorted.len() > DEPENDENCY_LIMIT || twice || named {
        Err(ChatError::Invalid("Invalid task dependencies".to_owned()))
    } else {
        Ok(sorted)
    }
}

/// Sorted texts with the same texts as another list, each as often.
pub open spec fn same_dependencies(kept: Seq<String>, given: Seq<String>) -> bool {
    sorted_texts(views(kept)) && views(kept).to_multiset() == views(given).to_multiset()
}

/// Two sorted lists of the same texts, each as often, are the same list.
proof fn lemma_sorted_unique(s: Seq<Seq<char>>, t: Seq<Seq<char>>)
    requires
        sorted_texts(s),
        sorted_texts(t),
        s.to_multiset() == t.to_multiset(),
    ensures
        s == t,
    decreases s.len(),
{
    broadcast use vstd::multiset::group_multiset_axioms;

    vstd::seq_lib::to_multiset_len(s);
    vstd::seq_lib::to_multiset_len(t);
    if s.len() == 0 {
        assert(s =~= t);
    } else {
        assert(t.len() > 0);
        assert(s.to_multiset().count(s[0]) > 0);
        assert(t.to_multiset().count(t[0]) > 0);
        vstd::seq_lib::to_multiset_contains(t, s[0]);
        vstd::seq_lib::to_multiset_contains(s, t[0]);
        let j = choose|j: int| 0 <= j < t.len() && t[j] == s[0];
        let k = choose|k: int| 0 <= k < s.len() && s[k] == t[0];
        lemma_key_order(s[0], t[0], s[0]);
        lemma_key_order(t[0], s[0], t[0]);
        if s[0] != t[0] {
            if key_less(s[0], t[0]) {
                if j > 0 {
                    assert(!key_less(t[j], t[0]));
                }
            } else {
                if k > 0 {
                    assert(!key_less(s[k], s[0]));
                }
            }
        }
        assert(s[0] == t[0]);
        vstd::seq_lib::to_multiset_remove(s, 0);
        vstd::seq_lib::to_multiset_remove(t, 0);
        assert(s.remove(0) =~= s.drop_first());
        assert(t.remove(0) =~= t.drop_first());
        assert(sorted_texts(s.drop_first())) by {
            assert forall|a: int, b: int| 0 <= a < b < s.drop_first().len() implies
                !key_less(#[trigger] s.drop_first()[b], #[trigger] s.drop_first()[a]) by {
                assert(s.drop_first()[a] == s[a + 1] && s.drop_first()[b] == s[b + 1]);
            }
        }
        assert(sorted_texts(t.drop_first())) by {
            assert forall|a: int, b: int| 0 <= a < b < t.drop_first().len() implies
                !key_less(#[trigger] t.drop_first()[b], #[trigger] t.drop_first()[a]) by {
                assert(t.drop_first()[a] == t[a + 1] && t.drop_first()[b] == t[b + 1]);
            }
        }
        lemma_sorted_unique(s.drop_first(), t.drop_first());
        assert(s =~= t) by {
            assert forall|a: int| 0 <= a < s.len() implies s[a] == t[a] by {
                if a > 0 {
                    assert(s[a] == s.drop_first()[a - 1]);
                    assert(t[a] == t.drop_first()[a - 1]);
                }
            }
        }
    }
}

/// Whether a dependency names a known task.
pub open spec fn known_dependency(ts: Seq<Task>, dep: Seq<char>) -> bool {
    parsed_uuid(dep) is Some && exists|i: int| 0 <= i < ts.len() && (#[trigger] ts[i]).key == parsed_uuid(dep).unwrap()
}

/// Whether a goal is known under `key`.
pub open spec fn known_goal(gs: Seq<Goal>, key: u128) -> bool {
    exists|i: int| 0 <= i < gs.len() && (#[trigger] gs[i]).key == key
}

/// The position of the first goal under `key`.
pub open spec fn goal_index(gs: Seq<Goal>, key: u128, i: int) -> bool {
    0 <= i < gs.len() && gs[i].key == key && forall|j: int| 0 <= j < i ==> (#[trigger] gs[j]).key != key
}

/// The position of the first task under `key`.
pub open spec fn task_index(ts: Seq<Task>, key: u128, i: int) -> bool {
    0 <= i < ts.len() && ts[i].key == key && forall|j: int| 0 <= j < i ==> (#[trigger] ts[j]).key != key
}

/// The position of the first tool report under `key`.
pub open spec fn tool_index(cs: Seq<ToolCall>, key: u128, i: int) -> bool {
    0 <= i < cs.len() && cs[i].key == key && forall|j: int| 0 <= j < i ==> (#[trigger] cs[j]).key != key
}

/// The statuses a goal may have.
pub open spec fn goal_status(s: Seq<char>) -> bool {
    s == "active"@ || s == "completed"@ || s == "failed"@ || s == "canceled"@
}

/// The statuses a task may have.
pub open spec fn task_status(s: Seq<char>) -> bool {
    s == "pending"@ || s == "working"@ || s == "blocked"@ || s == "completed"@ || s == "failed"@ || s == "canceled"@
}

/// The statuses a task keeps once it has them.
pub open spec fn task_settled(s: Seq<char>) -> bool {
    s == "completed"@ || s == "failed"@ || s == "canceled"@
}

/// The statuses a tool report may have.
pub open spec fn tool_status(s: Seq<char>) -> bool {
    s == "running"@ || s == "completed"@ || s == "failed"@ || s == "aborted"@
}

/// Whether a task with identifier `dep` has completed.
pub open spec fn completed_dependency(ts: Seq<Task>, dep: Seq<char>) -> bool {
    exists|i: int| 0 <= i < ts.len() && (#[trigger] ts[i]).id@ == dep && ts[i].status@ == "completed"@
}

/// Whether every task `t` waits for has completed.
pub open spec fn dependencies_done(ts: Seq<Task>, t: Task) -> bool {
    forall|k: int| 0 <= k < t.dependency_ids@.len() ==> completed_dependency(ts, (#[trigger] t.dependency_ids@[k])@)
}

/// The most bytes a task's blocked reason may hold.
pub const BLOCKED_REASON_BYTES: usize = 16384;

/// A copy of texts.
fn copy_texts(v: &Vec<String>) -> (r: Vec<String>)
    ensures
        r@ == v@,
{
    let mut r: Vec<String> = Vec::new();
    let mut i: usize = 0;
    while i < v.len()
        invariant
            0 <= i <= v@.len(),
            r@ == v@.subrange(0, i as int),
        decreases v@.len() - i,
    {
        r.push(v[i].clone());
        proof {
            assert(r@ =~= v@.subrange(0, i as int + 1));
        }
        i = i + 1;
    }
    proof {
        assert(v@.subrange(0, v@.len() as int) =~= v@);
    }
    r
}

/// Whether two lists hold the same texts in the same order.
fn same_texts(a: &Vec<String>, b: &Vec<String>) -> (r: bool)
    ensures
        r == (views(a@) == views(b@)),
{
    if a.len() != b.len() {
        proof {
            assert(views(a@).len() != views(b@).len());
        }
        return false;
    }
    let mut i: usize = 0;
    while i < a.len()
        invariant
            a@.len() == b@.len(),
            0 <= i <= a@.len(),
            forall|k: int| 0 <= k < i ==> (#[trigger] a@[k])@ == b@[k]@,
        decreases a@.len() - i,
    {
        if !str_eq(a[i].as_str(), b[i].as_str()) {
            proof {
                assert(views(a@)[i as int] != views(b@)[i as int]);
            }
            return false;
        }
        i = i + 1;
    }
    proof {
        assert(views(a@) =~= views(b@));
    }
    true
}

/// Whether two optional texts are the same.
fn same_option(a: &Option<String>, b: Option<&str>) -> (r: bool)
    ensures
        r == match (a, b) {
            (Some(x), Some(y)) => x@ == y@,
            (None, None) => true,
            _ => false,
        },
{
    match (a, b) {
        (Some(x), Some(y)) => str_eq(x.as_str(), y),
        (None, None) => true,
        _ => false,
    }
}

impl Goal {
    /// A field-by-field copy.
    pub fn duplicate(&self) -> (r: Goal)
        ensures
            r == *self,
    {
        Goal { key: self.key, id: self.id.clone(), objective: self.objective.clone(), status: self.status.clone() }
    }
}

/// Two tasks with the same fields.
pub open spec fn same_task(a: Task, b: Task) -> bool {
    &&& a.key == b.key && a.id == b.id && a.title == b.title && a.status == b.status
    &&& a.goal_id == b.goal_id && a.dependency_ids@ == b.dependency_ids@ && a.blocked_reason == b.blocked_reason
}

impl Task {
    /// A field-by-field copy.
    pub fn duplicate(&self) -> (r: Task)
        ensures
            same_task(r, *self),
    {
        Task {
            key: self.key,
            id: self.id.clone(),
            title: self.title.clone(),
            status: self.status.clone(),
            goal_id: match &self.goal_id { Some(g) => Some(g.clone()), None => None },
            dependency_ids: copy_texts(&self.dependency_ids),
            blocked_reason: self.blocked_reason.clone(),
        }
    }
}

/// The first goal under `key`.
fn find_goal(gs: &Vec<Goal>, key: u128) -> (r: Option<usize>)
    ensures
        match r {
            Some(i) => goal_index(gs@, key, i as int),
            None => forall|j: int| 0 <= j < gs@.len() ==> (#[trigger] gs@[j]).key != key,
        },
{
    let mut i: usize = 0;
    while i < gs.len()
        invariant
            0 <= i <= gs@.len(),
            forall|j: int| 0 <= j < i ==> (#[trigger] gs@[j]).key != key,
        decreases gs@.len() - i,
    {
        if gs[i].key == key {
            return Some(i);
        }
        i = i + 1;
    }
    None
}

/// The first task under `key`.
fn find_task(ts: &Vec<Task>, key: u128) -> (r: Option<usize>)
    ensures
        match r {
            Some(i) => task_index(ts@, key, i as int),
            None => forall|j: int| 0 <= j < ts@.len() ==> (#[trigger] ts@[j]).key != key,
        },
{
    let mut i: usize = 0;
    while i < ts.len()
        invariant
            0 <= i <= ts@.len(),
            forall|j: int| 0 <= j < i ==> (#[trigger] ts@[j]).key != key,
        decreases ts@.len() - i,
    {
        if ts[i].key == key {
            return Some(i);
        }
        i = i + 1;
    }
    None
}

/// The first tool report under `key`.
fn find_tool(cs: &Vec<ToolCall>, key: u128) -> (r: Option<usize>)
    ensures
        match r {
            Some(i) => tool_index(cs@, key, i as int),
            None => forall|j: int| 0 <= j < cs@.len() ==> (#[trigger] cs@[j]).key != key,
        },
{
    let mut i: usize = 0;
    while i < cs.len()
        invariant
            0 <= i <= cs@.len(),
            forall|j: int| 0 <= j < i ==> (#[trigger] cs@[j]).key != key,
        decreases cs@.len() - i,
    {
        if cs[i].key == key {
            return Some(i);
        }
        i = i + 1;
    }
    None
}

/// Whether a task with identifier `dep` has completed.
fn is_completed_dependency(ts: &Vec<Task>, dep: &str) -> (r: bool)
    ensures
        r == completed_dependency(ts@, dep@),
{
    let mut i: usize = 0;
    while i < ts.len()
        invariant
            0 <= i <= ts@.len(),
            forall|j: int| 0 <= j < i ==> !((#[trigger] ts@[j]).id@ == dep@ && ts@[j].status@ == "completed"@),
        decreases ts@.len() - i,
    {
        if str_eq(ts[i].id.as_str(), dep) && str_eq(ts[i].status.as_str(), "completed") {
            return true;
        }
        i = i + 1;
    }
    false
}

impl ThreadState {
    /// Creates goal `id` toward `objective`, active, for the replica that owns
    /// the conversation. An identifier that does not parse is refused, then a
    /// replica that does not own the conversation. A goal already under the
    /// identifier is handed back where its objective is the same, and refused
    /// otherwise. A new goal is recorded as a `goal.updated` event.
    pub fn create_goal(&mut self, owns: bool, id: &str, objective: &str, now: i64) -> (r: Result<(Goal, Option<QueuedEvent>), ChatError>)
        requires
            old(self).sequence < i64::MAX,
        ensures
            parsed_uuid(id@) is None ==> (r matches Err(ChatError::Invalid(m)) && m@ == "Invalid UUID"@),
            parsed_uuid(id@) is Some && !owns ==> (r matches Err(ChatError::Denied)),
            forall|i: int| owns && parsed_uuid(id@) is Some && #[trigger] goal_index(old(self).work.goals@, parsed_uuid(id@).unwrap(), i)
                ==> if old(self).work.goals@[i].objective@ == objective@ {
                    r matches Ok((g, None)) && g == old(self).work.goals@[i]
                } else {
                    r matches Err(ChatError::Conflict)
                },
            parsed_uuid(id@) is Some && owns
                && (forall|j: int| 0 <= j < old(self).work.goals@.len() ==> (#[trigger] old(self).work.goals@[j]).key != parsed_uuid(id@).unwrap())
                ==> (r matches Ok((g, Some(e))) && {
                    &&& g.key == parsed_uuid(id@).unwrap() && g.id@ == id@ && g.objective@ == objective@ && g.status@ == "active"@
                    &&& final(self).work.goals@ == old(self).work.goals@.push(g)
                    &&& final(self).work.tasks@ == old(self).work.tasks@
                    &&& final(self).work.tool_calls@ == old(self).work.tool_calls@
                    &&& emitted(*old(self), *final(self), e, "goal.updated"@, now)
                }),
            r is Err || (r matches Ok((_, None))) ==> *final(self) == *old(self),
    {
        let key = match parse_uuid(id) {
            Some(k) => k,
            None => return Err(ChatError::Invalid("Invalid UUID".to_owned())),
        };
        if !owns {
            return Err(ChatError::Denied);
        }
        match find_goal(&self.work.goals, key) {
            Some(i) => {
                proof {
                    assert forall|q: int| goal_index(old(self).work.goals@, key, q) implies q == i by {
                        if q < i {
                            assert(old(self).work.goals@[q].key != key);
                        } else if q > i {
                            assert(old(self).work.goals@[i as int].key != key);
                        }
                    }
                }
                if str_eq(self.work.goals[i].objective.as_str(), objective) {
                    return Ok((self.work.goals[i].duplicate(), None));
                } else {
                    return Err(ChatError::Conflict);
                }
            },
            None => {},
        }
        let goal = Goal { key, id: id.to_owned(), objective: objective.to_owned(), status: "active".to_owned() };
        let stored = goal.duplicate();
        self.work.goals.push(goal);
        let e = self.emit("goal.updated", now);
        Ok((stored, Some(e)))
    }

    /// Creates task `id` with `title`, toward goal `goal_id` where one is
    /// named, waiting for the tasks `dependencies`, for the replica that owns
    /// the conversation. Refused in this order: an identifier that does not
    /// parse; dependencies that are too many, repeat, or name the task; a
    /// replica that does not own the conversation; a dependency that does not
    /// parse or names no task (in `String` order); a goal that does not parse
    /// or is not known. A task already under the identifier is handed back
    /// where its title, goal and dependencies are the same, and refused
    /// otherwise. A new task is pending, keeps its dependencies in `String`
    /// order, and is recorded as a `task.updated` event.
    #[verifier::loop_isolation(false)]
    pub fn create_task(
        &mut self,
        owns: bool,
        id: &str,
        title: &str,
        goal_id: Option<&str>,
        dependencies: &Vec<String>,
        now: i64,
    ) -> (r: Result<(Task, Option<QueuedEvent>), ChatError>)
        requires
            old(self).sequence < i64::MAX,
        ensures
            ({
                let ts = old(self).work.tasks@;
                let deps_ok = dependencies@.len() <= DEPENDENCY_LIMIT && views(dependencies@).no_duplicates()
                    && !views(dependencies@).contains(id@);
                let known = forall|k: int| 0 <= k < dependencies@.len() ==> known_dependency(ts, (#[trigger] dependencies@[k])@);
                let parse = forall|k: int| 0 <= k < dependencies@.len() ==> parsed_uuid((#[trigger] dependencies@[k])@) is Some;
                let goal_ok = match goal_id {
                    None => true,
                    Some(g) => parsed_uuid(g@) is Some && known_goal(old(self).work.goals@, parsed_uuid(g@).unwrap()),
                };
                &&& parsed_uuid(id@) is None ==> (r matches Err(ChatError::Invalid(m)) && m@ == "Invalid UUID"@)
                &&& parsed_uuid(id@) is Some && !deps_ok ==> (r matches Err(ChatError::Invalid(m)) && m@ == "Invalid task dependencies"@)
                &&& parsed_uuid(id@) is Some && deps_ok && !owns ==> (r matches Err(ChatError::Denied))
                &&& parsed_uuid(id@) is Some && deps_ok && owns && !known ==> if parse {
                    r matches Err(ChatError::NotFound)
                } else {
                    (r matches Err(ChatError::NotFound)) || (r matches Err(ChatError::Invalid(m)) && m@ == "Invalid UUID"@)
                }
                &&& parsed_uuid(id@) is Some && deps_ok && owns && known && !goal_ok ==> match goal_id {
                    Some(g) if parsed_uuid(g@) is None => r matches Err(ChatError::Invalid(m)) && m@ == "Invalid UUID"@,
                    _ => r matches Err(ChatError::NotFound),
                }
                &&& parsed_uuid(id@) is Some && deps_ok && owns && known && goal_ok ==> {
                    let key = parsed_uuid(id@).unwrap();
                    &&& forall|i: int| #[trigger] task_index(ts, key, i) ==> {
                        let o = ts[i];
                        if o.title@ == title@ && match (o.goal_id, goal_id) {
                            (Some(x), Some(y)) => x@ == y@,
                            (None, None) => true,
                            _ => false,
                        } && same_dependencies(o.dependency_ids@, dependencies@) {
                            r matches Ok((t, None)) && same_task(t, o)
                        } else {
                            r matches Err(ChatError::Conflict)
                        }
                    }
                    &&& (forall|j: int| 0 <= j < ts.len() ==> (#[trigger] ts[j]).key != key) ==> (r matches Ok((t, Some(e))) && {
                        &&& t.key == key && t.id@ == id@ && t.title@ == title@ && t.status@ == "pending"@
                        &&& match (t.goal_id, goal_id) {
                            (Some(x), Some(y)) => x@ == y@,
                            (None, None) => true,
                            _ => false,
                        }
                        &&& same_dependencies(t.dependency_ids@, dependencies@)
                        &&& t.blocked_reason@.len() == 0
                        &&& final(self).work.tasks@.len() == ts.len() + 1
                        &&& final(self).work.tasks@.subrange(0, ts.len() as int) == ts
                        &&& same_task(final(self).work.tasks@.last(), t)
                        &&& final(self).work.goals@ == old(self).work.goals@
                        &&& final(self).work.tool_calls@ == old(self).work.tool_calls@
                        &&& emitted(*old(self), *final(self), e, "task.updated"@, now)
                    })
                }
            }),
            r is Err || (r matches Ok((_, None))) ==> *final(self) == *old(self),
    {
        let key = match parse_uuid(id) {
            Some(k) => k,
            None => return Err(ChatError::Invalid("Invalid UUID".to_owned())),
        };
        let sorted = match sorted_dependencies(id, dependencies) {
            Ok(s) => s,
            Err(e) => return Err(e),
        };
        if !owns {
            return Err(ChatError::Denied);
        }
        proof {
            vstd::seq_lib::to_multiset_len(views(sorted@));
            vstd::seq_lib::to_multiset_len(views(dependencies@));
        }
        let mut k: usize = 0;
        while k < sorted.len()
            invariant
                0 <= k <= sorted@.len(),
                *self == *old(self),
                forall|q: int| 0 <= q < k ==> known_dependency(self.work.tasks@, (#[trigger] sorted@[q])@),
            decreases sorted@.len() - k,
        {
            let dep = match parse_uuid(sorted[k].as_str()) {
                Some(d) => d,
                None => {
                    proof {
                        let x = views(sorted@)[k as int];
                        vstd::seq_lib::to_multiset_contains(views(sorted@), x);
                        vstd::seq_lib::to_multiset_contains(views(dependencies@), x);
                        let w = choose|w: int| 0 <= w < views(dependencies@).len() && views(dependencies@)[w] == x;
                        assert(!known_dependency(self.work.tasks@, dependencies@[w]@));
                        assert(parsed_uuid(dependencies@[w]@) is None);
                    }
                    return Err(ChatError::Invalid("Invalid UUID".to_owned()));
                },
            };
            if find_task(&self.work.tasks, dep).is_none() {
                proof {
                    let x = views(sorted@)[k as int];
                    vstd::seq_lib::to_multiset_contains(views(sorted@), x);
                    vstd::seq_lib::to_multiset_contains(views(dependencies@), x);
                    let w = choose|w: int| 0 <= w < views(dependencies@).len() && views(dependencies@)[w] == x;
                    assert(!known_dependency(self.work.tasks@, dependencies@[w]@));
                }
                return Err(ChatError::NotFound);
            }
            k = k + 1;
        }
        proof {
            assert forall|q: int| 0 <= q < dependencies@.len() implies known_dependency(old(self).work.tasks@, (#[trigger] dependencies@[q])@) by {
                let x = views(dependencies@)[q];
                vstd::seq_lib::to_multiset_contains(views(dependencies@), x);
                vstd::seq_lib::to_multiset_contains(views(sorted@), x);
                let w = choose|w: int| 0 <= w < views(sorted@).len() && views(sorted@)[w] == x;
                assert(known_dependency(old(self).work.tasks@, sorted@[w]@));
            }
        }
        match goal_id {
            Some(g) => {
                let gk = match parse_uuid(g) {
                    Some(k) => k,
                    None => return Err(ChatError::Invalid("Invalid UUID".to_owned())),
                };
                if find_goal(&self.work.goals, gk).is_none() {
                    return Err(ChatError::NotFound);
                }
            },
            None => {},
        }
        match find_task(&self.work.tasks, key) {
            Some(i) => {
                proof {
                    assert forall|q: int| task_index(old(self).work.tasks@, key, q) implies q == i by {
                        if q < i {
                            assert(old(self).work.tasks@[q].key != key);
                        } else if q > i {
                            assert(old(self).work.tasks@[i as int].key != key);
                        }
                    }
                }
                let o = &self.work.tasks[i];
                let same = str_eq(o.title.as_str(), title) && same_option(&o.goal_id, goal_id)
                    && same_texts(&o.dependency_ids, &sorted);
                proof {
                    if sorted_texts(views(o.dependency_ids@)) && views(o.dependency_ids@).to_multiset() == views(dependencies@).to_multiset() {
                        lemma_sorted_unique(views(o.dependency_ids@), views(sorted@));
                    }
                }
                if same {
                    return Ok((o.duplicate(), None));
                } else {
                    return Err(ChatError::Conflict);
                }
            },
            None => {},
        }
        let task = Task {
            key,
            id: id.to_owned(),
            title: title.to_owned(),
            status: "pending".to_owned(),
            goal_id: match goal_id { Some(g) => Some(g.to_owned()), None => None },
            dependency_ids: sorted,
            blocked_reason: String::new(),
        };
        let stored = task.duplicate();
        self.work.tasks.push(task);
        proof {
            assert(self.work.tasks@.subrange(0, old(self).work.tasks@.len() as int) =~= old(self).work.tasks@);
        }
        let e = self.emit("task.updated", now);
        Ok((stored, Some(e)))
    }

    /// Sets the status of task `id`, with the reason it is blocked, for the
    /// replica that owns the conversation. Refused in this order: a status a
    /// task may not have or a reason over 16 KiB; an identifier that does not
    /// parse; a replica that does not own the conversation; an unknown task; a
    /// completed, failed or canceled task given another status; work on, or
    /// completion of, a task some dependency of which has not completed. The
    /// change is recorded as a `task.updated` event.
    #[verifier::loop_isolation(false)]
    pub fn update_task(&mut self, owns: bool, id: &str, status: &str, blocked_reason: &str, now: i64) -> (r: Result<(Task, QueuedEvent), ChatError>)
        requires
            old(self).sequence < i64::MAX,
        ensures
            !task_status(status@) || blen(blocked_reason@) > BLOCKED_REASON_BYTES
                ==> (r matches Err(ChatError::Invalid(m)) && m@ == "Invalid task update"@),
            ({
                let valid = task_status(status@) && blen(blocked_reason@) <= BLOCKED_REASON_BYTES;
                let ts = old(self).work.tasks@;
                &&& valid && parsed_uuid(id@) is None ==> (r matches Err(ChatError::Invalid(m)) && m@ == "Invalid UUID"@)
                &&& valid && parsed_uuid(id@) is Some && !owns ==> (r matches Err(ChatError::Denied))
                &&& valid && parsed_uuid(id@) is Some && owns
                    && (forall|j: int| 0 <= j < ts.len() ==> (#[trigger] ts[j]).key != parsed_uuid(id@).unwrap())
                    ==> (r matches Err(ChatError::NotFound))
                &&& forall|i: int| valid && owns && parsed_uuid(id@) is Some && #[trigger] task_index(ts, parsed_uuid(id@).unwrap(), i) ==> {
                    let o = ts[i];
                    if task_settled(o.status@) && o.status@ != status@ {
                        r matches Err(ChatError::Conflict)
                    } else if (status@ == "working"@ || status@ == "completed"@) && !dependencies_done(ts, o) {
                        r matches Err(ChatError::Conflict)
                    } else {
                        r matches Ok((t, e)) && {
                            &&& t.key == o.key && t.id == o.id && t.title == o.title && t.goal_id == o.goal_id
                            &&& t.dependency_ids@ == o.dependency_ids@
                            &&& t.status@ == status@ && t.blocked_reason@ == blocked_reason@
                            &&& final(self).work.tasks@.len() == ts.len()
                            &&& same_task(final(self).work.tasks@[i], t)
                            &&& forall|j: int| 0 <= j < ts.len() && j != i ==> #[trigger] final(self).work.tasks@[j] == ts[j]
                            &&& final(self).work.goals@ == old(self).work.goals@
                            &&& final(self).work.tool_calls@ == old(self).work.tool_calls@
                            &&& emitted(*old(self), *final(self), e, "task.updated"@, now)
                        }
                    }
                }
            }),
            r is Err ==> *final(self) == *old(self),
    {
        if !(str_eq(status, "pending") || str_eq(status, "working") || str_eq(status, "blocked")
            || str_eq(status, "completed") || str_eq(status, "failed") || str_eq(status, "canceled"))
            || byte_len(blocked_reason) > BLOCKED_REASON_BYTES {
            return Err(ChatError::Invalid("Invalid task update".to_owned()));
        }
        let key = match parse_uuid(id) {
            Some(k) => k,
            None => return Err(ChatError::Invalid("Invalid UUID".to_owned())),
        };
        if !owns {
            return Err(ChatError::Denied);
        }
        let i = match find_task(&self.work.tasks, key) {
            Some(i) => i,
            None => return Err(ChatError::NotFound),
        };
        proof {
            assert forall|q: int| task_index(old(self).work.tasks@, key, q) implies q == i by {
                if q < i {
                    assert(old(self).work.tasks@[q].key != key);
                } else if q > i {
                    assert(old(self).work.tasks@[i as int].key != key);
                }
            }
        }
        let mut task = self.work.tasks[i].duplicate();
        let settled = str_eq(task.status.as_str(), "completed") || str_eq(task.status.as_str(), "failed")
            || str_eq(task.status.as_str(), "canceled");
        if settled && !str_eq(task.status.as_str(), status) {
            return Err(ChatError::Conflict);
        }
        if str_eq(status, "working") || str_eq(status, "completed") {
            let mut k: usize = 0;
            while k < task.dependency_ids.len()
                invariant
                    0 <= k <= task.dependency_ids@.len(),
                    task.dependency_ids@ == old(self).work.tasks@[i as int].dependency_ids@,
                    self.work.tasks@ == old(self).work.tasks@,
                    forall|q: int| 0 <= q < k ==> completed_dependency(self.work.tasks@, (#[trigger] task.dependency_ids@[q])@),
                decreases task.dependency_ids@.len() - k,
            {
                if !is_completed_dependency(&self.work.tasks, task.dependency_ids[k].as_str()) {
                    proof {
                        assert(!completed_dependency(old(self).work.tasks@, (old(self).work.tasks@[i as int].dependency_ids@[k as int])@));
                    }
                    return Err(ChatError::Conflict);
                }
                k = k + 1;
            }
        }
        task.status = status.to_owned();
        task.blocked_reason = blocked_reason.to_owned();
        let stored = task.duplicate();
        self.work.tasks.set(i, task);
        let e = self.emit("task.updated", now);
        Ok((stored, e))
    }

    /// Records a tool report under `id`, for the replica that owns the
    /// conversation. Refused in this order: an identifier that does not
    /// parse; a report without a name or with a status a report may not have;
    /// a replica that does not own the conversation; a report whose name or
    /// provider differs from the one already under the identifier. Once a
    /// report is no longer running, the same report again changes nothing
    /// (no event) and any other is refused. Otherwise the report replaces the
    /// one under its identifier, or is added, and is recorded as a
    /// `tool.updated` event.
    pub fn report_tool_call(
        &mut self,
        owns: bool,
        id: &str,
        name: &str,
        provider_id: &str,
        status: &str,
        detail: &str,
        now: i64,
    ) -> (r: Result<Option<QueuedEvent>, ChatError>)
        requires
            old(self).sequence < i64::MAX,
        ensures
            ({
                let cs = old(self).work.tool_calls@;
                let valid = name@.len() > 0 && tool_status(status@);
                &&& parsed_uuid(id@) is None ==> (r matches Err(ChatError::Invalid(m)) && m@ == "Invalid UUID"@)
                &&& parsed_uuid(id@) is Some && !valid ==> (r matches Err(ChatError::Invalid(m)) && m@ == "Invalid tool report"@)
                &&& parsed_uuid(id@) is Some && valid && !owns ==> (r matches Err(ChatError::Denied))
                &&& parsed_uuid(id@) is Some && valid && owns ==> {
                    let key = parsed_uuid(id@).unwrap();
                    let placed = |c: ToolCall| c.key == key && c.id@ == id@ && c.name@ == name@ && c.provider_id@ == provider_id@
                        && c.status@ == status@ && c.detail@ == detail@;
                    &&& forall|i: int| #[trigger] tool_index(cs, key, i) ==> {
                        let p = cs[i];
                        if p.name@ != name@ || p.provider_id@ != provider_id@ {
                            r matches Err(ChatError::Conflict)
                        } else if p.status@ != "running"@ {
                            if p.id@ == id@ && p.status@ == status@ && p.detail@ == detail@ {
                                r matches Ok(None)
                            } else {
                                r matches Err(ChatError::Conflict)
                            }
                        } else {
                            r matches Ok(Some(e)) && final(self).work.tool_calls@.len() == cs.len()
                                && placed(final(self).work.tool_calls@[i])
                                && (forall|j: int| 0 <= j < cs.len() && j != i ==> #[trigger] final(self).work.tool_calls@[j] == cs[j])
                                && emitted(*old(self), *final(self), e, "tool.updated"@, now)
                        }
                    }
                    &&& (forall|j: int| 0 <= j < cs.len() ==> (#[trigger] cs[j]).key != key) ==> (r matches Ok(Some(e))
                        && final(self).work.tool_calls@.len() == cs.len() + 1
                        && final(self).work.tool_calls@.subrange(0, cs.len() as int) == cs
                        && placed(final(self).work.tool_calls@.last())
                        && emitted(*old(self), *final(self), e, "tool.updated"@, now))
                }
            }),
            r is Err || (r matches Ok(None)) ==> *final(self) == *old(self),
            final(self).work.goals@ == old(self).work.goals@,
            final(self).work.tasks@ == old(self).work.tasks@,
    {
        let key = match parse_uuid(id) {
            Some(k) => k,
            None => return Err(ChatError::Invalid("Invalid UUID".to_owned())),
        };
        if name.unicode_len() == 0 || !(str_eq(status, "running") || str_eq(status, "completed")
            || str_eq(status, "failed") || str_eq(status, "aborted")) {
            return Err(ChatError::Invalid("Invalid tool report".to_owned()));
        }
        if !owns {
            return Err(ChatError::Denied);
        }
        let report = ToolCall {
            key,
            id: id.to_owned(),
            name: name.to_owned(),
            provider_id: provider_id.to_owned(),
            status: status.to_owned(),
            detail: detail.to_owned(),
        };
        match find_tool(&self.work.tool_calls, key) {
            Some(i) => {
                proof {
                    assert forall|q: int| tool_index(old(self).work.tool_calls@, key, q) implies q == i by {
                        if q < i {
                            assert(old(self).work.tool_calls@[q].key != key);
                        } else if q > i {
                            assert(old(self).work.tool_calls@[i as int].key != key);
                        }
                    }
                }
                let p = &self.work.tool_calls[i];
                if !str_eq(p.name.as_str(), name) || !str_eq(p.provider_id.as_str(), provider_id) {
                    return Err(ChatError::Conflict);
                }
                if !str_eq(p.status.as_str(), "running") {
                    if str_eq(p.id.as_str(), id) && str_eq(p.status.as_str(), status) && str_eq(p.detail.as_str(), detail) {
                        return Ok(None);
                    } else {
                        return Err(ChatError::Conflict);
                    }
                }
                self.work.tool_calls.set(i, report);
            },
            None => {
                self.work.tool_calls.push(report);
                proof {
                    assert(self.work.tool_calls@.subrange(0, old(self).work.tool_calls@.len() as int) =~= old(self).work.tool_calls@);
                }
            },
        }
        let e = self.emit("tool.updated", now);
        Ok(Some(e))
    }

    /// Sets the status of goal `id`, for the replica that owns the
    /// conversation. Refused in this order: a status a goal may not have; an
    /// identifier that does not parse; a replica that does not own the
    /// conversation; an unknown goal; a goal no longer active given another
    /// status. The change is recorded as a `goal.updated` event.
    pub fn update_goal(&mut self, owns: bool, id: &str, status: &str, now: i64) -> (r: Result<(Goal, QueuedEvent), ChatError>)
        requires
            old(self).sequence < i64::MAX,
        ensures
            !goal_status(status@) ==> (r matches Err(ChatError::Invalid(m)) && m@ == "Invalid goal status"@),
            goal_status(status@) && parsed_uuid(id@) is None ==> (r matches Err(ChatError::Invalid(m)) && m@ == "Invalid UUID"@),
            goal_status(status@) && parsed_uuid(id@) is Some && !owns ==> (r matches Err(ChatError::Denied)),
            goal_status(status@) && owns && parsed_uuid(id@) is Some
                && (forall|j: int| 0 <= j < old(self).work.goals@.len() ==> (#[trigger] old(self).work.goals@[j]).key != parsed_uuid(id@).unwrap())
                ==> (r matches Err(ChatError::NotFound)),
            forall|i: int| goal_status(status@) && owns && parsed_uuid(id@) is Some && #[trigger] goal_index(old(self).work.goals@, parsed_uuid(id@).unwrap(), i)
                ==> {
                    let o = old(self).work.goals@[i];
                    if o.status@ != "active"@ && o.status@ != status@ {
                        r matches Err(ChatError::Conflict)
                    } else {
                        r matches Ok((g, e)) && {
                            &&& g.key == o.key && g.id == o.id && g.objective == o.objective && g.status@ == status@
                            &&& final(self).work.goals@ == old(self).work.goals@.update(i, g)
                            &&& final(self).work.tasks@ == old(self).work.tasks@
                            &&& final(self).work.tool_calls@ == old(self).work.tool_calls@
                            &&& emitted(*old(self), *final(self), e, "goal.updated"@, now)
                        }
                    }
                },
            r is Err ==> *final(self) == *old(self),
    {
        if !(str_eq(status, "active") || str_eq(status, "completed") || str_eq(status, "failed") || str_eq(status, "canceled")) {
            return Err(ChatError::Invalid("Invalid goal status".to_owned()));
        }
        let key = match parse_uuid(id) {
            Some(k) => k,
            None => return Err(ChatError::Invalid("Invalid UUID".to_owned())),
        };
        if !owns {
            return Err(ChatError::Denied);
        }
        let i = match find_goal(&self.work.goals, key) {
            Some(i) => i,
            None => return Err(ChatError::NotFound),
        };
        proof {
            assert forall|q: int| goal_index(old(self).work.goals@, key, q) implies q == i by {
                if q < i {
                    assert(old(self).work.goals@[q].key != key);
                } else if q > i {
                    assert(old(self).work.goals@[i as int].key != key);
                }
            }
        }
        let mut goal = self.work.goals[i].duplicate();
        if !str_eq(goal.status.as_str(), "active") && !str_eq(goal.status.as_str(), status) {
            return Err(ChatError::Conflict);
        }
        goal.status = status.to_owned();
        let stored = goal.duplicate();
        self.work.goals.set(i, goal);
        let e = self.emit("goal.updated", now);
        Ok((stored, e))
    }
}


/// A task may start or complete only once every task it depends on has
/// status exactly `completed`: a dependency none of whose tasks has
/// completed (one still pending or working, say) holds it back.
pub proof fn law_unfinished_dependency_blocks(ts: Seq<Task>, t: Task, k: int)
    requires
        0 <= k < t.dependency_ids@.len(),
        forall|i: int| 0 <= i < ts.len() && (#[trigger] ts[i]).id@ == t.dependency_ids@[k]@
            ==> ts[i].status@ != "completed"@,
    ensures
        !dependencies_done(ts, t),
{
    if dependencies_done(ts, t) {
        assert(completed_dependency(ts, t.dependency_ids@[k]@));
        let i = choose|i: int| 0 <= i < ts.len() && (#[trigger] ts[i]).id@ == t.dependency_ids@[k]@
            && ts[i].status@ == "completed"@;
        assert(ts[i].status@ != "completed"@);
    }
}

/// Where each dependency of a task has a task with status `completed`,
/// nothing holds the task back.
pub proof fn law_completed_dependencies_release(ts: Seq<Task>, t: Task)
    requires
        forall|k: int| 0 <= k < t.dependency_ids@.len() ==> exists|i: int|
            0 <= i < ts.len() && (#[trigger] ts[i]).id@ == (#[trigger] t.dependency_ids@[k])@ && ts[i].status@ == "completed"@,
    ensures
        dependencies_done(ts, t),
{
}

} // verus!
