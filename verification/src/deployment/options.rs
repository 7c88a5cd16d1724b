//! A sidecar's settings as its environment gives them: deployment tokens,
//! local agent endpoints, and the idle time after which threads are evicted.
use vstd::prelude::*;
use crate::deployment::wire::ChatError;
use crate::ids::{parse_uuid, parsed_uuid};
use crate::address::{IpAddress, is_loopback, is_loopback_address};
use crate::text::{trim, trim_spec};

verus! {

/// The first `sep` at or after `from`, or the end of the text.
pub open spec fn next_sep(s: Seq<char>, sep: char, from: int) -> int
    decreases s.len() - from,
{
    if from >= s.len() {
        s.len() as int
    } else if s[from] == sep {
        from
    } else {
        next_sep(s, sep, from + 1)
    }
}

proof fn lemma_next_sep(s: Seq<char>, sep: char, from: int, i: int)
    requires
        0 <= from <= i <= s.len(),
        forall|k: int| from <= k < i ==> s[k] != sep,
        i == s.len() || s[i] == sep,
    ensures
        next_sep(s, sep, from) == i,
    decreases i - from,
{
    if from < i {
        lemma_next_sep(s, sep, from + 1, i);
    }
}

/// The pieces of `s` from `from` on, between separators (`str::split`).
pub open spec fn pieces_from(s: Seq<char>, sep: char, from: int) -> Seq<Seq<char>>
    decreases s.len() - from,
{
    if from < 0 || from > s.len() {
        Seq::empty()
    } else {
        let e = next_sep(s, sep, from);
        if e < s.len() && e >= from {
            seq![s.subrange(from, e)] + pieces_from(s, sep, e + 1)
        } else {
            seq![s.subrange(from, s.len() as int)]
        }
    }
}

/// `s.split(sep)`.
pub open spec fn pieces(s: Seq<char>, sep: char) -> Seq<Seq<char>> {
    pieces_from(s, sep, 0)
}

/// `s.split(sep)`, piece by piece.
pub fn split(s: &str, sep: char) -> (r: Vec<String>)
    ensures
        r@.len() == pieces(s@, sep).len(),
        forall|i: int| 0 <= i < r@.len() ==> (#[trigger] r@[i])@ == pieces(s@, sep)[i],
{
    let n = s.unicode_len();
    let mut out: Vec<String> = Vec::new();
    let ghost mut done: Seq<Seq<char>> = Seq::empty();
    let mut from: usize = 0;
    loop
        invariant
            n == s@.len(),
            0 <= from <= n,
            out@.len() == done.len(),
            forall|i: int| 0 <= i < out@.len() ==> (#[trigger] out@[i])@ == done[i],
            pieces(s@, sep) == done + pieces_from(s@, sep, from as int),
        decreases n - from,
    {
        let mut e: usize = from;
        while e < n && s.get_char(e) != sep
            invariant
                n == s@.len(),
                from <= e <= n,
                forall|k: int| from <= k < e ==> s@[k] != sep,
            decreases n - e,
        {
            e = e + 1;
        }
        proof {
            lemma_next_sep(s@, sep, from as int, e as int);
        }
        let piece = s.substring_char(from, e).to_owned();
        let ghost p = piece@;
        let ghost old_done = done;
        out.push(piece);
        proof {
            done = done.push(p);
            assert forall|i: int| 0 <= i < out@.len() implies (#[trigger] out@[i])@ == done[i] by {
                if i < old_done.len() {
                    assert(done[i] == old_done[i]);
                }
            }
        }
        if e >= n {
            proof {
                assert(pieces_from(s@, sep, from as int) == seq![s@.subrange(from as int, n as int)]);
                assert(old_done + seq![p] =~= done);
            }
            return out;
        }
        proof {
            assert(pieces_from(s@, sep, from as int) == seq![s@.subrange(from as int, e as int)] + pieces_from(s@, sep, e + 1));
            assert(old_done + (seq![p] + pieces_from(s@, sep, e + 1)) =~= done + pieces_from(s@, sep, e + 1));
        }
        from = e + 1;
    }
}

/// The trimmed pieces that are not empty.
pub open spec fn kept(ps: Seq<Seq<char>>) -> Seq<Seq<char>>
    decreases ps.len(),
{
    if ps.len() == 0 {
        Seq::empty()
    } else if trim_spec(ps.last()).len() > 0 {
        kept(ps.drop_last()).push(trim_spec(ps.last()))
    } else {
        kept(ps.drop_last())
    }
}

/// The deployment tokens a comma-separated list names, or the refusal of a
/// list that names none.
pub fn tokens(raw: &str) -> (r: Result<Vec<String>, ChatError>)
    ensures
        match r {
            Ok(t) => t@.len() == kept(pieces(raw@, ',')).len() && t@.len() > 0
                && forall|i: int| 0 <= i < t@.len() ==> (#[trigger] t@[i])@ == kept(pieces(raw@, ','))[i],
            Err(ChatError::Invalid(m)) => kept(pieces(raw@, ',')).len() == 0
                && m@ == "At least one deployment token is required"@,
            Err(_) => false,
        },
{
    let parts = split(raw, ',');
    let ghost ps = pieces(raw@, ',');
    let mut out: Vec<String> = Vec::new();
    let mut i: usize = 0;
    proof {
        assert(ps.subrange(0, 0) =~= Seq::<Seq<char>>::empty());
    }
    while i < parts.len()
        invariant
            parts@.len() == ps.len(),
            forall|k: int| 0 <= k < parts@.len() ==> (#[trigger] parts@[k])@ == ps[k],
            0 <= i <= parts@.len(),
            out@.len() == kept(ps.subrange(0, i as int)).len(),
            forall|k: int| 0 <= k < out@.len() ==> (#[trigger] out@[k])@ == kept(ps.subrange(0, i as int))[k],
        decreases parts@.len() - i,
    {
        let ghost prefix = ps.subrange(0, i as int + 1);
        proof {
            assert(prefix.drop_last() =~= ps.subrange(0, i as int));
            assert(prefix.last() == ps[i as int]);
        }
        let t = trim(parts[i].as_str());
        if t.unicode_len() > 0 {
            out.push(t.to_owned());
        }
        i = i + 1;
    }
    proof {
        assert(ps.subrange(0, ps.len() as int) =~= ps);
    }
    if out.len() == 0 {
        Err(ChatError::Invalid("At least one deployment token is required".to_owned()))
    } else {
        Ok(out)
    }
}

/// An agent and its endpoint, as an entry `agent_id=endpoint` names them.
pub open spec fn pair_of(piece: Seq<char>) -> Option<(Seq<char>, Seq<char>)> {
    let e = next_sep(piece, '=', 0);
    if e >= piece.len() {
        None
    } else {
        Some((trim_spec(piece.subrange(0, e)), trim_spec(piece.subrange(e + 1, piece.len() as int))))
    }
}

/// The agents' endpoints a comma-separated list of `agent_id=endpoint`
/// entries names, a later entry replacing an earlier one for its agent, in
/// the order of the agents' identifiers; or why the list is refused.
pub open spec fn endpoint_map(ps: Seq<Seq<char>>) -> Result<Seq<(u128, Seq<char>)>, Seq<char>>
    decreases ps.len(),
{
    if ps.len() == 0 {
        Ok(Seq::empty())
    } else {
        match endpoint_map(ps.drop_last()) {
            Err(m) => Err(m),
            Ok(acc) => match pair_of(ps.last()) {
                None => Err("Agent endpoints must be agent_id=http(s)://host pairs"@),
                Some((agent, endpoint)) => match parsed_uuid(agent) {
                    None => Err("Invalid UUID"@),
                    Some(a) => Ok(put_endpoint(acc, a, endpoint)),
                },
            },
        }
    }
}

/// The first position whose agent is not below `agent`.
pub open spec fn agent_point(acc: Seq<(u128, Seq<char>)>, agent: u128) -> int
    decreases acc.len(),
{
    if acc.len() == 0 || acc[0].0 >= agent {
        0
    } else {
        1 + agent_point(acc.drop_first(), agent)
    }
}

/// Endpoints with `agent`'s set to `endpoint`.
pub open spec fn put_endpoint(acc: Seq<(u128, Seq<char>)>, agent: u128, endpoint: Seq<char>) -> Seq<(u128, Seq<char>)> {
    let p = agent_point(acc, agent);
    if p < acc.len() && acc[p].0 == agent {
        acc.update(p, (agent, endpoint))
    } else {
        acc.insert(p, (agent, endpoint))
    }
}

proof fn lemma_agent_point(acc: Seq<(u128, Seq<char>)>, agent: u128, i: int)
    requires
        0 <= i <= acc.len(),
        forall|k: int| 0 <= k < i ==> (#[trigger] acc[k]).0 < agent,
        i < acc.len() ==> acc[i].0 >= agent,
    ensures
        agent_point(acc, agent) == i,
    decreases acc.len(),
{
    if i > 0 {
        assert forall|k: int| 0 <= k < i - 1 implies (#[trigger] acc.drop_first()[k]).0 < agent by {
            assert(acc[k + 1].0 < agent);
        }
        lemma_agent_point(acc.drop_first(), agent, i - 1);
    }
}

/// Failures so far are failures of the whole list.
proof fn lemma_endpoint_map_err(ps: Seq<Seq<char>>, k: int)
    requires
        0 <= k <= ps.len(),
        endpoint_map(ps.subrange(0, k)) is Err,
    ensures
        endpoint_map(ps) == endpoint_map(ps.subrange(0, k)),
    decreases ps.len(),
{
    if k == ps.len() {
        assert(ps.subrange(0, k) =~= ps);
    } else {
        assert(ps.drop_last().subrange(0, k) =~= ps.subrange(0, k));
        lemma_endpoint_map_err(ps.drop_last(), k);
    }
}

/// The text of agent endpoints.
pub open spec fn endpoint_texts(v: Seq<(u128, String)>) -> Seq<(u128, Seq<char>)> {
    v.map_values(|e: (u128, String)| (e.0, e.1@))
}

/// Reads the agents' endpoints from their list. The endpoints themselves
/// still go through the agent endpoint check.
#[verifier::loop_isolation(false)]
pub fn agent_endpoints(raw: &str) -> (r: Result<Vec<(u128, String)>, ChatError>)
    ensures
        match r {
            Ok(v) => endpoint_map(pieces(raw@, ',')) == Ok::<Seq<(u128, Seq<char>)>, Seq<char>>(endpoint_texts(v@)),
            Err(ChatError::Invalid(m)) => endpoint_map(pieces(raw@, ',')) == Err::<Seq<(u128, Seq<char>)>, Seq<char>>(m@),
            Err(_) => false,
        },
{
    let parts = split(raw, ',');
    let ghost ps = pieces(raw@, ',');
    let mut out: Vec<(u128, String)> = Vec::new();
    let mut i: usize = 0;
    proof {
        assert(ps.subrange(0, 0) =~= Seq::<Seq<char>>::empty());
        assert(endpoint_texts(out@) =~= Seq::<(u128, Seq<char>)>::empty());
    }
    while i < parts.len()
        invariant
            parts@.len() == ps.len(),
            forall|k: int| 0 <= k < parts@.len() ==> (#[trigger] parts@[k])@ == ps[k],
            0 <= i <= parts@.len(),
            endpoint_map(ps.subrange(0, i as int)) == Ok::<Seq<(u128, Seq<char>)>, Seq<char>>(endpoint_texts(out@)),
        decreases parts@.len() - i,
    {
        let ghost prefix = ps.subrange(0, i as int + 1);
        proof {
            assert(prefix.drop_last() =~= ps.subrange(0, i as int));
            assert(prefix.last() == ps[i as int]);
        }
        let piece = parts[i].as_str();
        let n = piece.unicode_len();
        let mut e: usize = 0;
        while e < n && piece.get_char(e) != '='
            invariant
                n == piece@.len(),
                0 <= e <= n,
                forall|k: int| 0 <= k < e ==> piece@[k] != '=',
            decreases n - e,
        {
            e = e + 1;
        }
        proof {
            lemma_next_sep(piece@, '=', 0, e as int);
        }
        if e >= n {
            proof {
                lemma_endpoint_map_err(ps, i as int + 1);
            }
            return Err(ChatError::Invalid("Agent endpoints must be agent_id=http(s)://host pairs".to_owned()));
        }
        let agent_text = trim(piece.substring_char(0, e));
        let endpoint = trim(piece.substring_char(e + 1, n)).to_owned();
        let agent = match parse_uuid(agent_text) {
            Some(a) => a,
            None => {
                proof {
                    lemma_endpoint_map_err(ps, i as int + 1);
                }
                return Err(ChatError::Invalid("Invalid UUID".to_owned()));
            },
        };
        let ghost before = endpoint_texts(out@);
        let mut p: usize = 0;
        while p < out.len() && out[p].0 < agent
            invariant
                0 <= p <= out@.len(),
                before == endpoint_texts(out@),
                forall|k: int| 0 <= k < p ==> (#[trigger] out@[k]).0 < agent,
            decreases out@.len() - p,
        {
            p = p + 1;
        }
        proof {
            assert forall|k: int| 0 <= k < p implies (#[trigger] before[k]).0 < agent by {
                assert(before[k].0 == out@[k].0);
            }
            if p < out@.len() {
                assert(before[p as int].0 == out@[p as int].0);
            }
            lemma_agent_point(before, agent, p as int);
        }
        let ghost ev = endpoint@;
        if p < out.len() && out[p].0 == agent {
            out.set(p, (agent, endpoint));
            proof {
                assert(endpoint_texts(out@) =~= before.update(p as int, (agent, ev)));
            }
        } else {
            out.insert(p, (agent, endpoint));
            proof {
                assert(endpoint_texts(out@) =~= before.insert(p as int, (agent, ev)));
            }
        }
        i = i + 1;
    }
    proof {
        assert(ps.subrange(0, ps.len() as int) =~= ps);
    }
    Ok(out)
}

/// The value of an unsigned decimal integer as `u64`'s `FromStr` reads it:
/// an optional `+` and at least one digit, within range.
pub open spec fn unsigned_digits(t: Seq<char>) -> Option<nat> {
    let body = if t.len() > 0 && t[0] == '+' { t.drop_first() } else { t };
    if body.len() == 0 || !crate::pointer::all_digits(body) || crate::pointer::digits_value(body) > u64::MAX {
        None
    } else {
        Some(crate::pointer::digits_value(body))
    }
}

/// `text.parse::<u64>()`.
#[verifier::loop_isolation(false)]
pub fn parse_u64(text: &str) -> (r: Option<u64>)
    ensures
        match r {
            Some(v) => unsigned_digits(text@) == Some(v as nat),
            None => unsigned_digits(text@) is None,
        },
{
    let n = text.unicode_len();
    let start: usize = if n > 0 && text.get_char(0) == '+' { 1 } else { 0 };
    let body = text.substring_char(start, n);
    proof {
        if start == 1 {
            assert(body@ =~= text@.drop_first());
        } else {
            assert(body@ =~= text@);
        }
    }
    let m = body.unicode_len();
    if m == 0 {
        return None;
    }
    let mut acc: u64 = 0;
    let mut i: usize = 0;
    proof {
        assert(body@.subrange(0, 0) =~= Seq::<char>::empty());
    }
    while i < m
        invariant
            m == body@.len(),
            0 <= i <= m,
            crate::pointer::all_digits(body@.subrange(0, i as int)),
            acc == crate::pointer::digits_value(body@.subrange(0, i as int)),
        decreases m - i,
    {
        let c = body.get_char(i);
        if c < '0' || c > '9' {
            return None;
        }
        let d = (c as u32 - 48) as u64;
        let ghost prefix = body@.subrange(0, i as int + 1);
        proof {
            assert(prefix.drop_last() =~= body@.subrange(0, i as int));
            assert(prefix.last() == c);
            assert forall|k: int| 0 <= k < prefix.len() implies '0' <= #[trigger] prefix[k] <= '9' by {
                if k < i {
                    assert(prefix[k] == body@.subrange(0, i as int)[k]);
                }
            }
        }
        if acc > (u64::MAX - d) / 10 {
            proof {
                if crate::pointer::all_digits(body@) {
                    crate::pointer::lemma_digits_prefix(body@, i as int + 1);
                }
            }
            return None;
        }
        acc = acc * 10 + d;
        i = i + 1;
    }
    proof {
        assert(body@.subrange(0, m as int) =~= body@);
    }
    Some(acc)
}

/// Seconds after which an idle thread is evicted, where none are given.
pub const DEFAULT_IDLE_SECONDS: u64 = 86400;

/// The idle time a sidecar evicts threads after: a day unless set.
pub fn idle_seconds(raw: Option<&str>) -> (r: Result<u64, ChatError>)
    ensures
        match raw {
            None => r == Ok::<u64, ChatError>(DEFAULT_IDLE_SECONDS),
            Some(t) => match unsigned_digits(t@) {
                Some(v) => (r matches Ok(x) && x == v),
                None => (r matches Err(ChatError::Invalid(m)) && m@ == "Invalid ENGINE_SIDECAR_THREAD_IDLE_SECONDS"@),
            },
        },
{
    match raw {
        None => Ok(DEFAULT_IDLE_SECONDS),
        Some(t) => match parse_u64(t) {
            Some(v) => Ok(v),
            None => Err(ChatError::Invalid("Invalid ENGINE_SIDECAR_THREAD_IDLE_SECONDS".to_owned())),
        },
    }
}

/// An address a sidecar listens on.
#[derive(Clone, Copy, Debug)]
pub struct ListenAddress {
    pub ip: IpAddress,
    pub port: u16,
}

/// Whether two addresses are the same.
pub open spec fn same_address(a: ListenAddress, b: ListenAddress) -> bool {
    a.port == b.port && match (a.ip, b.ip) {
        (IpAddress::V4(x), IpAddress::V4(y)) => x@ == y@,
        (IpAddress::V6(x), IpAddress::V6(y)) => x@ == y@,
        _ => false,
    }
}

/// The runtime listener serves only the agent process next door, so it is on
/// a loopback address; the two listeners differ.
pub fn check_listeners(runtime: ListenAddress, public: ListenAddress) -> (r: Result<(), ChatError>)
    ensures
        r is Ok <==> (is_loopback(runtime.ip) && !same_address(runtime, public)),
        match r {
            Err(ChatError::Invalid(m)) => if !is_loopback(runtime.ip) {
                m@ == "ENGINE_SIDECAR_RUNTIME_LISTEN must be a loopback address; only the agent process next door may use it"@
            } else {
                m@ == "Sidecar listeners must have distinct addresses"@
            },
            Err(_) => false,
            Ok(_) => true,
        },
{
    if !is_loopback_address(runtime.ip) {
        return Err(ChatError::Invalid(
            "ENGINE_SIDECAR_RUNTIME_LISTEN must be a loopback address; only the agent process next door may use it".to_owned(),
        ));
    }
    let same_ip = match (runtime.ip, public.ip) {
        (IpAddress::V4(x), IpAddress::V4(y)) => {
            let r = x[0] == y[0] && x[1] == y[1] && x[2] == y[2] && x[3] == y[3];
            proof {
                if r {
                    assert(x@ =~= y@);
                }
                if x@ == y@ {
                    assert(x@[0] == y@[0] && x@[1] == y@[1] && x@[2] == y@[2] && x@[3] == y@[3]);
                }
            }
            r
        },
        (IpAddress::V6(x), IpAddress::V6(y)) => {
            let r = x[0] == y[0] && x[1] == y[1] && x[2] == y[2] && x[3] == y[3] && x[4] == y[4] && x[5] == y[5]
                && x[6] == y[6] && x[7] == y[7];
            proof {
                if r {
                    assert(x@ =~= y@);
                }
                if x@ == y@ {
                    assert(x@[0] == y@[0] && x@[1] == y@[1] && x@[2] == y@[2] && x@[3] == y@[3]);
                    assert(x@[4] == y@[4] && x@[5] == y@[5] && x@[6] == y@[6] && x@[7] == y@[7]);
                }
            }
            r
        },
        _ => false,
    };
    if same_ip && runtime.port == public.port {
        return Err(ChatError::Invalid("Sidecar listeners must have distinct addresses".to_owned()));
    }
    Ok(())
}

} // verus!
