//! The decisions of the listener through which a sidecar falls back to the
//! gateway: which service a path names, which credentials it must carry, and
//! where the request for a conversation goes.
use vstd::prelude::*;
use crate::error::{Error, Fault};
use crate::deployment::cold::{AUDIENCE, ISSUER, RuntimeClaims};
use crate::text::{byte_prefix, starts_with, str_eq};
use vstd::string::*;

verus! {

/// What a proxied path reaches.
#[derive(Clone, Copy, PartialEq, Eq, Debug, Structural)]
pub enum Route {
    /// Traces and logs, forwarded to the telemetry pipeline.
    Telemetry,
    /// The runtime services an agent process calls with an invocation token.
    Runtime,
    /// The ingress services a sidecar calls with an ingress token.
    Ingress,
}

/// Whether `s` begins with `prefix`, character by character.
pub open spec fn has_prefix(s: Seq<char>, prefix: Seq<char>) -> bool {
    prefix.len() <= s.len() && s.subrange(0, prefix.len() as int) == prefix
}

/// The text after `prefix`, where `s` begins with it.
pub fn strip_prefix<'a>(s: &'a str, prefix: &str) -> (r: Option<&'a str>)
    ensures
        r is Some <==> has_prefix(s@, prefix@),
        match r {
            Some(t) => t@ == s@.subrange(prefix@.len() as int, s@.len() as int),
            None => true,
        },
{
    let n = prefix.unicode_len();
    let m = s.unicode_len();
    if n > m {
        return None;
    }
    let mut i: usize = 0;
    while i < n
        invariant
            n == prefix@.len(),
            m == s@.len(),
            n <= m,
            0 <= i <= n,
            forall|k: int| 0 <= k < i ==> s@[k] == prefix@[k],
        decreases n - i,
    {
        if s.get_char(i) != prefix.get_char(i) {
            proof {
                assert(s@.subrange(0, n as int)[i as int] == s@[i as int]);
            }
            return None;
        }
        i = i + 1;
    }
    proof {
        assert(s@.subrange(0, n as int) =~= prefix@);
    }
    Some(s.substring_char(n, m))
}

/// The path prefix of the runtime services.
pub open spec fn runtime_prefix() -> Seq<u8> {
    "tilde.runtime.v1.".spec_bytes()
}

/// The path prefix of the ingress services.
pub open spec fn ingress_prefix() -> Seq<u8> {
    "tilde.ingress.v1.".spec_bytes()
}

/// The route a path takes, or the refusal of a path that names no service the
/// proxy serves.
pub open spec fn route_of(path: &str) -> Result<Route, Fault> {
    if path@ == "v1/traces"@ || path@ == "v1/logs"@ {
        Ok(Route::Telemetry)
    } else if byte_prefix(path.spec_bytes(), runtime_prefix()) {
        Ok(Route::Runtime)
    } else if byte_prefix(path.spec_bytes(), ingress_prefix()) {
        Ok(Route::Ingress)
    } else {
        Err(Fault::Denied)
    }
}

/// Which service a proxied path reaches.
pub fn classify(path: &str) -> (r: Result<Route, Error>)
    ensures
        match r {
            Ok(route) => route_of(path) == Ok::<Route, Fault>(route),
            Err(e) => route_of(path) == Err::<Route, Fault>(e@),
        },
{
    if str_eq(path, "v1/traces") || str_eq(path, "v1/logs") {
        Ok(Route::Telemetry)
    } else if starts_with(path, "tilde.runtime.v1.") {
        Ok(Route::Runtime)
    } else if starts_with(path, "tilde.ingress.v1.") {
        Ok(Route::Ingress)
    } else {
        Err(Error::Denied)
    }
}

/// The token an `Authorization` header carries as a bearer credential; a
/// request without one is refused.
pub fn bearer(authorization: Option<&str>) -> (r: Result<&str, Error>)
    ensures
        match r {
            Ok(t) => (authorization matches Some(h) && has_prefix(h@, "Bearer "@)
                && t@ == h@.subrange(7, h@.len() as int)),
            Err(e) => e@ == Fault::Denied && match authorization {
                Some(h) => !has_prefix(h@, "Bearer "@),
                None => true,
            },
        },
{
    proof {
        reveal_strlit("Bearer ");
    }
    match authorization {
        Some(h) => match strip_prefix(h, "Bearer ") {
            Some(t) => Ok(t),
            None => Err(Error::Denied),
        },
        None => Err(Error::Denied),
    }
}

/// Paths of the invocation control service, which a revoked execution may
/// still call to observe and acknowledge its own stop.
pub fn is_control(path: &str) -> (r: bool)
    ensures
        r == byte_prefix(path.spec_bytes(), "tilde.runtime.v1.InvocationControlService/".spec_bytes()),
{
    starts_with(path, "tilde.runtime.v1.InvocationControlService/")
}

/// Paths of the agent registry service.
pub fn is_registry(path: &str) -> (r: bool)
    ensures
        r == byte_prefix(path.spec_bytes(), "tilde.runtime.v1.AgentService/".spec_bytes()),
{
    starts_with(path, "tilde.runtime.v1.AgentService/")
}

/// Paths whose authority stays with the replica holding a live conversation:
/// the registry and the start of a run.
pub fn needs_retained_authority(path: &str) -> (r: bool)
    ensures
        r == (byte_prefix(path.spec_bytes(), "tilde.runtime.v1.AgentService/".spec_bytes())
            || path@ == "tilde.runtime.v1.ChatService/StartRun"@),
{
    is_registry(path) || str_eq(path, "tilde.runtime.v1.ChatService/StartRun")
}

/// Whether an invocation token from an older generation of the agent is
/// refused: it is, except on the control service.
pub fn stale_generation(path: &str, token_generation: Option<i64>, current: i64) -> (r: bool)
    ensures
        r == (!byte_prefix(path.spec_bytes(), "tilde.runtime.v1.InvocationControlService/".spec_bytes())
            && (token_generation matches Some(g) && g != current)),
{
    !is_control(path) && match token_generation {
        Some(g) => g != current,
        None => false,
    }
}

/// Where a conversation's records are.
#[derive(Clone, Copy, PartialEq, Eq, Debug, Structural)]
pub enum Placement {
    /// Being retired from the sidecars: callers retry shortly.
    Retiring,
    /// Live on the sidecars: the request goes to the replica that has it.
    Live,
    /// Held by the gateway.
    Gateway,
}

/// The placement a stored location names.
pub fn placement(storage: Option<&str>) -> (r: Placement)
    ensures
        r == match storage {
            Some(s) => if s@ == "retiring"@ {
                Placement::Retiring
            } else if s@ == "corrosion"@ {
                Placement::Live
            } else {
                Placement::Gateway
            },
            None => Placement::Gateway,
        },
{
    match storage {
        Some(s) => if str_eq(s, "retiring") {
            Placement::Retiring
        } else if str_eq(s, "corrosion") {
            Placement::Live
        } else {
            Placement::Gateway
        },
        None => Placement::Gateway,
    }
}

/// What an invocation token claims.
#[derive(Debug)]
pub struct RuntimeScope {
    pub thread: u128,
    pub run: u128,
    pub assignment_generation: u64,
}

/// The invocation as the gateway records it.
#[derive(Debug)]
pub struct InvocationRecord {
    pub thread: u128,
    pub run: u128,
    pub status: String,
    /// Milliseconds since the epoch at which its lease ends, if it has one.
    pub lease_expires_at: Option<i64>,
}

/// The thread's current executor as the gateway records it.
#[derive(Debug)]
pub struct OwnerRecord {
    pub generation: i64,
    pub stopped: bool,
}

/// Whether an invocation token may still act through the proxy: its
/// invocation runs the claimed thread and run under a lease that has not
/// ended, and the thread's executor is the claimed, unstopped generation.
pub open spec fn scope_holds(claims: RuntimeScope, invocation: InvocationRecord, owner: OwnerRecord, now: i64) -> bool {
    &&& invocation.thread == claims.thread
    &&& invocation.run == claims.run
    &&& invocation.status@ == "running"@
    &&& (invocation.lease_expires_at matches Some(until) && until >= now)
    &&& owner.generation == claims.assignment_generation as i64
    &&& !owner.stopped
}

/// Checks an invocation token against the records it claims.
pub fn check_scope(claims: &RuntimeScope, invocation: &InvocationRecord, owner: &OwnerRecord, now: i64) -> (r: Result<(), Error>)
    ensures
        r is Ok <==> scope_holds(*claims, *invocation, *owner, now),
        match r {
            Err(e) => e@ == Fault::Denied,
            Ok(_) => true,
        },
{
    let lease_live = match invocation.lease_expires_at {
        Some(until) => until >= now,
        None => false,
    };
    if invocation.thread != claims.thread || invocation.run != claims.run
        || !str_eq(invocation.status.as_str(), "running") || !lease_live
    {
        return Err(Error::Denied);
    }
    if owner.generation != claims.assignment_generation as i64 || owner.stopped {
        return Err(Error::Denied);
    }
    Ok(())
}

/// An ingress token scoped to one conversation reaches no other.
pub fn check_ingress_thread(token_thread: Option<u128>, target: u128) -> (r: Result<(), Error>)
    ensures
        r is Ok <==> !((token_thread matches Some(t) && t != target)),
        match r {
            Err(e) => e@ == Fault::Denied,
            Ok(_) => true,
        },
{
    match token_thread {
        Some(t) => if t != target {
            Err(Error::Denied)
        } else {
            Ok(())
        },
        None => Ok(()),
    }
}

/// The method a service path names: what follows its last `/`.
pub open spec fn last_segment(path: Seq<char>) -> Seq<char> {
    if exists|i: int| 0 <= i < path.len() && path[i] == '/' {
        let i = choose|i: int| 0 <= i < path.len() && path[i] == '/'
            && forall|j: int| i < j < path.len() ==> path[j] != '/';
        path.subrange(i + 1, path.len() as int)
    } else {
        path
    }
}

/// `path.rsplit('/').next()`: the method a path names.
pub fn method_of(path: &str) -> (r: &str)
    ensures
        r@ == last_segment(path@),
{
    let n = path.unicode_len();
    let mut i: usize = n;
    while i > 0
        invariant
            n == path@.len(),
            0 <= i <= n,
            forall|j: int| i <= j < n ==> path@[j] != '/',
        decreases i,
    {
        if path.get_char(i - 1) == '/' {
            proof {
                let k = (i - 1) as int;
                assert forall|k2: int| 0 <= k2 < n && path@[k2] == '/' && (forall|j: int| k2 < j < n ==> path@[j] != '/')
                    implies k2 == k by {
                    if k2 < k {
                        assert(path@[k] == '/');
                    }
                }
            }
            return path.substring_char(i, n);
        }
        i = i - 1;
    }
    proof {
        assert(path@.subrange(0, n as int) =~= path@);
    }
    path.substring_char(0, n)
}

/// An ingress token scoped to one conversation reaches only it: a call for
/// another conversation, or for none, is refused.
pub fn check_public_scope(target: Option<u128>, token_thread: Option<u128>) -> (r: Result<(), Error>)
    ensures
        r is Ok <==> match target {
            Some(t) => !(token_thread matches Some(s) && s != t),
            None => token_thread is None,
        },
        match r {
            Err(e) => e@ == Fault::Denied,
            Ok(_) => true,
        },
{
    match target {
        Some(t) => match token_thread {
            Some(s) => if s != t { Err(Error::Denied) } else { Ok(()) },
            None => Ok(()),
        },
        None => match token_thread {
            Some(_) => Err(Error::Denied),
            None => Ok(()),
        },
    }
}

/// Sidecar conversations are not watched through the gateway's ingress.
pub fn check_sidecar_method(method: &str) -> (r: Result<(), Error>)
    ensures
        r is Ok <==> method@ != "WatchThread"@,
        match r {
            Err(e) => e@ == Fault::Invalid("Watch sidecar conversations through the sidecar or the management API"@),
            Ok(_) => true,
        },
{
    if str_eq(method, "WatchThread") {
        Err(Error::Invalid("Watch sidecar conversations through the sidecar or the management API".to_owned()))
    } else {
        Ok(())
    }
}

/// The HTTP status a relayed answer is given: its own, read as 16 bits,
/// where that is a valid status (100 to 999), and 502 otherwise.
pub fn relayed_status(status: i32) -> (r: u16)
    ensures
        r == if 100 <= (status as u16) <= 999 { status as u16 } else { 502u16 },
{
    let s = status as u16;
    if 100 <= s && s <= 999 {
        s
    } else {
        502
    }
}

/// The credential a sidecar sends in its `x-tilde-sidecar-token` header; a
/// request without it (or with one that is no visible text) is refused.
pub fn sidecar_credential(header: Option<&str>) -> (r: Result<&str, Error>)
    ensures
        match header {
            Some(h) => (r matches Ok(c) && c@ == h@),
            None => (r matches Err(e) && e@ == Fault::Denied),
        },
{
    match header {
        Some(h) => Ok(h),
        None => Err(Error::Denied),
    }
}

/// A sidecar may call only on behalf of the agent its credential
/// authenticates.
pub fn check_sidecar(authenticated: u128, agent: u128) -> (r: Result<(), Error>)
    ensures
        r is Ok <==> authenticated == agent,
        r matches Err(e) ==> e@ == Fault::Denied,
{
    if authenticated != agent {
        Err(Error::Denied)
    } else {
        Ok(())
    }
}

/// Seconds of clock difference an expiry is allowed, as the token library's
/// default validation allows.
pub const EXPIRY_LEEWAY: i64 = 60;

/// Whether the claims of a decoded invocation token admit a call for
/// `agent` at `now`: issued for invocations, meant for the agent API, not
/// expired beyond the leeway, and for this agent.
pub open spec fn runtime_claims_admit(c: RuntimeClaims, agent: u128, now: i64) -> bool {
    &&& c.iss@ == ISSUER@
    &&& c.aud@ == AUDIENCE@
    &&& now - EXPIRY_LEEWAY <= c.exp
    &&& c.sub == agent
}

/// Checks the claims of a decoded invocation token; any failure is refused.
pub fn check_runtime_claims(c: &RuntimeClaims, agent: u128, now: i64) -> (r: Result<(), Error>)
    ensures
        r is Ok <==> runtime_claims_admit(*c, agent, now),
        r matches Err(e) ==> e@ == Fault::Denied,
{
    if !str_eq(c.iss.as_str(), ISSUER) || !str_eq(c.aud.as_str(), AUDIENCE) {
        return Err(Error::Denied);
    }
    if (c.exp as i128) < (now as i128) - (EXPIRY_LEEWAY as i128) {
        return Err(Error::Denied);
    }
    check_sidecar(c.sub, agent)
}

} // verus!
