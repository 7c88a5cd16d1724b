//! How a sidecar answers an ingress call: whether the gateway resolves it,
//! the credential's scope refuses it, the replica holding its conversation
//! takes it, or it runs here; and the provider's subscription challenge.
use vstd::prelude::*;
use crate::crypto::constant_time_eq;
use crate::deployment::proxy::{last_segment, method_of};
use crate::deployment::wire::ChatError;
use crate::ids::{hyphenated, uuid_text};
use crate::text::{str_eq, strip_end, trim_end_char};
use vstd::string::*;
use vstd::utf8::*;

verus! {

broadcast use encode_utf8_decode_utf8;

/// What an ingress call comes to before this replica's hold on its
/// conversation is known.
#[derive(Debug)]
pub enum IngressRoute {
    /// Known only elsewhere: the gateway resolves the conversation from the call.
    Gateway,
    /// Refused for the credential's scope, with the reason.
    Refused(String),
    /// A call about this conversation; whether this replica holds it decides.
    Conversation(u128),
    /// A call about no conversation: it runs here.
    Local,
}

/// Agent-wide listings, and pages of history before a message, come from the
/// projection, the only place that sees every replica's conversations.
pub fn is_listing(method: &str, older_page: bool) -> (r: bool)
    ensures
        r == (method@ == "ListThreads"@ || (method@ == "ListMessages"@ && older_page)),
{
    str_eq(method, "ListThreads") || (str_eq(method, "ListMessages") && older_page)
}

/// Routes an ingress call from the conversation it names (`found`: none,
/// one, or an error in finding it) and the conversation the credential is
/// scoped to, if any. A listing, or a conversation not known here, goes to
/// the gateway; a credential scoped to another conversation, or to one while
/// the call names none, is refused; other errors stand.
pub fn ingress_route(listing: bool, found: Result<Option<u128>, ChatError>, scope: Option<u128>) -> (r: Result<IngressRoute, ChatError>)
    ensures
        match found {
            Err(ChatError::NotFound) => r matches Ok(IngressRoute::Gateway),
            Err(e) => r == Err::<IngressRoute, ChatError>(e),
            Ok(_) if listing => r matches Ok(IngressRoute::Gateway),
            Ok(Some(t)) => if (scope matches Some(s) && s != t) {
                r matches Ok(IngressRoute::Refused(m)) && m@ == "Credential is scoped to another conversation"@
            } else {
                r matches Ok(IngressRoute::Conversation(c)) && c == t
            },
            Ok(None) => if scope is Some {
                r matches Ok(IngressRoute::Refused(m)) && m@ == "Credential requires a conversation-scoped operation"@
            } else {
                r matches Ok(IngressRoute::Local)
            },
        },
{
    match found {
        Err(ChatError::NotFound) => Ok(IngressRoute::Gateway),
        Err(e) => Err(e),
        Ok(_) if listing => Ok(IngressRoute::Gateway),
        Ok(Some(t)) => match scope {
            Some(s) if s != t => Ok(IngressRoute::Refused("Credential is scoped to another conversation".to_owned())),
            _ => Ok(IngressRoute::Conversation(t)),
        },
        Ok(None) => match scope {
            Some(_) => Ok(IngressRoute::Refused("Credential requires a conversation-scoped operation".to_owned())),
            None => Ok(IngressRoute::Local),
        },
    }
}

/// Where a call about a conversation goes once this replica tried to hold it.
#[derive(Debug)]
pub enum HeldRoute {
    /// This replica holds it: the call runs here.
    Here,
    /// Another live replica holds it: the call is handed to it at this address.
    HandOff(String),
    /// Nobody live holds it and this replica could not take it: the gateway
    /// finds a replica that can.
    Gateway(u128),
}

/// Routes a call about `thread` from loading it here (`Ok` with whether this
/// replica owns it; refused or unknown count as not held) and the address of
/// a live replica known to hold it. Other errors in loading stand.
pub fn held_route(thread: u128, loaded: Result<bool, ChatError>, elsewhere: Option<String>) -> (r: Result<HeldRoute, ChatError>)
    ensures
        match loaded {
            Ok(true) => r matches Ok(HeldRoute::Here),
            Ok(false) | Err(ChatError::Denied) | Err(ChatError::NotFound) => match elsewhere {
                Some(url) => r matches Ok(HeldRoute::HandOff(u)) && u == url,
                None => r matches Ok(HeldRoute::Gateway(t)) && t == thread,
            },
            Err(e) => r == Err::<HeldRoute, ChatError>(e),
        },
{
    let held = match loaded {
        Ok(owns) => owns,
        Err(ChatError::Denied) => false,
        Err(ChatError::NotFound) => false,
        Err(e) => return Err(e),
    };
    if held {
        return Ok(HeldRoute::Here);
    }
    match elsewhere {
        Some(url) => Ok(HeldRoute::HandOff(url)),
        None => Ok(HeldRoute::Gateway(thread)),
    }
}

/// The chat service's path for the method a request path ends with, or
/// nothing where the path has no `/`.
pub open spec fn service_path_of(path: Seq<char>) -> Seq<char> {
    if exists|i: int| 0 <= i < path.len() && path[i] == '/' {
        "tilde.ingress.v1.ChatService/"@ + last_segment(path)
    } else {
        Seq::empty()
    }
}

/// Whether `path` holds a `/`.
fn has_slash(path: &str) -> (r: bool)
    ensures
        r == exists|i: int| 0 <= i < path@.len() && path@[i] == '/',
{
    let n = path.unicode_len();
    let mut i: usize = 0;
    while i < n
        invariant
            n == path@.len(),
            0 <= i <= n,
            forall|j: int| 0 <= j < i ==> path@[j] != '/',
        decreases n - i,
    {
        if path.get_char(i) == '/' {
            return true;
        }
        i = i + 1;
    }
    false
}

/// The chat service's path for the method a request path names.
pub fn service_path(path: &str) -> (r: String)
    ensures
        r@ == service_path_of(path@),
{
    if has_slash(path) {
        let mut r = "tilde.ingress.v1.ChatService/".to_owned();
        r.append(method_of(path));
        r
    } else {
        String::new()
    }
}

/// The address an ingress call is handed to on the replica at `url`.
pub open spec fn hand_off_target_of(url: Seq<char>, agent: u128, path: Seq<char>) -> Seq<char> {
    strip_end(url, '/') + "/agents/"@ + hyphenated(agent) + seq!['/'] + path
}

/// The address an ingress call is handed to on the replica at `url`: the
/// agent's path there, without doubling the slash after `url`.
pub fn hand_off_target(url: &str, agent: u128, path: &str) -> (r: String)
    ensures
        r@ == hand_off_target_of(url@, agent, path@),
{
    let mut r = trim_end_char(url, '/').to_owned();
    r.append("/agents/");
    let id = uuid_text(agent);
    r.append(id.as_str());
    r.append("/");
    r.append(path);
    proof {
        reveal_strlit("/");
        assert(r@ =~= hand_off_target_of(url@, agent, path@));
    }
    r
}

/// Whether a provider's subscription challenge is answered: only WhatsApp's,
/// for a subscription, with the verify token the connection keeps (compared
/// in constant time).
pub fn challenge_accepted(provider: &str, mode: &str, expected: Option<&str>, token: &str) -> (r: bool)
    ensures
        r == (provider@ == "whatsapp"@ && mode@ == "subscribe"@ && (expected matches Some(e) && e@ == token@)),
{
    if !str_eq(provider, "whatsapp") || !str_eq(mode, "subscribe") {
        return false;
    }
    match expected {
        Some(e) => {
            let same = constant_time_eq(e.as_bytes(), token.as_bytes());
            proof {
                if same {
                    assert(decode_utf8(encode_utf8(e@)) == e@);
                    assert(decode_utf8(encode_utf8(token@)) == token@);
                }
            }
            same
        },
        None => false,
    }
}

} // verus!
