//! Finding the conversation an ingress request concerns before choosing where
//! it is stored: the request's framing, and which field names the thread.
use vstd::prelude::*;
use crate::deployment::wire::ChatError;
use crate::text::str_eq;

verus! {

/// Whether `pattern` occurs in `s`.
pub open spec fn occurs(s: Seq<char>, pattern: Seq<char>) -> bool {
    exists|i: int| 0 <= i && i + pattern.len() <= s.len() && #[trigger] s.subrange(i, i + pattern.len()) == pattern
}

/// `s.contains(pattern)`.
pub fn contains(s: &str, pattern: &str) -> (r: bool)
    ensures
        r == occurs(s@, pattern@),
{
    let n = s.unicode_len();
    let m = pattern.unicode_len();
    if m > n {
        return false;
    }
    let mut i: usize = 0;
    while i <= n - m
        invariant
            n == s@.len(),
            m == pattern@.len(),
            m <= n,
            0 <= i <= n - m + 1,
            forall|k: int| 0 <= k < i ==> #[trigger] s@.subrange(k, k + m) != pattern@,
        decreases n - i,
    {
        let mut j: usize = 0;
        while j < m && s.get_char(i + j) == pattern.get_char(j)
            invariant
                n == s@.len(),
                m == pattern@.len(),
                i + m <= n,
                0 <= j <= m,
                forall|k: int| 0 <= k < j ==> s@[i + k] == pattern@[k],
            decreases m - j,
        {
            j = j + 1;
        }
        if j == m {
            assert(s@.subrange(i as int, i + m) =~= pattern@);
            return true;
        }
        assert(s@.subrange(i as int, i + m)[j as int] != pattern@[j as int]);
        i = i + 1;
    }
    proof {
        assert forall|k: int| 0 <= k && k + m <= n implies #[trigger] s@.subrange(k, k + m) != pattern@ by {
        }
    }
    false
}

/// How a request body is encoded.
#[derive(Clone, Copy, PartialEq, Eq, Debug, Structural)]
pub enum Encoding {
    Json,
    Protobuf,
}

/// Where a request's message lies in its body: the whole body, or the one
/// frame of a Connect streaming request (a zero flag byte, a big-endian
/// length, then the message), and how it is encoded.
pub open spec fn message_span(body: Seq<u8>, content_type: Seq<char>) -> Result<(int, int), Seq<char>> {
    if occurs(content_type, "connect+"@) {
        if body.len() < 5 || body[0] != 0 {
            Err("Invalid Connect request frame"@)
        } else {
            let length = body[1] as int * 0x1000000 + body[2] as int * 0x10000 + body[3] as int * 0x100 + body[4] as int;
            if 5 + length <= body.len() {
                Ok((5, 5 + length))
            } else {
                Err("Incomplete Connect request"@)
            }
        }
    } else {
        Ok((0, body.len() as int))
    }
}

/// The span of a request's message and its encoding, or why the framing is refused.
pub fn framing(body: &[u8], content_type: &str) -> (r: Result<(usize, usize, Encoding), ChatError>)
    ensures
        match r {
            Ok((a, b, enc)) => message_span(body@, content_type@) == Ok::<(int, int), Seq<char>>((a as int, b as int))
                && (enc == Encoding::Json <==> occurs(content_type@, "json"@)),
            Err(ChatError::Invalid(m)) => message_span(body@, content_type@) == Err::<(int, int), Seq<char>>(m@),
            Err(_) => false,
        },
{
    let encoding = if contains(content_type, "json") { Encoding::Json } else { Encoding::Protobuf };
    if contains(content_type, "connect+") {
        if body.len() < 5 || body[0] != 0 {
            return Err(ChatError::Invalid("Invalid Connect request frame".to_owned()));
        }
        let length: u64 = body[1] as u64 * 0x1000000 + body[2] as u64 * 0x10000 + body[3] as u64 * 0x100
            + body[4] as u64;
        if 5 + length <= body.len() as u64 {
            Ok((5, (5 + length) as usize, encoding))
        } else {
            Err(ChatError::Invalid("Incomplete Connect request".to_owned()))
        }
    } else {
        Ok((0, body.len(), encoding))
    }
}

/// Which request field names the conversation of an ingress method.
#[derive(Clone, Copy, PartialEq, Eq, Debug, Structural)]
pub enum ThreadSource {
    /// The request's own `id` is the thread.
    ThreadId,
    /// The request's `thread_id` field.
    ThreadField,
    /// The thread of the run the request's `id` names.
    Run,
    /// The thread of the invocation the request's `invocation_id` names.
    Invocation,
    /// The method concerns no existing conversation.
    Unscoped,
}

/// The methods whose request carries a `thread_id`.
pub open spec fn thread_field_method(m: Seq<char>) -> bool {
    m == "PostMessage"@ || m == "ListMessages"@ || m == "StartRun"@ || m == "AddParticipant"@
        || m == "RemoveParticipant"@ || m == "SetTyping"@ || m == "ListActivity"@
        || m == "UploadAttachment"@ || m == "DownloadAttachment"@ || m == "WatchThread"@
}

/// Where an ingress method's conversation is found, or `None` for an unknown method.
pub open spec fn source_of(m: Seq<char>) -> Option<ThreadSource> {
    if m == "GetThread"@ {
        Some(ThreadSource::ThreadId)
    } else if thread_field_method(m) {
        Some(ThreadSource::ThreadField)
    } else if m == "GetRun"@ || m == "ResumeRun"@ {
        Some(ThreadSource::Run)
    } else if m == "SteerInvocation"@ || m == "CancelInvocation"@ || m == "SuspendInvocation"@ {
        Some(ThreadSource::Invocation)
    } else if m == "CreateThread"@ || m == "CreateUser"@ || m == "ListThreads"@ {
        Some(ThreadSource::Unscoped)
    } else {
        None
    }
}

/// Where an ingress method's conversation is found; an unknown method is refused.
pub fn thread_source(method: &str) -> (r: Result<ThreadSource, ChatError>)
    ensures
        match r {
            Ok(s) => source_of(method@) == Some(s),
            Err(ChatError::Invalid(m)) => source_of(method@) is None && m@ == "Unknown ingress method"@,
            Err(_) => false,
        },
{
    if str_eq(method, "GetThread") {
        Ok(ThreadSource::ThreadId)
    } else if str_eq(method, "PostMessage") || str_eq(method, "ListMessages") || str_eq(method, "StartRun")
        || str_eq(method, "AddParticipant") || str_eq(method, "RemoveParticipant")
        || str_eq(method, "SetTyping") || str_eq(method, "ListActivity")
        || str_eq(method, "UploadAttachment") || str_eq(method, "DownloadAttachment")
        || str_eq(method, "WatchThread")
    {
        Ok(ThreadSource::ThreadField)
    } else if str_eq(method, "GetRun") || str_eq(method, "ResumeRun") {
        Ok(ThreadSource::Run)
    } else if str_eq(method, "SteerInvocation") || str_eq(method, "CancelInvocation")
        || str_eq(method, "SuspendInvocation")
    {
        Ok(ThreadSource::Invocation)
    } else if str_eq(method, "CreateThread") || str_eq(method, "CreateUser") || str_eq(method, "ListThreads") {
        Ok(ThreadSource::Unscoped)
    } else {
        Err(ChatError::Invalid("Unknown ingress method".to_owned()))
    }
}

/// An agent creates threads only as their primary agent, and lists only its
/// own: a creation for another agent, or a listing filtered to another agent,
/// is refused. `primary_agent` is the primary agent a `CreateThread` request
/// names and `listed_agent` the agent a `ListThreads` request filters on, as
/// read from the request.
pub fn check_creation_scope(
    agent: u128,
    method: &str,
    primary_agent: Option<u128>,
    listed_agent: Option<u128>,
) -> (r: Result<(), ChatError>)
    ensures
        match r {
            Ok(_) => !(method@ == "CreateThread"@ && (primary_agent matches Some(a) && a != agent))
                && !(method@ == "ListThreads"@ && (listed_agent matches Some(a) && a != agent)),
            Err(ChatError::Denied) => (method@ == "CreateThread"@ && (primary_agent matches Some(a) && a != agent))
                || (method@ == "ListThreads"@ && (listed_agent matches Some(a) && a != agent)),
            Err(_) => false,
        },
{
    if str_eq(method, "CreateThread") {
        match primary_agent {
            Some(a) => if a != agent {
                return Err(ChatError::Denied);
            },
            None => {},
        }
    }
    if str_eq(method, "ListThreads") {
        match listed_agent {
            Some(a) => if a != agent {
                return Err(ChatError::Denied);
            },
            None => {},
        }
    }
    Ok(())
}

} // verus!
