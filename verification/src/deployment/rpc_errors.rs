//! How a replica reads the gateway's refusal of a relayed call.
use vstd::prelude::*;
use crate::deployment::wire::ChatError;

verus! {

/// The status codes of the Connect protocol.
#[derive(Clone, Copy, PartialEq, Eq, Debug, Structural)]
pub enum RpcCode {
    Canceled,
    Unknown,
    InvalidArgument,
    DeadlineExceeded,
    NotFound,
    AlreadyExists,
    PermissionDenied,
    ResourceExhausted,
    FailedPrecondition,
    Aborted,
    OutOfRange,
    Unimplemented,
    Internal,
    Unavailable,
    DataLoss,
    Unauthenticated,
}

/// The name a code is written under.
pub open spec fn code_name(c: RpcCode) -> Seq<char> {
    match c {
        RpcCode::Canceled => "Canceled"@,
        RpcCode::Unknown => "Unknown"@,
        RpcCode::InvalidArgument => "InvalidArgument"@,
        RpcCode::DeadlineExceeded => "DeadlineExceeded"@,
        RpcCode::NotFound => "NotFound"@,
        RpcCode::AlreadyExists => "AlreadyExists"@,
        RpcCode::PermissionDenied => "PermissionDenied"@,
        RpcCode::ResourceExhausted => "ResourceExhausted"@,
        RpcCode::FailedPrecondition => "FailedPrecondition"@,
        RpcCode::Aborted => "Aborted"@,
        RpcCode::OutOfRange => "OutOfRange"@,
        RpcCode::Unimplemented => "Unimplemented"@,
        RpcCode::Internal => "Internal"@,
        RpcCode::Unavailable => "Unavailable"@,
        RpcCode::DataLoss => "DataLoss"@,
        RpcCode::Unauthenticated => "Unauthenticated"@,
    }
}

/// The name of a code.
pub fn code_str(c: RpcCode) -> (r: &'static str)
    ensures
        r@ == code_name(c),
{
    match c {
        RpcCode::Canceled => "Canceled",
        RpcCode::Unknown => "Unknown",
        RpcCode::InvalidArgument => "InvalidArgument",
        RpcCode::DeadlineExceeded => "DeadlineExceeded",
        RpcCode::NotFound => "NotFound",
        RpcCode::AlreadyExists => "AlreadyExists",
        RpcCode::PermissionDenied => "PermissionDenied",
        RpcCode::ResourceExhausted => "ResourceExhausted",
        RpcCode::FailedPrecondition => "FailedPrecondition",
        RpcCode::Aborted => "Aborted",
        RpcCode::OutOfRange => "OutOfRange",
        RpcCode::Unimplemented => "Unimplemented",
        RpcCode::Internal => "Internal",
        RpcCode::Unavailable => "Unavailable",
        RpcCode::DataLoss => "DataLoss",
        RpcCode::Unauthenticated => "Unauthenticated",
    }
}

/// The error a refused relay becomes: a refusal of access, an unknown
/// conversation, an invalid request with the gateway's message, or any other
/// failure described by its code and message.
pub fn relay_error(code: RpcCode, message: Option<String>) -> (r: ChatError)
    ensures
        (code == RpcCode::PermissionDenied || code == RpcCode::Unauthenticated) ==> r matches ChatError::Denied,
        code == RpcCode::NotFound ==> r matches ChatError::NotFound,
        code == RpcCode::InvalidArgument ==> (r matches ChatError::Invalid(m) && m@ == match message {
            Some(t) => t@,
            None => Seq::<char>::empty(),
        }),
        !(code == RpcCode::PermissionDenied || code == RpcCode::Unauthenticated || code == RpcCode::NotFound
            || code == RpcCode::InvalidArgument) ==> (r matches ChatError::Invalid(m) && m@ == "Gateway relay failed: "@
            + code_name(code) + " "@ + match message {
                Some(t) => t@,
                None => Seq::<char>::empty(),
            }),
{
    match code {
        RpcCode::PermissionDenied | RpcCode::Unauthenticated => ChatError::Denied,
        RpcCode::NotFound => ChatError::NotFound,
        RpcCode::InvalidArgument => ChatError::Invalid(match message {
            Some(t) => t,
            None => String::new(),
        }),
        _ => {
            let mut m = "Gateway relay failed: ".to_owned();
            m.append(code_str(code));
            m.append(" ");
            match message {
                Some(t) => m.append(t.as_str()),
                None => {},
            }
            ChatError::Invalid(m)
        },
    }
}

/// The error a refused lookup of a participant becomes.
pub fn lookup_error(code: RpcCode) -> (r: ChatError)
    ensures
        code == RpcCode::NotFound ==> r matches ChatError::NotFound,
        code != RpcCode::NotFound ==> r matches ChatError::Transport,
{
    if code == RpcCode::NotFound {
        ChatError::NotFound
    } else {
        ChatError::Transport
    }
}

} // verus!
