//! The library's error type.
use vstd::prelude::*;

verus! {

/// How a database refused a statement, as far as the service distinguishes it.
#[derive(Clone, Copy, PartialEq, Eq, Debug, Structural)]
pub enum DatabaseFault {
    UniqueViolation,
    ForeignKeyViolation,
    CheckViolation,
    Other,
}

/// Errors of the connection and deployment services.
#[derive(Debug)]
pub enum Error {
    Invalid(String),
    ConnectionAuthorizationRequired,
    Encryption,
    NotFound,
    Denied,
    Conflict,
    /// The agent must be paused first.
    AgentNotPaused,
    /// The connection is assigned elsewhere.
    ConnectionAssignmentConflict,
    Database(DatabaseFault),
}

/// What an [`Error`] says, with its message as text.
pub enum Fault {
    Invalid(Seq<char>),
    ConnectionAuthorizationRequired,
    Encryption,
    NotFound,
    Denied,
    Conflict,
    AgentNotPaused,
    ConnectionAssignmentConflict,
    Database(DatabaseFault),
}

impl View for Error {
    type V = Fault;

    open spec fn view(&self) -> Fault {
        match self {
            Error::Invalid(m) => Fault::Invalid(m@),
            Error::ConnectionAuthorizationRequired => Fault::ConnectionAuthorizationRequired,
            Error::Encryption => Fault::Encryption,
            Error::NotFound => Fault::NotFound,
            Error::Denied => Fault::Denied,
            Error::Conflict => Fault::Conflict,
            Error::AgentNotPaused => Fault::AgentNotPaused,
            Error::ConnectionAssignmentConflict => Fault::ConnectionAssignmentConflict,
            Error::Database(d) => Fault::Database(*d),
        }
    }
}

/// The fault a result carries, if any.
pub open spec fn fault_of<T>(r: Result<T, Error>) -> Option<Fault> {
    match r {
        Ok(_) => None,
        Err(e) => Some(e@),
    }
}

/// The fault of a rejected input with the given message.
pub open spec fn invalid_fault(message: Seq<char>) -> Option<Fault> {
    Some(Fault::Invalid(message))
}

/// An input rejected with `message`.
pub fn invalid(message: &str) -> (e: Error)
    ensures
        e@ == Fault::Invalid(message@),
{
    Error::Invalid(message.to_owned())
}

impl Error {
    /// The text that describes the error.
    pub fn message(&self) -> (m: String)
        ensures
            self matches Error::Invalid(t) ==> m@ == t@,
    {
        match self {
            Error::Invalid(m) => m.clone(),
            Error::ConnectionAuthorizationRequired => "Connection authorization required".to_owned(),
            Error::Encryption => "Encryption failed".to_owned(),
            Error::NotFound => "Not found".to_owned(),
            Error::Denied => "Denied".to_owned(),
            Error::Conflict => "Conflict".to_owned(),
            Error::AgentNotPaused => "Pause the agent first".to_owned(),
            Error::ConnectionAssignmentConflict => "Connection is assigned elsewhere".to_owned(),
            Error::Database(_) => "Database error".to_owned(),
        }
    }
}

} // verus!
