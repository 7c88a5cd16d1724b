//! Typed provider events as they travel between replicas: their kinds and
//! formats on the wire, and what an edit or a removal from the provider does
//! to a stored message.
use vstd::prelude::*;
use crate::deployment::store::{Message, ThreadState, lookup, millis_fit};
use crate::deployment::wire::ChatError;
use crate::error::{Error, Fault, invalid};
use crate::ids::parsed_uuid;
use crate::text::str_eq;

verus! {

/// What happened at the provider.
#[derive(Clone, Copy, PartialEq, Eq, Debug, Structural)]
pub enum IncomingKind {
    Message,
    Updated,
    Deleted,
    /// The sender started (`true`) or stopped typing.
    Typing(bool),
    /// The sender joined (`true`) or left the conversation.
    Membership(bool),
}

/// The kind of a provider event on the wire; `Unspecified` is what an
/// unknown or missing kind reads as.
#[derive(Clone, Copy, PartialEq, Eq, Debug, Structural)]
pub enum ProviderEventKind {
    Unspecified,
    Message,
    Updated,
    Deleted,
    Typing,
    Membership,
}

/// The wire kind of an event and its `active` flag (set for typing and
/// membership only).
pub open spec fn wire_kind_of(kind: IncomingKind) -> (ProviderEventKind, bool) {
    match kind {
        IncomingKind::Message => (ProviderEventKind::Message, false),
        IncomingKind::Updated => (ProviderEventKind::Updated, false),
        IncomingKind::Deleted => (ProviderEventKind::Deleted, false),
        IncomingKind::Typing(v) => (ProviderEventKind::Typing, v),
        IncomingKind::Membership(v) => (ProviderEventKind::Membership, v),
    }
}

/// The wire kind of an event and its `active` flag.
pub fn wire_kind(kind: IncomingKind) -> (r: (ProviderEventKind, bool))
    ensures
        r == wire_kind_of(kind),
{
    match kind {
        IncomingKind::Message => (ProviderEventKind::Message, false),
        IncomingKind::Updated => (ProviderEventKind::Updated, false),
        IncomingKind::Deleted => (ProviderEventKind::Deleted, false),
        IncomingKind::Typing(v) => (ProviderEventKind::Typing, v),
        IncomingKind::Membership(v) => (ProviderEventKind::Membership, v),
    }
}

/// What a wire kind reads as; an unspecified kind is refused.
pub open spec fn incoming_kind_of(kind: ProviderEventKind, active: bool) -> Result<IncomingKind, Fault> {
    match kind {
        ProviderEventKind::Message => Ok(IncomingKind::Message),
        ProviderEventKind::Updated => Ok(IncomingKind::Updated),
        ProviderEventKind::Deleted => Ok(IncomingKind::Deleted),
        ProviderEventKind::Typing => Ok(IncomingKind::Typing(active)),
        ProviderEventKind::Membership => Ok(IncomingKind::Membership(active)),
        ProviderEventKind::Unspecified => Err(Fault::Invalid("Invalid provider event kind"@)),
    }
}

/// Reads a wire kind.
pub fn incoming_kind(kind: ProviderEventKind, active: bool) -> (r: Result<IncomingKind, Error>)
    ensures
        match r {
            Ok(k) => incoming_kind_of(kind, active) == Ok::<IncomingKind, Fault>(k),
            Err(e) => incoming_kind_of(kind, active) == Err::<IncomingKind, Fault>(e@),
        },
{
    match kind {
        ProviderEventKind::Message => Ok(IncomingKind::Message),
        ProviderEventKind::Updated => Ok(IncomingKind::Updated),
        ProviderEventKind::Deleted => Ok(IncomingKind::Deleted),
        ProviderEventKind::Typing => Ok(IncomingKind::Typing(active)),
        ProviderEventKind::Membership => Ok(IncomingKind::Membership(active)),
        ProviderEventKind::Unspecified => Err(invalid("Invalid provider event kind")),
    }
}

/// An event handed to another replica reads there as the event it was.
pub proof fn law_kind_round_trip(kind: IncomingKind)
    ensures
        incoming_kind_of(wire_kind_of(kind).0, wire_kind_of(kind).1) == Ok::<IncomingKind, Fault>(kind),
{
}

/// The message formats a provider event may carry.
pub open spec fn known_format(format: Seq<char>) -> bool {
    format == "text"@ || format == "html"@ || format == "markdown"@ || format == "slack_mrkdwn"@
        || format == "whatsapp"@
}

/// Reads a message format, refusing one a provider event may not carry.
pub fn message_format(format: &str) -> (r: Result<&'static str, Error>)
    ensures
        known_format(format@) ==> (r matches Ok(f) && f@ == format@),
        !known_format(format@) ==> (r matches Err(e) && e@ == Fault::Invalid("Invalid provider message format"@)),
{
    if str_eq(format, "text") {
        Ok("text")
    } else if str_eq(format, "html") {
        Ok("html")
    } else if str_eq(format, "markdown") {
        Ok("markdown")
    } else if str_eq(format, "slack_mrkdwn") {
        Ok("slack_mrkdwn")
    } else if str_eq(format, "whatsapp") {
        Ok("whatsapp")
    } else {
        Err(invalid("Invalid provider message format"))
    }
}

/// The event that records a change of membership.
pub fn membership_event_kind(active: bool) -> (r: &'static str)
    ensures
        active ==> r@ == "participant.joined"@,
        !active ==> r@ == "participant.left"@,
{
    if active { "participant.joined" } else { "participant.left" }
}

impl ThreadState {
    /// Applies an edit, or a removal (`deleted`), from the provider to the
    /// message stored under `key`: its text becomes `text` and its status
    /// `deleted` or `complete`. A message that is not stored is refused.
    pub fn edit_message(&mut self, key: u128, text: &str, deleted: bool) -> (r: Result<Message, ChatError>)
        requires
            old(self).wf(),
        ensures
            final(self).wf(),
            lookup(old(self).messages@, key) is None ==> (r matches Err(ChatError::NotFound)) && *final(self) == *old(self),
            lookup(old(self).messages@, key) matches Some(prior) ==> (r matches Ok(m) && {
                &&& m.text@ == text@
                &&& m.status@ == (if deleted { "deleted"@ } else { "complete"@ })
                &&& m.id == prior.id && m.thread_id == prior.thread_id && m.participant_id == prior.participant_id
                &&& m.created_seconds == prior.created_seconds && m.created_nanos == prior.created_nanos
                &&& lookup(final(self).messages@, key) == Some(m)
                &&& forall|k: u128| k != key ==> #[trigger] lookup(final(self).messages@, k) == lookup(old(self).messages@, k)
            }),
            final(self).commands@ == old(self).commands@,
            final(self).invocations@ == old(self).invocations@,
            final(self).runs@ == old(self).runs@,
            final(self).events@ == old(self).events@,
            final(self).sequence == old(self).sequence,
            final(self).lease == old(self).lease,
    {
        let mut m = match self.message(key) {
            Some(m) => m.duplicate(),
            None => return Err(ChatError::NotFound),
        };
        proof {
            assert(lookup(old(self).messages@, key) == Some(m));
        }
        m.text = text.to_owned();
        m.status = if deleted { "deleted".to_owned() } else { "complete".to_owned() };
        let stored = m.duplicate();
        self.upsert_message(m);
        Ok(stored)
    }
}

} // verus!
