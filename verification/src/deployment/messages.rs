//! Messages of a conversation this replica holds: pages of its history,
//! what posting a message is refused for, and the deltas and end of a
//! message that streams.
use vstd::prelude::*;
use crate::deployment::ingest::Participant;
use crate::deployment::store::{Message, QueuedEvent, StoredMessage, ThreadState, has_key, lookup, millis_fit, window};
use crate::deployment::wire::ChatError;
use crate::ids::{hyphenated, parse_uuid, parsed_uuid, random_id, uuid_text};
use crate::text::{blen, byte_len, str_eq};

verus! {

/// The most items a page holds.
pub const PAGE_LIMIT: u32 = 100;
/// The most bytes a message's text may hold.
pub const MESSAGE_BYTES: usize = 1048576;
/// The most attachments a message may carry.
pub const ATTACHMENT_LIMIT: usize = 20;

/// The number of items a page holds: the limit asked for, at most 100, and
/// 100 where none is asked for.
pub open spec fn page_size_of(limit: u32) -> u32 {
    if limit == 0 {
        PAGE_LIMIT
    } else if limit < PAGE_LIMIT {
        limit
    } else {
        PAGE_LIMIT
    }
}

/// The number of items a page holds for `limit`.
pub fn page_size(limit: u32) -> (r: u32)
    ensures
        r == page_size_of(limit),
{
    if limit == 0 {
        PAGE_LIMIT
    } else if limit < PAGE_LIMIT {
        limit
    } else {
        PAGE_LIMIT
    }
}

/// A page of messages, newest first, and the identifier of the last one to
/// continue before where older ones remain (empty where none do).
#[derive(Debug)]
pub struct MessagePage {
    pub messages: Vec<Message>,
    pub next_page_token: String,
}

/// The newest `size` of the messages stored before position `end`, newest first.
pub open spec fn page_rows(s: Seq<StoredMessage>, end: int, size: int) -> Seq<Message> {
    Seq::new((if end < size { end } else { size }) as nat, |k: int| s[end - 1 - k].message)
}

/// All messages stored before position `end`, newest first.
pub open spec fn newest_first(s: Seq<StoredMessage>, end: int) -> Seq<Message> {
    Seq::new(end as nat, |k: int| s[end - 1 - k].message)
}

/// `pg` is the page of `size` messages before position `end` of `s`.
pub open spec fn paged(s: Seq<StoredMessage>, end: int, size: int, pg: MessagePage) -> bool {
    &&& pg.messages@ == page_rows(s, end, size)
    &&& pg.next_page_token@ == if end > size { s[end - size].message.id@ } else { Seq::<char>::empty() }
}

/// Whether an active participant has identifier `id`.
pub open spec fn active_member(ps: Seq<Participant>, id: Seq<char>) -> bool {
    exists|i: int| 0 <= i < ps.len() && (#[trigger] ps[i]).id@ == id && ps[i].active
}

/// Whether an active participant has identifier `id`.
fn is_active_member(ps: &Vec<Participant>, id: &str) -> (r: bool)
    ensures
        r == active_member(ps@, id@),
{
    let mut i: usize = 0;
    while i < ps.len()
        invariant
            0 <= i <= ps@.len(),
            forall|j: int| 0 <= j < i ==> !((#[trigger] ps@[j]).id@ == id@ && ps@[j].active),
        decreases ps@.len() - i,
    {
        if ps[i].active && str_eq(ps[i].id.as_str(), id) {
            return true;
        }
        i = i + 1;
    }
    false
}

/// What posting a message comes to once it is not refused: the message
/// already stored under its identifier (a retry), or a new message with its
/// identifier, conversation and author read.
#[derive(Debug)]
pub enum Posting {
    Existing(Message),
    New { key: u128, thread: u128, participant: u128 },
}

impl ThreadState {
    /// The page of at most `page_size_of(limit)` messages, newest first,
    /// stored before the message `before` (before all where none is named).
    /// A message named that is not stored is refused.
    pub fn page(&self, before: Option<u128>, limit: u32) -> (r: Result<MessagePage, ChatError>)
        requires
            self.wf(),
        ensures
            match before {
                None => r matches Ok(pg) && paged(self.messages@, self.messages@.len() as int, page_size_of(limit) as int, pg),
                Some(b) => if has_key(self.messages@, b) {
                    forall|p: int| 0 <= p < self.messages@.len() && #[trigger] self.messages@[p].key == b
                        ==> (r matches Ok(pg) && paged(self.messages@, p, page_size_of(limit) as int, pg))
                } else {
                    r matches Err(ChatError::NotFound)
                },
            },
    {
        let size = page_size(limit) as usize;
        let end: usize = match before {
            None => self.messages.len(),
            Some(b) => match self.position(b) {
                Some(p) => {
                    proof {
                        assert forall|q: int| 0 <= q < self.messages@.len() && #[trigger] self.messages@[q].key == b implies q == p by {
                            if q != p {
                                assert(self.messages@[q].key != self.messages@[p as int].key);
                            }
                        }
                    }
                    p
                },
                None => return Err(ChatError::NotFound),
            },
        };
        let count: usize = if end < size { end } else { size };
        let mut rows: Vec<Message> = Vec::new();
        let mut k: usize = 0;
        while k < count
            invariant
                0 <= k <= count,
                count <= end <= self.messages@.len(),
                count == (if end < size { end } else { size }),
                rows@.len() == k,
                forall|q: int| 0 <= q < k ==> #[trigger] rows@[q] == self.messages@[end - 1 - q].message,
            decreases count - k,
        {
            rows.push(self.messages[end - 1 - k].message.duplicate());
            k = k + 1;
        }
        let token = if end > size {
            self.messages[end - size].message.id.clone()
        } else {
            String::new()
        };
        let pg = MessagePage { messages: rows, next_page_token: token };
        proof {
            assert(pg.messages@ =~= page_rows(self.messages@, end as int, size as int));
        }
        Ok(pg)
    }

    /// What posting a message by `participant_id` comes to, for the replica
    /// that owns the conversation. Refused in this order: identifiers that do
    /// not parse; a message with neither text nor attachments; text over a
    /// mebibyte or more than twenty attachments; a replica that does not own
    /// the conversation; an author who is not an active participant; an
    /// addressee who is not one; a reply to a message that is not stored. A
    /// message already stored under the identifier is handed back where its
    /// author and text are the same, and refused otherwise.
    #[verifier::loop_isolation(false)]
    pub fn check_post(
        &self,
        owns: bool,
        participants: &Vec<Participant>,
        id: &str,
        thread_id: &str,
        participant_id: &str,
        text: &str,
        attachments: usize,
        addressed: &Vec<String>,
        reply: Option<&str>,
    ) -> (r: Result<Posting, ChatError>)
        requires
            self.wf(),
        ensures
            ({
                let ids = parsed_uuid(id@) is Some && parsed_uuid(thread_id@) is Some && parsed_uuid(participant_id@) is Some;
                let empty = text@.len() == 0 && attachments == 0;
                let large = blen(text@) > MESSAGE_BYTES || attachments > ATTACHMENT_LIMIT;
                let addressees = forall|i: int| 0 <= i < addressed@.len() ==> active_member(participants@, (#[trigger] addressed@[i])@);
                let replied = match reply {
                    None => true,
                    Some(m) => parsed_uuid(m@) matches Some(k) && lookup(self.messages@, k) is Some,
                };
                &&& !ids ==> (r matches Err(ChatError::Invalid(m)) && m@ == "Invalid UUID"@)
                &&& ids && empty ==> (r matches Err(ChatError::Invalid(m)) && m@ == "Message needs content"@)
                &&& ids && !empty && large ==> (r matches Err(ChatError::Invalid(m)) && m@ == "Message is too large"@)
                &&& ids && !empty && !large && (!owns || !active_member(participants@, participant_id@))
                    ==> (r matches Err(ChatError::Denied))
                &&& ids && !empty && !large && owns && active_member(participants@, participant_id@) && !addressees
                    ==> (r matches Err(ChatError::NotFound))
                &&& ids && !empty && !large && owns && active_member(participants@, participant_id@) && addressees
                    ==> match reply {
                        Some(m) if parsed_uuid(m@) is None => r matches Err(ChatError::Invalid(e)) && e@ == "Invalid UUID"@,
                        _ => if !replied {
                            r matches Err(ChatError::NotFound)
                        } else {
                            match lookup(self.messages@, parsed_uuid(id@).unwrap()) {
                                Some(old) => if old.participant_id@ == participant_id@ && old.text@ == text@ {
                                    r matches Ok(Posting::Existing(m)) && m == old
                                } else {
                                    r matches Err(ChatError::Conflict)
                                },
                                None => r matches Ok(Posting::New { key, thread, participant }) && key == parsed_uuid(id@).unwrap()
                                    && thread == parsed_uuid(thread_id@).unwrap() && participant == parsed_uuid(participant_id@).unwrap(),
                            }
                        },
                    }
            }),
    {
        let key = match parse_uuid(id) {
            Some(k) => k,
            None => return Err(ChatError::Invalid("Invalid UUID".to_owned())),
        };
        let thread = match parse_uuid(thread_id) {
            Some(k) => k,
            None => return Err(ChatError::Invalid("Invalid UUID".to_owned())),
        };
        let participant = match parse_uuid(participant_id) {
            Some(k) => k,
            None => return Err(ChatError::Invalid("Invalid UUID".to_owned())),
        };
        if text.unicode_len() == 0 && attachments == 0 {
            return Err(ChatError::Invalid("Message needs content".to_owned()));
        }
        if byte_len(text) > MESSAGE_BYTES || attachments > ATTACHMENT_LIMIT {
            return Err(ChatError::Invalid("Message is too large".to_owned()));
        }
        if !owns || !is_active_member(participants, participant_id) {
            return Err(ChatError::Denied);
        }
        let mut i: usize = 0;
        while i < addressed.len()
            invariant
                0 <= i <= addressed@.len(),
                forall|j: int| 0 <= j < i ==> active_member(participants@, (#[trigger] addressed@[j])@),
            decreases addressed@.len() - i,
        {
            if !is_active_member(participants, addressed[i].as_str()) {
                proof {
                    assert(!active_member(participants@, (addressed@[i as int])@));
                }
                return Err(ChatError::NotFound);
            }
            i = i + 1;
        }
        match reply {
            Some(m) => {
                let k = match parse_uuid(m) {
                    Some(k) => k,
                    None => return Err(ChatError::Invalid("Invalid UUID".to_owned())),
                };
                if self.message(k).is_none() {
                    return Err(ChatError::NotFound);
                }
            },
            None => {},
        }
        match self.message(key) {
            Some(old) => {
                if str_eq(old.participant_id.as_str(), participant_id) && str_eq(old.text.as_str(), text) {
                    Ok(Posting::Existing(old.duplicate()))
                } else {
                    Err(ChatError::Conflict)
                }
            },
            None => Ok(Posting::New { key, thread, participant }),
        }
    }
}

impl ThreadState {
    /// Stores a message posted by `participant` in conversation `thread`
    /// under `key`, complete, created at the given time, and records a
    /// `message.created` event at `now`. Hands back the message and the event.
    pub fn store_posted(
        &mut self,
        key: u128,
        thread: u128,
        participant: u128,
        text: &str,
        created_seconds: i64,
        created_nanos: i32,
        now: i64,
    ) -> (r: (Message, QueuedEvent))
        requires
            old(self).wf(),
            old(self).sequence < i64::MAX,
            i64::MIN + 2148 <= created_seconds * 1000 <= i64::MAX - 2148,
        ensures
            final(self).wf(),
            r.0.id@ == hyphenated(key),
            r.0.thread_id@ == hyphenated(thread),
            r.0.participant_id@ == hyphenated(participant),
            r.0.text@ == text@,
            r.0.status@ == "complete"@,
            r.0.created_seconds == created_seconds && r.0.created_nanos == created_nanos,
            lookup(final(self).messages@, key) == Some(r.0),
            forall|k: u128| k != key ==> #[trigger] lookup(final(self).messages@, k) == lookup(old(self).messages@, k),
            r.1.kind@ == "message.created"@,
            r.1.sequence == old(self).sequence + 1,
            final(self).sequence == old(self).sequence + 1,
            final(self).last_activity_at == now,
            final(self).events@ == window(old(self).events@.push(r.1)),
            final(self).commands@ == old(self).commands@,
            final(self).invocations@ == old(self).invocations@,
            final(self).runs@ == old(self).runs@,
            final(self).lease == old(self).lease,
    {
        let message = Message {
            id: uuid_text(key),
            thread_id: uuid_text(thread),
            participant_id: uuid_text(participant),
            text: text.to_owned(),
            status: "complete".to_owned(),
            created_seconds,
            created_nanos,
        };
        let stored = message.duplicate();
        self.upsert_message(message);
        let e = self.append_event(uuid_text(random_id()), "message.created".to_owned(), now);
        (stored, e)
    }
}

/// Pages tile the history: where older messages remain after a page, the
/// page and the messages before the one its token names make up, in order,
/// all messages before the page's end; where none remain, the page holds
/// them all.
pub proof fn law_pages_tile(s: Seq<StoredMessage>, end: int, size: int)
    requires
        0 < size,
        0 <= end <= s.len(),
    ensures
        end > size ==> page_rows(s, end, size) + newest_first(s, end - size) == newest_first(s, end),
        end <= size ==> page_rows(s, end, size) == newest_first(s, end),
{
    if end > size {
        assert(page_rows(s, end, size) + newest_first(s, end - size) =~= newest_first(s, end));
    } else {
        assert(page_rows(s, end, size) =~= newest_first(s, end));
    }
}

/// The token of a page with older messages after it names the message at
/// the page's oldest position, and no other message has its key; so the
/// next page, before that message, starts right after the page.
pub proof fn law_token_continues(t: ThreadState, end: int, size: int)
    requires
        t.wf(),
        0 < size < end <= t.messages@.len(),
    ensures
        parsed_uuid(t.messages@[end - size].message.id@) == Some(t.messages@[end - size].key),
        forall|p: int| 0 <= p < t.messages@.len() && #[trigger] t.messages@[p].key == t.messages@[end - size].key
            ==> p == end - size,
{
    let m = t.messages@[end - size];
    assert(parsed_uuid(m.message.id@) == Some(m.key));
}

/// Whether a message is still streaming in conversation `thread`.
pub open spec fn streaming_in(m: Message, thread: u128) -> bool {
    m.thread_id@ == hyphenated(thread) && m.status@ == "streaming"@
}

/// Adds `delta` to the text of a message that is streaming in conversation
/// `thread`: one that is not, or belongs to another conversation, is refused;
/// so is text that would grow past a mebibyte.
pub fn append_delta(message: &Message, thread: u128, delta: &str) -> (r: Result<Message, ChatError>)
    ensures
        !streaming_in(*message, thread) ==> r matches Err(ChatError::Conflict),
        streaming_in(*message, thread) && blen(message.text@ + delta@) > MESSAGE_BYTES
            ==> (r matches Err(ChatError::Invalid(m)) && m@ == "Message is too large"@),
        streaming_in(*message, thread) && blen(message.text@ + delta@) <= MESSAGE_BYTES ==> (r matches Ok(n) && {
            &&& n.text@ == message.text@ + delta@
            &&& n.id == message.id && n.thread_id == message.thread_id && n.participant_id == message.participant_id
            &&& n.status == message.status
            &&& n.created_seconds == message.created_seconds && n.created_nanos == message.created_nanos
        }),
{
    let text = uuid_text(thread);
    if !str_eq(message.thread_id.as_str(), text.as_str()) || !str_eq(message.status.as_str(), "streaming") {
        return Err(ChatError::Conflict);
    }
    let mut n = message.duplicate();
    n.text.append(delta);
    if byte_len(n.text.as_str()) > MESSAGE_BYTES {
        return Err(ChatError::Invalid("Message is too large".to_owned()));
    }
    Ok(n)
}

/// Ends a message of conversation `thread` with `status`: one of another
/// conversation is refused; one that already ended is handed back unchanged
/// (`None`) where it ended with the same status, and refused otherwise; a
/// streaming one takes the status.
pub fn finish_message(message: &Message, thread: u128, status: &str) -> (r: Result<Option<Message>, ChatError>)
    ensures
        message.thread_id@ != hyphenated(thread) ==> r matches Err(ChatError::Denied),
        message.thread_id@ == hyphenated(thread) && message.status@ != "streaming"@ ==> if message.status@ == status@ {
            r matches Ok(None)
        } else {
            r matches Err(ChatError::Conflict)
        },
        message.thread_id@ == hyphenated(thread) && message.status@ == "streaming"@ ==> (r matches Ok(Some(n)) && {
            &&& n.status@ == status@
            &&& n.id == message.id && n.thread_id == message.thread_id && n.participant_id == message.participant_id
            &&& n.text == message.text
            &&& n.created_seconds == message.created_seconds && n.created_nanos == message.created_nanos
        }),
{
    let text = uuid_text(thread);
    if !str_eq(message.thread_id.as_str(), text.as_str()) {
        return Err(ChatError::Denied);
    }
    if !str_eq(message.status.as_str(), "streaming") {
        if str_eq(message.status.as_str(), status) {
            return Ok(None);
        } else {
            return Err(ChatError::Conflict);
        }
    }
    let mut n = message.duplicate();
    n.status = status.to_owned();
    Ok(Some(n))
}

/// The event that records a message's end: `message.completed` for a
/// complete one, `message.aborted` otherwise.
pub fn finish_event_kind(status: &str) -> (r: &'static str)
    ensures
        status@ == "complete"@ ==> r@ == "message.completed"@,
        status@ != "complete"@ ==> r@ == "message.aborted"@,
{
    if str_eq(status, "complete") { "message.completed" } else { "message.aborted" }
}

} // verus!
