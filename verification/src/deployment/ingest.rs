//! The configuration a replica receives for its agent's connections, and the
//! decisions it makes on a message a provider delivers: which connection takes
//! it, whether the sender may reach the agent, and who joins the conversation.
use vstd::prelude::*;
use crate::catalog::{Identity, IdentityType};
use crate::deployment::wire::ChatError;
use crate::ids::{hyphenated, uuid_text};
use crate::text::{byte_len, str_eq, blen};
use crate::crypto::wipe;

verus! {

/// Who may reach an agent through a channel connection.
#[derive(Clone, Copy, PartialEq, Eq, Debug, Structural)]
pub enum AccessMode {
    Public,
    Private,
    Disabled,
    /// A mode this build does not know.
    Unknown,
}

/// A sender identity an owner has decided on.
#[derive(Debug)]
pub struct IdentityGrant {
    /// The kind of identity, where this build knows it.
    pub identity_type: Option<IdentityType>,
    pub value: String,
    pub verified: bool,
    pub allowed: bool,
}

/// One credential of a connection, in plain text.
#[derive(Debug)]
pub struct CredentialField {
    pub name: String,
    pub value: String,
}

/// A connection assigned to the agent, as the gateway hands it to a replica.
#[derive(Debug)]
pub struct ConnectionConfig {
    pub id: String,
    pub status: String,
    pub provider_id: String,
    pub type_id: String,
    pub access_mode: AccessMode,
    pub identities: Vec<IdentityGrant>,
    pub credentials: Vec<CredentialField>,
}

/// The configuration of an agent's replica.
#[derive(Debug)]
pub struct Configuration {
    pub webhook_signing_key: String,
    pub agent_name: String,
    pub connections: Vec<ConnectionConfig>,
}

/// Decrypted provider configuration, which must leave no plaintext credential
/// behind: [`SensitiveConfiguration::clear_secrets`] empties every secret.
pub struct SensitiveConfiguration(Configuration);

/// Whether a connection holds no secret in plain text.
pub open spec fn cleared(c: ConnectionConfig) -> bool {
    forall|j: int| 0 <= j < c.credentials@.len() ==> (#[trigger] c.credentials@[j]).value@.len() == 0
}

/// `b` is `a` with every secret emptied and everything else kept.
pub open spec fn secrets_cleared(a: Configuration, b: Configuration) -> bool {
    &&& b.webhook_signing_key@.len() == 0
    &&& b.agent_name == a.agent_name
    &&& b.connections@.len() == a.connections@.len()
    &&& forall|i: int| 0 <= i < b.connections@.len() ==> {
        let x = #[trigger] a.connections@[i];
        let y = b.connections@[i];
        &&& y.id == x.id
        &&& y.status == x.status
        &&& y.provider_id == x.provider_id
        &&& y.type_id == x.type_id
        &&& y.access_mode == x.access_mode
        &&& y.identities == x.identities
        &&& y.credentials@.len() == x.credentials@.len()
        &&& forall|j: int| 0 <= j < y.credentials@.len()
            ==> (#[trigger] y.credentials@[j]).name == x.credentials@[j].name
        &&& cleared(y)
    }
}

impl SensitiveConfiguration {
    pub fn new(configuration: Configuration) -> (r: Self)
        ensures
            r.configuration() == configuration,
    {
        SensitiveConfiguration(configuration)
    }

    pub closed spec fn configuration(&self) -> Configuration {
        self.0
    }

    /// The configuration it holds.
    pub fn get(&self) -> (r: &Configuration)
        ensures
            *r == self.configuration(),
    {
        &self.0
    }

    /// Empties the webhook signing key and every credential value.
    pub fn clear_secrets(&mut self)
        ensures
            secrets_cleared(old(self).configuration(), final(self).configuration()),
    {
        let ghost before = self.0;
        wipe(&mut self.0.webhook_signing_key);
        let mut connections: Vec<ConnectionConfig> = Vec::new();
        std::mem::swap(&mut connections, &mut self.0.connections);
        let mut out: Vec<ConnectionConfig> = Vec::new();
        let mut rest = connections;
        let total = rest.len();
        let mut k: usize = 0;
        let ghost initial = rest@;
        while rest.len() > 0
            invariant
                total == initial.len(),
                initial == before.connections@,
                rest@ == initial.subrange(k as int, initial.len() as int),
                0 <= k <= initial.len(),
                out@.len() == k,
                forall|i: int| 0 <= i < k ==> {
                    let x = #[trigger] initial[i];
                    let y = out@[i];
                    &&& y.id == x.id
                    &&& y.status == x.status
                    &&& y.provider_id == x.provider_id
                    &&& y.type_id == x.type_id
                    &&& y.access_mode == x.access_mode
                    &&& y.identities == x.identities
                    &&& y.credentials@.len() == x.credentials@.len()
                    &&& forall|j: int| 0 <= j < y.credentials@.len()
                        ==> (#[trigger] y.credentials@[j]).name == x.credentials@[j].name
                    &&& cleared(y)
                },
            decreases rest@.len(),
        {
            let mut c = rest.remove(0);
            let ghost x = c;
            let mut fields: Vec<CredentialField> = Vec::new();
            std::mem::swap(&mut fields, &mut c.credentials);
            let mut cleaned: Vec<CredentialField> = Vec::new();
            let count = fields.len();
            let mut j: usize = 0;
            while fields.len() > 0
                invariant
                    count == x.credentials@.len(),
                    fields@ == x.credentials@.subrange(j as int, count as int),
                    0 <= j <= count,
                    cleaned@.len() == j,
                    forall|t: int| 0 <= t < j ==> (#[trigger] cleaned@[t]).name == x.credentials@[t].name
                        && cleaned@[t].value@.len() == 0,
                decreases fields@.len(),
            {
                let mut f = fields.remove(0);
                wipe(&mut f.value);
                cleaned.push(f);
                proof {
                    assert(fields@ =~= x.credentials@.subrange(j + 1, count as int));
                }
                j = j + 1;
            }
            c.credentials = cleaned;
            out.push(c);
            proof {
                assert(rest@ =~= initial.subrange(k + 1, initial.len() as int));
            }
            k = k + 1;
        }
        self.0.connections = out;
    }
}

/// A connection of the configuration that is ready and has this identifier.
pub open spec fn ready_for(c: ConnectionConfig, connection: u128) -> bool {
    c.id@ == hyphenated(connection) && c.status@ == "ready"@
}

/// The ready connection a provider delivered on, where the agent has it.
pub fn ready_connection(config: &Configuration, connection: u128) -> (r: Option<&ConnectionConfig>)
    ensures
        match r {
            Some(c) => exists|i: int| {
                &&& 0 <= i < config.connections@.len()
                &&& config.connections@[i] == *c
                &&& ready_for(*c, connection)
                &&& forall|j: int| 0 <= j < i ==> !ready_for(#[trigger] config.connections@[j], connection)
            },
            None => forall|j: int| 0 <= j < config.connections@.len()
                ==> !ready_for(#[trigger] config.connections@[j], connection),
        },
{
    let text = uuid_text(connection);
    let mut i: usize = 0;
    while i < config.connections.len()
        invariant
            text@ == hyphenated(connection),
            0 <= i <= config.connections@.len(),
            forall|j: int| 0 <= j < i ==> !ready_for(#[trigger] config.connections@[j], connection),
        decreases config.connections@.len() - i,
    {
        let c = &config.connections[i];
        if str_eq(c.id.as_str(), text.as_str()) && str_eq(c.status.as_str(), "ready") {
            assert(config.connections@[i as int] == *c);
            return Some(c);
        }
        i = i + 1;
    }
    None
}

/// Whether a grant lets this sender through.
pub open spec fn grants(g: IdentityGrant, sender: Identity) -> bool {
    &&& g.identity_type == Some(sender.identity_type)
    &&& g.value@ == sender.value@
    &&& g.verified
    &&& g.allowed
}

/// Whether a sender may reach the agent: anyone on a public channel, only a
/// verified and allowed identity on a private one, nobody otherwise.
pub open spec fn may_reach(c: ConnectionConfig, sender: Identity) -> bool {
    match c.access_mode {
        AccessMode::Public => true,
        AccessMode::Private => exists|i: int|
            0 <= i < c.identities@.len() && grants(#[trigger] c.identities@[i], sender),
        _ => false,
    }
}

/// Whether a sender may reach the agent through this connection.
pub fn allowed(c: &ConnectionConfig, sender: &Identity) -> (r: bool)
    ensures
        r == may_reach(*c, *sender),
{
    match c.access_mode {
        AccessMode::Public => true,
        AccessMode::Private => {
            let mut i: usize = 0;
            while i < c.identities.len()
                invariant
                    c.access_mode == AccessMode::Private,
                    0 <= i <= c.identities@.len(),
                    forall|j: int| 0 <= j < i ==> !grants(#[trigger] c.identities@[j], *sender),
                decreases c.identities@.len() - i,
            {
                let g = &c.identities[i];
                let kind_matches = match g.identity_type {
                    Some(t) => t == sender.identity_type,
                    None => false,
                };
                if kind_matches && str_eq(g.value.as_str(), sender.value.as_str()) && g.verified && g.allowed {
                    assert(grants(c.identities@[i as int], *sender));
                    return true;
                }
                i = i + 1;
            }
            false
        },
        _ => false,
    }
}

/// The largest message text a provider may deliver, in bytes.
pub const TEXT_LIMIT: usize = 1048576;

/// A provider message is refused when its text is too large or it lacks its
/// own or its conversation's identifier.
pub open spec fn incoming_ok(text: Seq<char>, message_id: Seq<char>, thread_id: Seq<char>) -> bool {
    blen(text) <= TEXT_LIMIT && message_id.len() > 0 && thread_id.len() > 0
}

/// Checks the size and identifiers of a provider message.
pub fn check_incoming(text: &str, message_id: &str, thread_id: &str) -> (r: Result<(), ChatError>)
    ensures
        r is Ok <==> incoming_ok(text@, message_id@, thread_id@),
        match r {
            Err(ChatError::Invalid(m)) => m@ == "Invalid provider message"@,
            Err(_) => false,
            Ok(_) => true,
        },
{
    if byte_len(text) > TEXT_LIMIT || message_id.unicode_len() == 0 || thread_id.unicode_len() == 0 {
        Err(ChatError::Invalid("Invalid provider message".to_owned()))
    } else {
        Ok(())
    }
}

/// The longest participant name, in characters.
pub const NAME_LIMIT: usize = 200;

/// The name a sender is shown under: its name, or its address where it has
/// none, cut to 200 characters.
pub open spec fn shown_name(sender_name: Seq<char>, sender_value: Seq<char>) -> Seq<char> {
    let n = if sender_name.len() == 0 { sender_value } else { sender_name };
    if n.len() > NAME_LIMIT { n.subrange(0, NAME_LIMIT as int) } else { n }
}

/// The name a sender is shown under.
pub fn display_name(sender_name: &str, sender_value: &str) -> (r: String)
    ensures
        r@ == shown_name(sender_name@, sender_value@),
{
    let n = if sender_name.unicode_len() == 0 { sender_value } else { sender_name };
    let len = n.unicode_len();
    if len > NAME_LIMIT {
        n.substring_char(0, NAME_LIMIT).to_owned()
    } else {
        n.to_owned()
    }
}

/// A member of a conversation.
#[derive(Debug)]
pub struct Participant {
    pub id: String,
    pub user_id: Option<String>,
    pub agent_id: Option<String>,
    pub name: String,
    pub active: bool,
}

/// Whether a participant with this identifier is in the roster.
pub open spec fn listed(roster: Seq<Participant>, id: Seq<char>) -> bool {
    exists|i: int| 0 <= i < roster.len() && (#[trigger] roster[i]).id@ == id
}

/// Adds a participant unless one with its identifier is already listed; says
/// whether it joined.
pub fn join(roster: &mut Vec<Participant>, p: Participant) -> (joined: bool)
    ensures
        joined == !listed(old(roster)@, p.id@),
        final(roster)@ == if joined { old(roster)@.push(p) } else { old(roster)@ },
        listed(final(roster)@, p.id@),
{
    let mut i: usize = 0;
    while i < roster.len()
        invariant
            0 <= i <= roster@.len(),
            forall|j: int| 0 <= j < i ==> (#[trigger] roster@[j]).id@ != p.id@,
        decreases roster@.len() - i,
    {
        if str_eq(roster[i].id.as_str(), p.id.as_str()) {
            assert(roster@[i as int].id@ == p.id@);
            return false;
        }
        i = i + 1;
    }
    let ghost n = roster@.len();
    roster.push(p);
    proof {
        assert(roster@[n as int] == p);
    }
    true
}

/// What a replica does with a provider message once it knows whether the
/// conversation exists, whether the sender may reach the agent, and whether
/// the message's receipt is new in the conversation.
#[derive(Debug, PartialEq, Eq)]
pub enum IngestStep {
    /// Answer success and change nothing: a sender that may not reach the
    /// agent does not open a conversation, and a delivered message is taken once.
    Ignore,
    /// Record the receipt and the access decision, opening the conversation
    /// first where `create`; pass the message on to the agent where `deliver`.
    Record { create: bool, deliver: bool },
}

/// What a replica does with a provider message. A freshly opened
/// conversation holds no receipt, so its receipt is new.
pub fn ingest_step(known_thread: bool, allowed: bool, new_receipt: bool) -> (r: IngestStep)
    ensures
        !known_thread && !allowed ==> r == IngestStep::Ignore,
        !known_thread && allowed ==> r == (IngestStep::Record { create: true, deliver: true }),
        known_thread && !new_receipt ==> r == IngestStep::Ignore,
        known_thread && new_receipt ==> r == (IngestStep::Record { create: false, deliver: allowed }),
{
    if !known_thread {
        if allowed {
            IngestStep::Record { create: true, deliver: true }
        } else {
            IngestStep::Ignore
        }
    } else if new_receipt {
        IngestStep::Record { create: false, deliver: allowed }
    } else {
        IngestStep::Ignore
    }
}

} // verus!
