//! The compiled provider catalog: built-in definitions, the adapters that own
//! their setup steps, and the rules of registering and listing providers.
use vstd::prelude::*;
use vstd::string::*;
use crate::error::{Error, Fault, fault_of, invalid};
use crate::json::{Json, JsonNumber};
use crate::model::{
    Action, CredentialSource, Capability, ConnectionType, Driver, Provider, ProviderKind, Values, find, lookup,
    provider_fault, source_driver,
};
use crate::text::{blank, blen, byte_len, is_blank, str_eq, trim, trim_spec};
use crate::model::{input_schema_of, optional, value};
use crate::schema::credential_values_fault;

pub mod agentmail;
pub mod github;
pub mod linq;
pub mod slack;
pub mod telnyx;
pub mod whatsapp;

verus! {

/// The category of chat providers.
pub const CATEGORY_CHAT: &'static str = "chat";

/// The category of email providers.
pub const CATEGORY_EMAIL: &'static str = "email";

/// The category of developer tools.
pub const CATEGORY_DEVELOPER_TOOLS: &'static str = "developer_tools";

/// The IDs of the built-in providers, in catalog order.
pub open spec fn builtin_ids() -> Seq<Seq<char>> {
    seq!["github"@, "slack"@, "agentmail"@, "linq"@, "whatsapp"@, "telnyx"@]
}

/// `builtins()`: the shipped provider definitions.
pub fn builtins() -> (r: Vec<Provider>)
    ensures
        r@.len() == 6,
        forall|i: int| 0 <= i < 6 ==> #[trigger] r@[i].id@ == builtin_ids()[i],
        forall|i: int| 0 <= i < 6 ==> #[trigger] r@[i].kind == ProviderKind::BuiltIn,
{
    let mut v: Vec<Provider> = Vec::new();
    v.push(github::definition());
    v.push(slack::definition());
    v.push(agentmail::definition());
    v.push(linq::definition());
    v.push(whatsapp::definition());
    v.push(telnyx::definition());
    v
}

/// Whether an ID belongs to a built-in provider.
pub fn is_builtin_id(id: &str) -> (r: bool)
    ensures
        r == builtin_ids().contains(id@),
{
    let r = str_eq(id, "github") || str_eq(id, "slack") || str_eq(id, "agentmail") || str_eq(
        id,
        "linq",
    ) || str_eq(id, "whatsapp") || str_eq(id, "telnyx");
    proof {
        let ids = builtin_ids();
        if r {
            if id@ == "github"@ {
                assert(ids[0] == id@);
            } else if id@ == "slack"@ {
                assert(ids[1] == id@);
            } else if id@ == "agentmail"@ {
                assert(ids[2] == id@);
            } else if id@ == "linq"@ {
                assert(ids[3] == id@);
            } else if id@ == "whatsapp"@ {
                assert(ids[4] == id@);
            } else {
                assert(ids[5] == id@);
            }
        }
    }
    r
}

/// Whether some connection type of a definition declares a capability.
pub open spec fn declares_capability(types: Seq<ConnectionType>) -> bool {
    exists|i: int| 0 <= i < types.len() && #[trigger] types[i].capabilities@.len() > 0
}

/// The fault of registering a definition, before anything is stored: the
/// definition's own rules, then what clients may not register.
pub open spec fn registration_fault(p: Provider, builtin: bool) -> Option<Fault> {
    match provider_fault(p) {
        Some(f) => Some(f),
        None => if !builtin && (p.kind is BuiltIn || builtin_ids().contains(p.id@)) {
            Some(
                Fault::Invalid(
                    "Built-in provider IDs and app-provisioning drivers cannot be registered by clients"@,
                ),
            )
        } else if !builtin && declares_capability(p.connection_types@) {
            Some(
                Fault::Invalid(
                    "Channel capability requires an installed channel adapter; a custom credential definition alone cannot provide one"@,
                ),
            )
        } else {
            None
        },
    }
}

#[verifier::loop_isolation(false)]
/// The checks `register` makes before it stores a definition. Clients cannot
/// register built-in IDs or kinds, nor claim a capability.
pub fn check_registration(provider: &Provider, builtin: bool) -> (r: Result<(), Error>)
    ensures
        fault_of(r) == registration_fault(*provider, builtin),
{
    provider.validate()?;
    if !builtin && (matches!(provider.kind, ProviderKind::BuiltIn) || is_builtin_id(
        provider.id.as_str(),
    )) {
        return Err(
            invalid(
                "Built-in provider IDs and app-provisioning drivers cannot be registered by clients",
            ),
        );
    }
    if !builtin {
        let mut i: usize = 0;
        while i < provider.connection_types.len()
            invariant
                0 <= i <= provider.connection_types@.len(),
                forall|k: int|
                    0 <= k < i ==> #[trigger] provider.connection_types@[k].capabilities@.len()
                        == 0,
            decreases provider.connection_types@.len() - i,
        {
            if provider.connection_types[i].capabilities.len() > 0 {
                proof {
                    assert(declares_capability(provider.connection_types@));
                }
                return Err(
                    invalid(
                        "Channel capability requires an installed channel adapter; a custom credential definition alone cannot provide one",
                    ),
                );
            }
            i = i + 1;
        }
    }
    Ok(())
}

/// Whether a stored provider kind may be replaced by a registration.
pub open spec fn replacement_allowed(current_kind: Option<Seq<char>>, builtin: bool) -> bool {
    match current_kind {
        Some(k) => (k == "built_in"@) == builtin,
        None => true,
    }
}

/// `register`'s check of the stored entry: built-in providers are replaced only
/// by built-in definitions, and the other way round.
pub fn check_replacement(current_kind: Option<&str>, builtin: bool) -> (r: Result<(), Error>)
    ensures
        match r {
            Ok(_) => replacement_allowed(
                match current_kind {
                    Some(k) => Some(k@),
                    None => None,
                },
                builtin,
            ),
            Err(e) => !replacement_allowed(
                match current_kind {
                    Some(k) => Some(k@),
                    None => None,
                },
                builtin,
            ) && e@ == Fault::Invalid(
                "Built-in providers cannot be replaced by registered providers"@,
            ),
        },
{
    match current_kind {
        Some(k) => {
            if str_eq(k, "built_in") != builtin {
                return Err(invalid("Built-in providers cannot be replaced by registered providers"));
            }
        },
        None => {},
    }
    Ok(())
}

/// The page size of a listing: 50 by default, at most 100.
pub open spec fn page_size_of(size: u32) -> u32 {
    if size == 0 {
        50
    } else if size < 100 {
        size
    } else {
        100
    }
}

/// `if size == 0 { 50 } else { size.min(100) }`.
pub fn page_size(size: u32) -> (r: u32)
    ensures
        r == page_size_of(size),
        1 <= r <= 100,
{
    if size == 0 {
        50
    } else if size < 100 {
        size
    } else {
        100
    }
}

/// Split one extra row off a fetched page: the rows to return, and whether
/// another page follows. Listings fetch one row more than the page holds.
pub fn split_page<T>(rows: &mut Vec<T>, size: u32) -> (more: bool)
    ensures
        more == (old(rows)@.len() > size),
        more ==> final(rows)@ == old(rows)@.drop_last(),
        !more ==> final(rows)@ == old(rows)@,
{
    let more = rows.len() > size as usize;
    if more {
        rows.pop();
    }
    more
}

/// Optional endpoint overrides for isolated provider tests; production URLs
/// belong to each provider.
#[derive(Debug)]
pub struct Endpoints(pub Vec<(String, String)>);

impl Endpoints {
    /// No overrides.
    pub fn new() -> (r: Endpoints)
        ensures
            r.0@.len() == 0,
    {
        Endpoints(Vec::new())
    }

    /// `get(key, default)`: the override for `key`, or the default.
    pub fn get<'a>(&'a self, key: &str, default: &'a str) -> (r: &'a str)
        ensures
            r@ == match lookup(self.0@, key@) {
                Some(v) => v,
                None => default@,
            },
    {
        match find(&self.0, key) {
            Some(v) => v,
            None => default,
        }
    }
}

// ---------------------------------------------------------------------------
// Adapters

/// The compiled adapter that owns a provider type's setup steps.
#[derive(Clone, Copy, PartialEq, Eq, Debug, Structural)]
pub enum Adapter {
    Github,
    Slack,
    Agentmail,
    Linq,
    Whatsapp,
    Telnyx,
    Configured,
}

/// The adapter registered for a provider and type.
pub open spec fn adapter_for(id: Seq<char>, type_id: Seq<char>) -> Adapter {
    if id == "github"@ && type_id == "github_app"@ {
        Adapter::Github
    } else if id == "slack"@ && type_id == "slack_app"@ {
        Adapter::Slack
    } else if id == "agentmail"@ && type_id == "inbox"@ {
        Adapter::Agentmail
    } else if id == "linq"@ && type_id == "account"@ {
        Adapter::Linq
    } else if id == "whatsapp"@ && type_id == "meta"@ {
        Adapter::Whatsapp
    } else if id == "telnyx"@ && type_id == "whatsapp"@ {
        Adapter::Telnyx
    } else {
        Adapter::Configured
    }
}

/// `runtime(id, type_id)`: the single registration point for compiled adapters;
/// other definitions use the standard drivers.
pub fn runtime(id: &str, type_id: &str) -> (r: Adapter)
    ensures
        r == adapter_for(id@, type_id@),
{
    if str_eq(id, "github") && str_eq(type_id, "github_app") {
        Adapter::Github
    } else if str_eq(id, "slack") && str_eq(type_id, "slack_app") {
        Adapter::Slack
    } else if str_eq(id, "agentmail") && str_eq(type_id, "inbox") {
        Adapter::Agentmail
    } else if str_eq(id, "linq") && str_eq(type_id, "account") {
        Adapter::Linq
    } else if str_eq(id, "whatsapp") && str_eq(type_id, "meta") {
        Adapter::Whatsapp
    } else if str_eq(id, "telnyx") && str_eq(type_id, "whatsapp") {
        Adapter::Telnyx
    } else {
        Adapter::Configured
    }
}

/// Whether a text is among a list of strings.
pub open spec fn listed(k: Seq<char>, list: Seq<&str>) -> bool {
    exists|i: int| 0 <= i < list.len() && #[trigger] list[i]@ == k
}

/// A provider API address: the base endpoint, which must be one the service
/// may call, with path segments added after it (its empty last segment
/// dropped first).
pub fn url(base: &str, segments: &[&str]) -> (r: Result<crate::address::UrlParts, Error>)
    ensures
        match crate::address::endpoint_fault(base@) {
            Some(f) => (r matches Err(e) && e@ == f),
            None => match crate::address::url_with_segments(base@, crate::address::slice_texts(segments@)) {
                None => (r matches Err(e) && e@ == Fault::Invalid("Invalid provider base URL"@)),
                Some(v) => (r matches Ok(u) && u@ == v),
            },
        },
{
    match crate::address::endpoint(base) {
        Ok(_) => {},
        Err(e) => return Err(e),
    }
    match crate::address::join_segments(base, segments) {
        Some(u) => Ok(u),
        None => Err(invalid("Invalid provider base URL")),
    }
}

fn is_listed(k: &str, list: &[&str]) -> (r: bool)
    ensures
        r == listed(k@, list@),
{
    let mut i: usize = 0;
    while i < list.len()
        invariant
            0 <= i <= list@.len(),
            forall|m: int| 0 <= m < i ==> #[trigger] list@[m]@ != k@,
        decreases list@.len() - i,
    {
        if str_eq(list[i], k) {
            return true;
        }
        i = i + 1;
    }
    false
}

/// The fault of a submitted value at position `i` that is neither required nor optional or too large.
pub open spec fn extra_value_fault(
    values: Seq<(String, String)>,
    required: Seq<&str>,
    optional_keys: Seq<&str>,
    i: int,
) -> Option<Fault> {
    let key = values[i].0@;
    if !listed(key, required) && !listed(key, optional_keys) {
        Some(Fault::Invalid("Unexpected credential key"@))
    } else if blen(values[i].1@) > 65536 {
        Some(Fault::Invalid("Credential value is too large"@))
    } else {
        None
    }
}

/// The first fault among the first `n` submitted values.
pub open spec fn extra_values_fault(
    values: Seq<(String, String)>,
    required: Seq<&str>,
    optional_keys: Seq<&str>,
    n: nat,
) -> Option<Fault>
    decreases n,
{
    if n == 0 {
        None
    } else {
        match extra_values_fault(values, required, optional_keys, (n - 1) as nat) {
            Some(f) => Some(f),
            None => extra_value_fault(values, required, optional_keys, n - 1),
        }
    }
}

/// The first required key that is missing or blank, among the first `n`.
pub open spec fn missing_required(values: Seq<(String, String)>, required: Seq<&str>, n: nat) -> Option<
    Seq<char>,
>
    decreases n,
{
    if n == 0 {
        None
    } else {
        match missing_required(values, required, (n - 1) as nat) {
            Some(k) => Some(k),
            None => match lookup(values, required[n - 1]@) {
                Some(v) => if blank(v) {
                    Some(required[n - 1]@)
                } else {
                    None
                },
                None => Some(required[n - 1]@),
            },
        }
    }
}

/// The fault of an adapter's submitted secrets.
pub open spec fn input_fault(
    values: Seq<(String, String)>,
    required: Seq<&str>,
    optional_keys: Seq<&str>,
) -> Option<Fault> {
    match missing_required(values, required, required.len()) {
        Some(k) => Some(Fault::Invalid(crate::model::missing_field_message(k))),
        None => extra_values_fault(values, required, optional_keys, values.len()),
    }
}

pub proof fn lemma_missing_persists(values: Seq<(String, String)>, required: Seq<&str>, m: nat, n: nat)
    requires
        m <= n,
        missing_required(values, required, m) is Some,
    ensures
        missing_required(values, required, n) == missing_required(values, required, m),
    decreases n - m,
{
    if m < n {
        lemma_missing_persists(values, required, m, (n - 1) as nat);
    }
}

pub proof fn lemma_extra_persists(
    values: Seq<(String, String)>,
    required: Seq<&str>,
    optional_keys: Seq<&str>,
    m: nat,
    n: nat,
)
    requires
        m <= n,
        extra_values_fault(values, required, optional_keys, m) is Some,
    ensures
        extra_values_fault(values, required, optional_keys, n) == extra_values_fault(
            values,
            required,
            optional_keys,
            m,
        ),
    decreases n - m,
{
    if m < n {
        lemma_extra_persists(values, required, optional_keys, m, (n - 1) as nat);
    }
}

/// `input(values, required, optional)`: check an adapter's submitted secrets
/// without defining any form.
pub fn input(values: &Values, required: &[&str], optional_keys: &[&str]) -> (r: Result<(), Error>)
    ensures
        fault_of(r) == input_fault(values@, required@, optional_keys@),
{
    let mut i: usize = 0;
    while i < required.len()
        invariant
            0 <= i <= required@.len(),
            missing_required(values@, required@, i as nat) is None,
        decreases required@.len() - i,
    {
        match crate::model::value(values, required[i]) {
            Ok(v) => {
                if is_blank(v) {
                    return Err(invalid("Required credential is empty"));
                }
            },
            Err(e) => {
                proof {
                    lemma_missing_persists(values@, required@, (i + 1) as nat, required@.len());
                }
                return Err(e);
            },
        }
        i = i + 1;
    }
    let mut j: usize = 0;
    while j < values.len()
        invariant
            0 <= j <= values@.len(),
            missing_required(values@, required@, required@.len()) is None,
            extra_values_fault(values@, required@, optional_keys@, j as nat) is None,
        decreases values@.len() - j,
    {
        let key = values[j].0.as_str();
        if !is_listed(key, required) && !is_listed(key, optional_keys) {
            proof {
                lemma_extra_persists(values@, required@, optional_keys@, (j + 1) as nat, values@.len());
            }
            return Err(invalid("Unexpected credential key"));
        }
        if byte_len(values[j].1.as_str()) > 65536 {
            proof {
                lemma_extra_persists(values@, required@, optional_keys@, (j + 1) as nat, values@.len());
            }
            return Err(invalid("Credential value is too large"));
        }
        j = j + 1;
    }
    Ok(())
}

// ---------------------------------------------------------------------------
// Building definitions

/// A required string credential: `{"type":"string","title":..,"minLength":1}`,
/// secret (`writeOnly`) where asked, with a `pattern` where given.
pub(crate) fn string_field(title: &str, secret: bool, pattern: Option<&str>) -> (r: Json)
    ensures
        r@ is Object,
{
    let mut p = Json::object();
    p.set("type", Json::text("string"));
    p.set("title", Json::text(title));
    p.set("minLength", Json::Number(JsonNumber::Unsigned(1)));
    if secret {
        p.set("writeOnly", Json::Bool(true));
    }
    match pattern {
        Some(t) => p.set("pattern", Json::text(t)),
        None => {},
    }
    p
}

/// A channel-capable type whose credentials follow a static form.
pub(crate) fn static_channel_type(
    id: &str,
    name: &str,
    fields: Vec<(&str, Json)>,
    required: &[&str],
) -> (r: ConnectionType)
    ensures
        r.id@ == id@,
        r.name@ == name@,
        r.capabilities@ == seq![Capability::Channel],
        r.credential_source is Static,
{
    let mut properties = Json::object();
    let mut fields = fields;
    let mut i: usize = 0;
    let n = fields.len();
    while fields.len() > 0
        decreases fields@.len(),
    {
        let (key, value) = fields.remove(0);
        properties.set(key, value);
    }
    let mut schema = Json::object();
    schema.set("type", Json::text("object"));
    schema.set("additionalProperties", Json::Bool(false));
    schema.set("properties", properties);
    schema.set("required", Json::texts(required));
    let mut capabilities: Vec<Capability> = Vec::new();
    capabilities.push(Capability::Channel);
    ConnectionType {
        id: id.to_owned(),
        name: name.to_owned(),
        capabilities,
        credential_source: CredentialSource::Static { schema },
    }
}

/// A built-in provider with one connection type in one category.
pub(crate) fn builtin_provider(
    id: &str,
    name: &str,
    category: &str,
    typ: ConnectionType,
    icon_url: Option<&str>,
    instructions: Option<&str>,
    account_name_label: Option<&str>,
) -> (r: Provider)
    ensures
        r.id@ == id@,
        r.name@ == name@,
        r.kind == ProviderKind::BuiltIn,
        r.categories@.len() == 1,
        r.categories@[0]@ == category@,
        r.connection_types@ == seq![typ],
        r.icon_url is Some == icon_url is Some,
        r.icon_url matches Some(u) ==> u@ == icon_url->0@,
        r.instructions is Some == instructions is Some,
        r.instructions matches Some(t) ==> t@ == instructions->0@,
        r.account_name_label is Some == account_name_label is Some,
        r.account_name_label matches Some(l) ==> l@ == account_name_label->0@,
{
    let mut categories: Vec<String> = Vec::new();
    categories.push(category.to_owned());
    let mut connection_types: Vec<ConnectionType> = Vec::new();
    connection_types.push(typ);
    proof {
        assert(connection_types@ =~= seq![typ]);
    }
    Provider {
        id: id.to_owned(),
        name: name.to_owned(),
        kind: ProviderKind::BuiltIn,
        categories,
        connection_types,
        icon_url: match icon_url {
            Some(u) => Some(u.to_owned()),
            None => None,
        },
        instructions: match instructions {
            Some(t) => Some(t.to_owned()),
            None => None,
        },
        account_name_label: match account_name_label {
            Some(l) => Some(l.to_owned()),
            None => None,
        },
    }
}

/// A channel-capable type whose setup a compiled adapter owns.
pub(crate) fn custom_channel_type(id: &str, name: &str) -> (r: ConnectionType)
    ensures
        r.id@ == id@,
        r.name@ == name@,
        r.capabilities@ == seq![Capability::Channel],
        r.credential_source == CredentialSource::Custom,
{
    let mut capabilities: Vec<Capability> = Vec::new();
    capabilities.push(Capability::Channel);
    proof {
        assert(capabilities@ =~= seq![Capability::Channel]);
    }
    ConnectionType {
        id: id.to_owned(),
        name: name.to_owned(),
        capabilities,
        credential_source: CredentialSource::Custom,
    }
}

// ---------------------------------------------------------------------------
// What each adapter decides

/// The kind of address a channel identity is.
#[derive(Clone, Copy, PartialEq, Eq, Debug, Structural)]
pub enum IdentityType {
    PhoneNumber,
}

/// The sending address or bot account of a channel connection.
#[derive(Debug)]
pub struct Identity {
    pub identity_type: IdentityType,
    pub value: String,
}

/// The UI page name of an adapter.
pub open spec fn ui_name(a: Adapter) -> Seq<char> {
    match a {
        Adapter::Github => "github"@,
        Adapter::Slack => "slack"@,
        _ => "_standard"@,
    }
}

/// The step a ready connection resumes at when it is reconnected.
pub open spec fn resume_step_of(a: Adapter) -> Option<Seq<char>> {
    match a {
        Adapter::Github => Some("github_install"@),
        Adapter::Slack => Some("oauth_consent"@),
        _ => None,
    }
}

/// The credential filled from the account name on the first form.
pub open spec fn account_name_field_of(a: Adapter) -> Option<Seq<char>> {
    match a {
        Adapter::Agentmail => Some("inbox_id"@),
        Adapter::Linq => Some("phone_number"@),
        Adapter::Telnyx => Some("phone_number"@),
        _ => None,
    }
}

/// The default acceptance of a provider callback: at OAuth consent, a denial
/// or an authorization code.
pub open spec fn default_accepts(step: Seq<char>, parameters: Seq<(String, String)>, denied: bool) -> bool {
    step == "oauth_consent"@ && (denied || lookup(parameters, "code"@) is Some)
}

/// The default check of submitted input: only the first form takes input,
/// against the type's standard form.
pub open spec fn default_input_fault(t: ConnectionType, step: Seq<char>, values: Seq<(String, String)>) -> Option<Fault> {
    if step != "fields"@ {
        Some(Fault::Invalid("This step requires a provider callback"@))
    } else {
        match input_schema_of(t.credential_source) {
            Some(schema) => credential_values_fault(schema, values),
            None => Some(Fault::Invalid("Custom sources validate their own inputs"@)),
        }
    }
}

/// The identity a channel sends as.
pub open spec fn channel_identity_of(a: Adapter, values: Seq<(String, String)>, account: Option<Seq<char>>) -> Option<Seq<char>> {
    match a {
        Adapter::Linq => match lookup(values, "phone_number"@) {
            Some(v) if v.len() > 0 => Some(v),
            _ => None,
        },
        Adapter::Whatsapp => match account {
            Some(t) => if trim_spec(t).len() > 0 && trim_spec(t)[0] == '+' {
                Some(trim_spec(t))
            } else {
                None
            },
            None => None,
        },
        _ => None,
    }
}

impl Adapter {
    /// `ui()`: the compiled page that renders the adapter's forms.
    pub fn ui(self) -> (r: &'static str)
        ensures
            r@ == ui_name(self),
    {
        match self {
            Adapter::Github => "github",
            Adapter::Slack => "slack",
            _ => "_standard",
        }
    }

    /// `resume_step()`.
    pub fn resume_step(self) -> (r: Option<&'static str>)
        ensures
            match r {
                Some(s) => resume_step_of(self) == Some(s@),
                None => resume_step_of(self) is None,
            },
    {
        match self {
            Adapter::Github => Some("github_install"),
            Adapter::Slack => Some("oauth_consent"),
            _ => None,
        }
    }

    /// `account_name_field(typ)`.
    pub fn account_name_field(self) -> (r: Option<&'static str>)
        ensures
            match r {
                Some(s) => account_name_field_of(self) == Some(s@),
                None => account_name_field_of(self) is None,
            },
    {
        match self {
            Adapter::Agentmail => Some("inbox_id"),
            Adapter::Linq => Some("phone_number"),
            Adapter::Telnyx => Some("phone_number"),
            _ => None,
        }
    }

    /// `instructions(typ)`: the ordered setup steps shown below the provider overview.
    pub fn instructions(self) -> (r: Vec<&'static str>)
        ensures
            r@.len() == match self {
                Adapter::Agentmail => 4nat,
                Adapter::Configured => 0nat,
                Adapter::Slack => 0nat,
                _ => 2nat,
            },
    {
        let mut v: Vec<&'static str> = Vec::new();
        match self {
            Adapter::Github => {
                v.push("Create a GitHub App or connect an existing installation using the form below.");
                v.push("For an existing app, configure its webhook with the Webhook URL below and enter the matching signing secret.");
            },
            Adapter::Slack => {},
            Adapter::Agentmail => {
                v.push("Create an inbox and enter its AgentMail email address below.");
                v.push("Generate an API key scoped to that inbox and enter it below.");
                v.push("Go to Webhooks, create a new webhook, and paste the Webhook URL from below. Subscribe to all received events.");
                v.push("Copy the generated signing secret from AgentMail and enter it below.");
            },
            Adapter::Linq => {
                v.push("Enter your Linq API token and sending phone number below.");
                v.push("Configure your Linq webhook with the Webhook URL below and enter its signing secret.");
            },
            Adapter::Whatsapp => {
                v.push("Enter the credentials and IDs for your Meta WhatsApp Business account below.");
                v.push("Configure your Meta app webhook with the Webhook URL below and the same verify token you enter here.");
            },
            Adapter::Telnyx => {
                v.push("Enter your Telnyx API key, sending phone number, messaging profile ID, and public key below.");
                v.push("Configure your Telnyx webhook with the Webhook URL below.");
            },
            Adapter::Configured => {},
        }
        v
    }

    /// `accepts_callback(step, parameters, denied)`: whether a provider callback
    /// fits the step the setup is at.
    pub fn accepts_callback(self, step: &str, parameters: &Values, denied: bool) -> (r: bool)
        ensures
            r == match self {
                Adapter::Github => github::github_accepts(step@, parameters@, denied),
                _ => default_accepts(step@, parameters@, denied),
            },
    {
        match self {
            Adapter::Github => github::accepts_callback(step, parameters, denied),
            _ => str_eq(step, "oauth_consent") && (denied || find(parameters, "code").is_some()),
        }
    }

    /// `validate_input(typ, step, values)`: check input submitted at a step.
    pub fn validate_input(self, typ: &ConnectionType, step: &str, values: &Values) -> (r: Result<
        (),
        Error,
    >)
        ensures
            fault_of(r) == match self {
                Adapter::Github => github::path_input_fault(
                    step@,
                    values@,
                    "github"@,
                    seq!["app_name", "owner_type"],
                    seq!["account"],
                    seq!["app_id", "private_key", "installation_id", "webhook_secret"],
                ),
                Adapter::Slack => github::path_input_fault(
                    step@,
                    values@,
                    "slack"@,
                    seq!["app_name", "configuration_refresh_token"],
                    seq![],
                    seq!["client_id", "client_secret", "signing_secret"],
                ),
                _ => default_input_fault(*typ, step@, values@),
            },
    {
        match self {
            Adapter::Github => github::validate_input(step, values),
            Adapter::Slack => slack::validate_input(step, values),
            _ => {
                if !str_eq(step, "fields") {
                    return Err(invalid("This step requires a provider callback"));
                }
                typ.validate_values(values)
            },
        }
    }

    /// `channel_identity(values, account)`: the actual sending address, never
    /// the editable connection name.
    pub fn channel_identity(self, values: &Values, account: Option<&str>) -> (r: Option<Identity>)
        ensures
            match r {
                Some(id) => id.identity_type == IdentityType::PhoneNumber && channel_identity_of(
                    self,
                    values@,
                    match account {
                        Some(a) => Some(a@),
                        None => None,
                    },
                ) == Some(id.value@),
                None => channel_identity_of(
                    self,
                    values@,
                    match account {
                        Some(a) => Some(a@),
                        None => None,
                    },
                ) is None,
            },
    {
        match self {
            Adapter::Linq => match optional(values, "phone_number") {
                Some(v) => Some(Identity { identity_type: IdentityType::PhoneNumber, value: v.to_owned() }),
                None => None,
            },
            Adapter::Whatsapp => match account {
                Some(a) => {
                    let number = trim(a);
                    if number.unicode_len() > 0 && number.get_char(0) == '+' {
                        Some(Identity { identity_type: IdentityType::PhoneNumber, value: number.to_owned() })
                    } else {
                        None
                    }
                },
                None => None,
            },
            _ => None,
        }
    }

    /// `account(values)`: the account label an OAuth callback yields.
    pub fn account(self, values: &Values) -> (r: Option<String>)
        ensures
            match self {
                Adapter::Slack => match r {
                    Some(s) => slack::slack_label(values@) == Some(s@),
                    None => slack::slack_label(values@) is None,
                },
                _ => r is None,
            },
    {
        match self {
            Adapter::Slack => slack::slack_account_label(values),
            _ => None,
        }
    }
}

} // verus!
