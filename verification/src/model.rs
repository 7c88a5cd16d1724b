//! Provider catalog model: credential drivers, OAuth configuration, connection
//! types and providers, with the rules a definition must satisfy.
use vstd::prelude::*;
use vstd::string::*;
use vstd::utf8::*;
use crate::address::{UrlParts, endpoint, endpoint_fault, parsed_url};
use crate::error::{Error, Fault, fault_of, invalid};
use crate::json::{Json, JsonV, at, members, view_members, lemma_view_members};
use crate::schema::{credential_schema_fault, credential_values_fault, oauth_inputs, oauth_inputs_of, validate_schema, validate_values};
use crate::text::{blank, blen, byte_len, is_blank, str_eq};

verus! {

/// What a connection can be used for besides holding credentials.
#[derive(Clone, Copy, PartialEq, Eq, Debug, Structural)]
pub enum Capability {
    Channel,
}

/// How a connection type obtains its credentials.
#[derive(Clone, Copy, PartialEq, Eq, Debug, Structural)]
pub enum Driver {
    Static,
    OAuthCode,
    OAuthClientCredentials,
    OAuthJwtBearer,
    Custom,
}

/// The stored name of a driver.
pub open spec fn driver_name(d: Driver) -> Seq<char> {
    match d {
        Driver::Static => "static"@,
        Driver::OAuthCode => "oauth_code"@,
        Driver::OAuthClientCredentials => "oauth_client_credentials"@,
        Driver::OAuthJwtBearer => "oauth_jwt_bearer"@,
        Driver::Custom => "custom"@,
    }
}

impl Driver {
    pub fn as_str(self) -> (r: &'static str)
        ensures
            r@ == driver_name(self),
    {
        match self {
            Driver::Static => "static",
            Driver::OAuthCode => "oauth_code",
            Driver::OAuthClientCredentials => "oauth_client_credentials",
            Driver::OAuthJwtBearer => "oauth_jwt_bearer",
            Driver::Custom => "custom",
        }
    }

    /// The driver with the given stored name.
    pub fn parse(value: &str) -> (r: Result<Driver, Error>)
        ensures
            match r {
                Ok(d) => driver_name(d) == value@,
                Err(e) => (forall|d: Driver| driver_name(d) != value@) && e@ == Fault::Invalid(
                    "Unknown authentication driver"@,
                ),
            },
    {
        if str_eq(value, "static") {
            Ok(Driver::Static)
        } else if str_eq(value, "oauth_code") {
            Ok(Driver::OAuthCode)
        } else if str_eq(value, "oauth_client_credentials") {
            Ok(Driver::OAuthClientCredentials)
        } else if str_eq(value, "oauth_jwt_bearer") {
            Ok(Driver::OAuthJwtBearer)
        } else if str_eq(value, "custom") {
            Ok(Driver::Custom)
        } else {
            Err(invalid("Unknown authentication driver"))
        }
    }
}

/// Each driver has its own stored name, so a stored driver reads back as
/// itself: `Driver::parse(d.as_str())` is `d`.
pub proof fn law_driver_names_distinct(a: Driver, b: Driver)
    requires
        driver_name(a) == driver_name(b),
    ensures
        a == b,
{
    reveal_strlit("static");
    reveal_strlit("oauth_code");
    reveal_strlit("oauth_client_credentials");
    reveal_strlit("oauth_jwt_bearer");
    reveal_strlit("custom");
    assert("static"@.len() == 6 && "static"@[0] == 's');
    assert("custom"@.len() == 6 && "custom"@[0] == 'c');
    assert("oauth_code"@.len() == 10);
    assert("oauth_client_credentials"@.len() == 24);
    assert("oauth_jwt_bearer"@.len() == 16);
}

/// How the OAuth client authenticates at the token endpoint.
#[derive(Clone, Copy, PartialEq, Eq, Debug, Structural)]
pub enum ClientAuth {
    Body,
    Basic,
    NoAuth,
}

/// The stored name of a client authentication method.
pub open spec fn client_auth_name(a: ClientAuth) -> Seq<char> {
    match a {
        ClientAuth::Body => "body"@,
        ClientAuth::Basic => "basic"@,
        ClientAuth::NoAuth => "none"@,
    }
}

/// Each client authentication has its own stored name, so a stored one reads
/// back as itself.
pub proof fn law_client_auth_names_distinct(a: ClientAuth, b: ClientAuth)
    requires
        client_auth_name(a) == client_auth_name(b),
    ensures
        a == b,
{
    reveal_strlit("body");
    reveal_strlit("basic");
    reveal_strlit("none");
    assert("body"@.len() == 4 && "body"@[0] == 'b' && "body"@[1] == 'o');
    assert("basic"@.len() == 5);
    assert("none"@.len() == 4 && "none"@[0] == 'n');
}

impl ClientAuth {
    pub fn as_str(self) -> (r: &'static str)
        ensures
            r@ == client_auth_name(self),
    {
        match self {
            ClientAuth::Body => "body",
            ClientAuth::Basic => "basic",
            ClientAuth::NoAuth => "none",
        }
    }

    /// The client authentication with the given stored name.
    pub fn parse(value: &str) -> (r: Result<ClientAuth, Error>)
        ensures
            match r {
                Ok(a) => client_auth_name(a) == value@,
                Err(e) => (forall|a: ClientAuth| client_auth_name(a) != value@) && e@
                    == Fault::Invalid("Invalid OAuth client authentication"@),
            },
    {
        if str_eq(value, "body") {
            Ok(ClientAuth::Body)
        } else if str_eq(value, "basic") {
            Ok(ClientAuth::Basic)
        } else if str_eq(value, "none") {
            Ok(ClientAuth::NoAuth)
        } else {
            Err(invalid("Invalid OAuth client authentication"))
        }
    }
}

/// The OAuth grant a connection type uses.
#[derive(Clone, Copy, PartialEq, Eq, Debug, Structural)]
pub enum OAuthGrant {
    AuthorizationCode,
    ClientCredentials,
    JwtBearer,
}

/// The driver that runs a grant.
pub open spec fn grant_driver(g: OAuthGrant) -> Driver {
    match g {
        OAuthGrant::AuthorizationCode => Driver::OAuthCode,
        OAuthGrant::ClientCredentials => Driver::OAuthClientCredentials,
        OAuthGrant::JwtBearer => Driver::OAuthJwtBearer,
    }
}

impl OAuthGrant {
    pub fn driver(self) -> (r: Driver)
        ensures
            r == grant_driver(self),
    {
        match self {
            OAuthGrant::AuthorizationCode => Driver::OAuthCode,
            OAuthGrant::ClientCredentials => Driver::OAuthClientCredentials,
            OAuthGrant::JwtBearer => Driver::OAuthJwtBearer,
        }
    }
}

// ---------------------------------------------------------------------------
// Credential values

/// Credential values by key, in key order; a key occurs once.
pub type Values = Vec<(String, String)>;

/// The value stored under `key`.
pub open spec fn lookup(values: Seq<(String, String)>, key: Seq<char>) -> Option<Seq<char>>
    decreases values.len(),
{
    if values.len() == 0 {
        None
    } else if values[0].0@ == key {
        Some(values[0].1@)
    } else {
        lookup(values.drop_first(), key)
    }
}

pub proof fn lemma_lookup_found(values: Seq<(String, String)>, key: Seq<char>, i: int)
    requires
        0 <= i < values.len(),
        values[i].0@ == key,
        forall|k: int| 0 <= k < i ==> #[trigger] values[k].0@ != key,
    ensures
        lookup(values, key) == Some(values[i].1@),
    decreases i,
{
    if i > 0 {
        assert forall|k: int| 0 <= k < i - 1 implies #[trigger] values.drop_first()[k].0@
            != key by {
            assert(values[k + 1].0@ != key);
        }
        lemma_lookup_found(values.drop_first(), key, i - 1);
    }
}

pub proof fn lemma_lookup_missing(values: Seq<(String, String)>, key: Seq<char>)
    requires
        forall|k: int| 0 <= k < values.len() ==> #[trigger] values[k].0@ != key,
    ensures
        lookup(values, key) is None,
    decreases values.len(),
{
    if values.len() > 0 {
        assert forall|k: int| 0 <= k < values.len() - 1 implies #[trigger] values.drop_first()[
            k].0@ != key by {
            assert(values[k + 1].0@ != key);
        }
        lemma_lookup_missing(values.drop_first(), key);
    }
}

/// The value stored under `key` in a credential map.
pub fn find<'a>(values: &'a Values, key: &str) -> (r: Option<&'a str>)
    ensures
        match r {
            Some(v) => lookup(values@, key@) == Some(v@),
            None => lookup(values@, key@) is None,
        },
{
    let mut i: usize = 0;
    while i < values.len()
        invariant
            0 <= i <= values@.len(),
            forall|k: int| 0 <= k < i ==> #[trigger] values@[k].0@ != key@,
        decreases values@.len() - i,
    {
        if str_eq(values[i].0.as_str(), key) {
            proof {
                lemma_lookup_found(values@, key@, i as int);
            }
            return Some(values[i].1.as_str());
        }
        i = i + 1;
    }
    proof {
        lemma_lookup_missing(values@, key@);
    }
    None
}

/// The message of a missing required field.
pub open spec fn missing_field_message(key: Seq<char>) -> Seq<char> {
    "Missing required field: "@ + key
}

/// `value(values, key)`: a required credential that is not blank.
pub fn value<'a>(values: &'a Values, key: &str) -> (r: Result<&'a str, Error>)
    ensures
        match r {
            Ok(v) => lookup(values@, key@) == Some(v@) && !blank(v@),
            Err(e) => e@ == Fault::Invalid(missing_field_message(key@)) && match lookup(
                values@,
                key@,
            ) {
                Some(v) => blank(v),
                None => true,
            },
        },
{
    match find(values, key) {
        Some(v) => {
            if !is_blank(v) {
                return Ok(v);
            }
        },
        None => {},
    }
    let mut message = "Missing required field: ".to_owned();
    message.append(key);
    Err(Error::Invalid(message))
}

/// `optional(values, key)`: a credential that is present and not empty.
pub fn optional<'a>(values: &'a Values, key: &str) -> (r: Option<&'a str>)
    ensures
        match r {
            Some(v) => lookup(values@, key@) == Some(v@) && v@.len() > 0,
            None => match lookup(values@, key@) {
                Some(v) => v.len() == 0,
                None => true,
            },
        },
{
    match find(values, key) {
        Some(v) => {
            if v.unicode_len() > 0 {
                Some(v)
            } else {
                None
            }
        },
        None => None,
    }
}

/// A setup value with an empty or oversized key, or an oversized value.
pub open spec fn oversized_entry(e: (String, String)) -> bool {
    e.0@.len() == 0 || blen(e.0@) > 160 || blen(e.1@) > 65536
}

/// Too many or oversized setup values.
pub open spec fn oversized(values: Seq<(String, String)>) -> bool {
    values.len() > 100 || exists|i: int| 0 <= i < values.len() && oversized_entry(#[trigger] values[i])
}

/// `bounded(values)`: at most 100 values, each keyed by 1-160 bytes and holding at most 64 KiB.
pub fn bounded(values: &Values) -> (r: Result<(), Error>)
    ensures
        match r {
            Ok(_) => !oversized(values@),
            Err(e) => oversized(values@) && e@ == Fault::Invalid(
                "Too many or oversized setup values"@,
            ),
        },
{
    if values.len() > 100 {
        return Err(invalid("Too many or oversized setup values"));
    }
    let mut i: usize = 0;
    while i < values.len()
        invariant
            0 <= i <= values@.len(),
            values@.len() <= 100,
            forall|k: int| 0 <= k < i ==> !oversized_entry(#[trigger] values@[k]),
        decreases values@.len() - i,
    {
        let key = values[i].0.as_str();
        if key.unicode_len() == 0 || byte_len(key) > 160 || byte_len(values[i].1.as_str()) > 65536 {
            proof {
                assert(oversized_entry(values@[i as int]));
            }
            return Err(invalid("Too many or oversized setup values"));
        }
        assert(!oversized_entry(values@[i as int]));
        i = i + 1;
    }
    Ok(())
}

/// Whether a setup step is final.
pub open spec fn is_terminal(step: Seq<char>) -> bool {
    step == "complete"@ || step == "failed"@ || step == "cancelled"@
}

/// `terminal(step)`.
pub fn terminal(step: &str) -> (r: bool)
    ensures
        r == is_terminal(step@),
{
    str_eq(step, "complete") || str_eq(step, "failed") || str_eq(step, "cancelled")
}

// ---------------------------------------------------------------------------
// Identifiers

/// A byte allowed in identifiers.
pub open spec fn identifier_byte(b: u8) -> bool {
    (48 <= b <= 57) || (65 <= b <= 90) || (97 <= b <= 122) || b == 95 || b == 46 || b == 47
        || b == 45
}

/// A provider, type or field identifier: 1-160 bytes of `[A-Za-z0-9_./-]`.
pub open spec fn is_identifier(id: Seq<u8>) -> bool {
    0 < id.len() <= 160 && forall|i: int| 0 <= i < id.len() ==> identifier_byte(#[trigger] id[i])
}

/// The fault of a malformed identifier.
pub open spec fn identifier_fault() -> Fault {
    Fault::Invalid("Invalid provider, type or field identifier"@)
}

/// `identifier(id)`.
pub fn identifier(id: &str) -> (r: Result<(), Error>)
    ensures
        match r {
            Ok(_) => is_identifier(id.spec_bytes()),
            Err(e) => !is_identifier(id.spec_bytes()) && e@ == identifier_fault(),
        },
{
    let b = id.as_bytes();
    if b.len() == 0 || b.len() > 160 {
        return Err(invalid("Invalid provider, type or field identifier"));
    }
    let mut i: usize = 0;
    while i < b.len()
        invariant
            b@ == id.spec_bytes(),
            0 <= i <= b@.len(),
            forall|k: int| 0 <= k < i ==> identifier_byte(#[trigger] b@[k]),
        decreases b@.len() - i,
    {
        let x = b[i];
        if !((48 <= x && x <= 57) || (65 <= x && x <= 90) || (97 <= x && x <= 122) || x == 95
            || x == 46 || x == 47 || x == 45) {
            return Err(invalid("Invalid provider, type or field identifier"));
        }
        i = i + 1;
    }
    Ok(())
}

// ---------------------------------------------------------------------------
// Definitions

/// A provider-owned scalar returned with a token (workspace IDs, bot IDs and the like).
#[derive(Debug)]
pub struct ResultField {
    pub key: String,
    pub path: String,
    pub required: bool,
}

/// Protocol details of an OAuth connection type.
#[derive(Debug)]
pub struct OAuth {
    pub authorization_url: Option<String>,
    pub token_url: String,
    pub client_auth: ClientAuth,
    pub pkce: bool,
    pub scopes: Vec<String>,
    pub scope_separator: String,
    /// Extra authorization request parameters, by name in name order.
    pub authorization_parameters: Vec<(String, String)>,
    /// Extra token request parameters, by name in name order.
    pub token_parameters: Vec<(String, String)>,
    pub access_token_path: String,
    pub refresh_token_path: String,
    pub expires_in_path: String,
    pub scope_path: String,
    pub success_path: Option<String>,
    pub result_fields: Vec<ResultField>,
}

/// Whether a configuration holds the standard settings around a token endpoint.
pub open spec fn is_standard_oauth(c: OAuth) -> bool {
    &&& c.authorization_url is None
    &&& c.client_auth == ClientAuth::Body
    &&& c.pkce
    &&& c.scopes@.len() == 0
    &&& c.scope_separator@ == " "@
    &&& c.authorization_parameters@.len() == 0
    &&& c.token_parameters@.len() == 0
    &&& c.access_token_path@ == "/access_token"@
    &&& c.refresh_token_path@ == "/refresh_token"@
    &&& c.expires_in_path@ == "/expires_in"@
    &&& c.scope_path@ == "/scope"@
    &&& c.success_path is None
    &&& c.result_fields@.len() == 0
}

impl OAuth {
    /// `standard(token_url)`: body client authentication with PKCE, space-separated
    /// scopes and the conventional response fields.
    pub fn standard(token_url: &str) -> (r: OAuth)
        ensures
            r.token_url@ == token_url@,
            is_standard_oauth(r),
    {
        OAuth {
            authorization_url: None,
            token_url: token_url.to_owned(),
            client_auth: ClientAuth::Body,
            pkce: true,
            scopes: Vec::new(),
            scope_separator: " ".to_owned(),
            authorization_parameters: Vec::new(),
            token_parameters: Vec::new(),
            access_token_path: "/access_token".to_owned(),
            refresh_token_path: "/refresh_token".to_owned(),
            expires_in_path: "/expires_in".to_owned(),
            scope_path: "/scope".to_owned(),
            success_path: None,
            result_fields: Vec::new(),
        }
    }
}

/// Where a connection type's credentials come from.
#[derive(Debug)]
pub enum CredentialSource {
    Static { schema: Json },
    OAuth { grant: OAuthGrant, configuration: Box<OAuth>, additional_schema: Option<Json> },
    Custom,
}

/// The driver of a credential source.
pub open spec fn source_driver(c: CredentialSource) -> Driver {
    match c {
        CredentialSource::Static { .. } => Driver::Static,
        CredentialSource::OAuth { grant, .. } => grant_driver(grant),
        CredentialSource::Custom => Driver::Custom,
    }
}

impl CredentialSource {
    pub fn driver(&self) -> (r: Driver)
        ensures
            r == source_driver(*self),
    {
        match self {
            CredentialSource::Static { .. } => Driver::Static,
            CredentialSource::OAuth { grant, .. } => grant.driver(),
            CredentialSource::Custom => Driver::Custom,
        }
    }

    pub fn oauth(&self) -> (r: Option<&OAuth>)
        ensures
            match *self {
                CredentialSource::OAuth { configuration, .. } => r == Some(&*configuration),
                _ => r is None,
            },
    {
        match self {
            CredentialSource::OAuth { configuration, .. } => Some(configuration),
            _ => None,
        }
    }
}

/// A kind of connection a provider offers.
#[derive(Debug)]
pub struct ConnectionType {
    pub id: String,
    pub name: String,
    pub capabilities: Vec<Capability>,
    pub credential_source: CredentialSource,
}

impl ConnectionType {
    pub fn driver(&self) -> (r: Driver)
        ensures
            r == source_driver(self.credential_source),
    {
        self.credential_source.driver()
    }

    pub fn oauth(&self) -> (r: Option<&OAuth>)
        ensures
            match self.credential_source {
                CredentialSource::OAuth { configuration, .. } => r == Some(&*configuration),
                _ => r is None,
            },
    {
        self.credential_source.oauth()
    }
}

/// The backend of a remote provider.
#[derive(Debug)]
pub struct RemoteProvider {
    pub endpoint: String,
    pub ui_url: Option<String>,
}

/// Where a provider comes from and runs; the three are mutually exclusive.
#[derive(Debug)]
pub enum ProviderKind {
    BuiltIn,
    Configured,
    Remote(RemoteProvider),
}

/// The stored name of a provider kind.
pub open spec fn kind_name(k: ProviderKind) -> Seq<char> {
    match k {
        ProviderKind::BuiltIn => "built_in"@,
        ProviderKind::Configured => "configured"@,
        ProviderKind::Remote(_) => "remote"@,
    }
}

impl ProviderKind {
    pub fn as_str(&self) -> (r: &'static str)
        ensures
            r@ == kind_name(*self),
    {
        match self {
            ProviderKind::BuiltIn => "built_in",
            ProviderKind::Configured => "configured",
            ProviderKind::Remote(_) => "remote",
        }
    }

    pub fn remote(&self) -> (r: Option<&RemoteProvider>)
        ensures
            match *self {
                ProviderKind::Remote(remote) => r == Some(&remote),
                _ => r is None,
            },
    {
        match self {
            ProviderKind::Remote(remote) => Some(remote),
            _ => None,
        }
    }
}

/// A catalog entry: a provider and the connection types it offers.
#[derive(Debug)]
pub struct Provider {
    pub id: String,
    pub name: String,
    pub kind: ProviderKind,
    pub categories: Vec<String>,
    pub connection_types: Vec<ConnectionType>,
    pub icon_url: Option<String>,
    pub instructions: Option<String>,
    pub account_name_label: Option<String>,
}

/// What the setup broker shows next.
#[derive(Debug)]
pub enum Action {
    Form,
    Redirect { url: String },
    FormPost { url: String, fields: Vec<(String, String)> },
    Complete,
    Working,
    Failed,
    Cancelled,
}

// ---------------------------------------------------------------------------
// Credential sources

pub open spec fn opt_json(o: Option<Json>) -> Option<JsonV> {
    match o {
        Some(j) => Some(j@),
        None => None,
    }
}

/// The schema of the inputs a credential source takes, if it takes standard inputs.
pub open spec fn input_schema_of(c: CredentialSource) -> Option<JsonV> {
    match c {
        CredentialSource::Static { schema } => Some(schema@),
        CredentialSource::OAuth { grant, configuration, additional_schema } => Some(
            oauth_inputs_of(grant, configuration.client_auth, opt_json(additional_schema)),
        ),
        CredentialSource::Custom => None,
    }
}

impl CredentialSource {
    /// `input_schema()`: the standard form of the source; custom sources have none.
    pub fn input_schema(&self) -> (r: Option<Json>)
        ensures
            opt_json(r) == input_schema_of(*self),
    {
        match self {
            CredentialSource::Static { schema } => Some(schema.duplicate()),
            CredentialSource::OAuth { grant, configuration, additional_schema } => Some(
                oauth_inputs(*grant, configuration, additional_schema.as_ref()),
            ),
            CredentialSource::Custom => None,
        }
    }

    /// `from_storage(driver, schema, oauth)`: a source from its stored columns.
    pub fn from_storage(driver: Driver, schema: Option<Json>, oauth: Option<OAuth>) -> (r: Result<
        CredentialSource,
        Error,
    >)
        ensures
            match driver {
                Driver::Static => match schema {
                    Some(s) => r == Ok::<CredentialSource, Error>(CredentialSource::Static { schema: s }),
                    None => r matches Err(e) && e@ == Fault::Invalid("Credential schema missing"@),
                },
                Driver::Custom => r == Ok::<CredentialSource, Error>(CredentialSource::Custom),
                _ => match oauth {
                    Some(o) => r matches Ok(CredentialSource::OAuth {
                        grant,
                        configuration,
                        additional_schema,
                    }) && grant_driver(grant) == driver && *configuration == o
                        && additional_schema == schema,
                    None => r matches Err(e) && e@ == Fault::Invalid(
                        "OAuth configuration missing"@,
                    ),
                },
            },
    {
        match driver {
            Driver::Static => match schema {
                Some(s) => Ok(CredentialSource::Static { schema: s }),
                None => Err(invalid("Credential schema missing")),
            },
            Driver::Custom => Ok(CredentialSource::Custom),
            _ => {
                let configuration = match oauth {
                    Some(o) => o,
                    None => return Err(invalid("OAuth configuration missing")),
                };
                let grant = match driver {
                    Driver::OAuthCode => OAuthGrant::AuthorizationCode,
                    Driver::OAuthClientCredentials => OAuthGrant::ClientCredentials,
                    _ => OAuthGrant::JwtBearer,
                };
                Ok(
                    CredentialSource::OAuth {
                        grant,
                        configuration: Box::new(configuration),
                        additional_schema: schema,
                    },
                )
            },
        }
    }
}

// ---------------------------------------------------------------------------
// Connection type rules

/// Credential keys that additional OAuth fields cannot declare.
pub open spec fn protocol_credential(k: Seq<char>) -> bool {
    ||| k == "client_id"@
    ||| k == "client_secret"@
    ||| k == "issuer"@
    ||| k == "private_key"@
    ||| k == "subject"@
    ||| k == "access_token"@
    ||| k == "refresh_token"@
    ||| k == "scope"@
}

/// Request parameters the OAuth protocol owns.
pub open spec fn protocol_parameter(k: Seq<char>) -> bool {
    ||| k == "state"@
    ||| k == "redirect_uri"@
    ||| k == "client_id"@
    ||| k == "client_secret"@
    ||| k == "code"@
    ||| k == "code_verifier"@
    ||| k == "code_challenge"@
    ||| k == "code_challenge_method"@
    ||| k == "grant_type"@
    ||| k == "refresh_token"@
    ||| k == "assertion"@
    ||| k == "response_type"@
    ||| k == "scope"@
}

/// Credential keys a result mapping cannot write.
pub open spec fn reserved_result_key(k: Seq<char>) -> bool {
    ||| k == "client_id"@
    ||| k == "client_secret"@
    ||| k == "private_key"@
    ||| k == "access_token"@
    ||| k == "refresh_token"@
    ||| k == "scope"@
    ||| k == "configuration_refresh_token"@
}

fn is_protocol_credential(k: &str) -> (r: bool)
    ensures
        r == protocol_credential(k@),
{
    str_eq(k, "client_id") || str_eq(k, "client_secret") || str_eq(k, "issuer") || str_eq(
        k,
        "private_key",
    ) || str_eq(k, "subject") || str_eq(k, "access_token") || str_eq(k, "refresh_token")
        || str_eq(k, "scope")
}

fn is_protocol_parameter(k: &str) -> (r: bool)
    ensures
        r == protocol_parameter(k@),
{
    str_eq(k, "state") || str_eq(k, "redirect_uri") || str_eq(k, "client_id") || str_eq(
        k,
        "client_secret",
    ) || str_eq(k, "code") || str_eq(k, "code_verifier") || str_eq(k, "code_challenge")
        || str_eq(k, "code_challenge_method") || str_eq(k, "grant_type") || str_eq(
        k,
        "refresh_token",
    ) || str_eq(k, "assertion") || str_eq(k, "response_type") || str_eq(k, "scope")
}

fn is_reserved_result_key(k: &str) -> (r: bool)
    ensures
        r == reserved_result_key(k@),
{
    str_eq(k, "client_id") || str_eq(k, "client_secret") || str_eq(k, "private_key") || str_eq(
        k,
        "access_token",
    ) || str_eq(k, "refresh_token") || str_eq(k, "scope") || str_eq(
        k,
        "configuration_refresh_token",
    )
}

/// Text that begins with `c`.
pub open spec fn begins_with(s: Seq<char>, c: char) -> bool {
    s.len() > 0 && s[0] == c
}

fn begins(s: &str, c: char) -> (r: bool)
    ensures
        r == begins_with(s@, c),
{
    s.unicode_len() > 0 && s.get_char(0) == c
}

/// A response path that is neither empty nor a JSON pointer.
pub open spec fn bad_path(p: Seq<char>) -> bool {
    p.len() > 0 && !begins_with(p, '/')
}

/// Request parameters that are too many or override protocol fields.
pub open spec fn bad_parameters(params: Seq<(String, String)>) -> bool {
    params.len() > 30 || (exists|i: int| 0 <= i < params.len() && protocol_parameter(#[trigger] params[i].0@))
}

/// The fault of the result mapping at position `i`.
pub open spec fn result_field_fault(fields: Seq<ResultField>, i: int) -> Option<Fault> {
    let key = fields[i].key@;
    if !is_identifier(encode_utf8(key)) {
        Some(identifier_fault())
    } else if (exists|j: int| 0 <= j < i && #[trigger] fields[j].key@ == key) || !begins_with(
        fields[i].path@,
        '/',
    ) || begins_with(key, '_') || reserved_result_key(key) {
        Some(Fault::Invalid("Invalid OAuth result mapping or reserved credential field"@))
    } else {
        None
    }
}

/// The first fault among the first `n` result mappings.
pub open spec fn result_fields_fault(fields: Seq<ResultField>, n: nat) -> Option<Fault>
    decreases n,
{
    if n == 0 {
        None
    } else {
        match result_fields_fault(fields, (n - 1) as nat) {
            Some(f) => Some(f),
            None => result_field_fault(fields, n - 1),
        }
    }
}

pub proof fn lemma_result_fault_persists(fields: Seq<ResultField>, m: nat, n: nat)
    requires
        m <= n,
        result_fields_fault(fields, m) is Some,
    ensures
        result_fields_fault(fields, n) == result_fields_fault(fields, m),
    decreases n - m,
{
    if m < n {
        lemma_result_fault_persists(fields, m, (n - 1) as nat);
    }
}

/// The fault of an OAuth configuration used by a type with the given driver.
pub open spec fn oauth_fault(driver: Driver, c: OAuth) -> Option<Fault> {
    match endpoint_fault(c.token_url@) {
        Some(f) => Some(f),
        None => if driver == Driver::OAuthCode && c.client_auth == ClientAuth::NoAuth && !c.pkce {
            Some(Fault::Invalid("Public OAuth clients require PKCE"@))
        } else if driver == Driver::OAuthCode && c.authorization_url is None {
            Some(Fault::Invalid("Authorization URL required"@))
        } else if driver == Driver::OAuthCode && endpoint_fault(c.authorization_url->0@) is Some {
            endpoint_fault(c.authorization_url->0@)
        } else if c.scope_separator@.len() == 0 || blen(c.scope_separator@) > 4 {
            Some(Fault::Invalid("Invalid OAuth scope separator"@))
        } else if bad_path(c.access_token_path@) || bad_path(c.refresh_token_path@) || bad_path(
            c.expires_in_path@,
        ) || bad_path(c.scope_path@) {
            Some(Fault::Invalid("OAuth response paths must be JSON pointers"@))
        } else if bad_parameters(c.authorization_parameters@) || bad_parameters(
            c.token_parameters@,
        ) {
            Some(Fault::Invalid("OAuth parameters cannot override protocol-owned fields"@))
        } else if c.result_fields@.len() > 32 {
            Some(Fault::Invalid("Too many OAuth result mappings"@))
        } else {
            result_fields_fault(c.result_fields@, c.result_fields@.len())
        },
    }
}

/// Whether properties declare a protocol credential.
pub open spec fn declares_protocol_credential(props: Seq<(Seq<char>, JsonV)>) -> bool {
    exists|i: int| 0 <= i < props.len() && protocol_credential(#[trigger] props[i].0)
}

/// Whether additional OAuth fields declare a protocol credential.
pub open spec fn overrides_protocol(extra: JsonV) -> bool {
    match at(extra, "properties"@) {
        JsonV::Object(props) => declares_protocol_credential(props),
        _ => false,
    }
}

/// The fault of a connection type, if any, in the order the checks run.
pub open spec fn connection_type_fault(t: ConnectionType) -> Option<Fault> {
    if blank(t.name@) || t.capabilities@.len() > 1 {
        Some(Fault::Invalid("Invalid connection type"@))
    } else {
        match t.credential_source {
            CredentialSource::Static { schema } => match credential_schema_fault(schema@) {
                Some(f) => Some(f),
                None => None,
            },
            CredentialSource::OAuth { grant, configuration, additional_schema } => {
                let extra_fault = match additional_schema {
                    Some(extra) => match credential_schema_fault(extra@) {
                        Some(f) => Some(f),
                        None => if overrides_protocol(extra@) {
                            Some(Fault::Invalid("Additional OAuth fields cannot override protocol credentials"@))
                        } else {
                            None
                        },
                    },
                    None => None,
                };
                match extra_fault {
                    Some(f) => Some(f),
                    None => oauth_fault(grant_driver(grant), *configuration),
                }
            },
            CredentialSource::Custom => None,
        }
    }
}

fn check_parameters(params: &Vec<(String, String)>) -> (r: Result<(), Error>)
    ensures
        match r {
            Ok(_) => !bad_parameters(params@),
            Err(e) => bad_parameters(params@) && e@ == Fault::Invalid(
                "OAuth parameters cannot override protocol-owned fields"@,
            ),
        },
{
    if params.len() > 30 {
        return Err(invalid("OAuth parameters cannot override protocol-owned fields"));
    }
    let mut i: usize = 0;
    while i < params.len()
        invariant
            0 <= i <= params@.len(),
            params@.len() <= 30,
            forall|k: int| 0 <= k < i ==> !protocol_parameter(#[trigger] params@[k].0@),
        decreases params@.len() - i,
    {
        if is_protocol_parameter(params[i].0.as_str()) {
            return Err(invalid("OAuth parameters cannot override protocol-owned fields"));
        }
        i = i + 1;
    }
    Ok(())
}

fn check_result_field(fields: &Vec<ResultField>, i: usize) -> (r: Result<(), Error>)
    requires
        i < fields@.len(),
    ensures
        fault_of(r) == result_field_fault(fields@, i as int),
{
    let key = fields[i].key.as_str();
    identifier(key)?;
    let mut duplicate = false;
    let mut j: usize = 0;
    while j < i
        invariant
            0 <= j <= i < fields@.len(),
            key@ == fields@[i as int].key@,
            duplicate == (exists|m: int| 0 <= m < j && #[trigger] fields@[m].key@ == key@),
        decreases i - j,
    {
        if str_eq(fields[j].key.as_str(), key) {
            duplicate = true;
        }
        j = j + 1;
    }
    if duplicate || !begins(fields[i].path.as_str(), '/') || begins(key, '_')
        || is_reserved_result_key(key) {
        return Err(invalid("Invalid OAuth result mapping or reserved credential field"));
    }
    Ok(())
}

/// Check an OAuth configuration for a type with the given driver.
#[verifier::loop_isolation(false)]
pub fn check_oauth(driver: Driver, config: &OAuth) -> (r: Result<(), Error>)
    ensures
        fault_of(r) == oauth_fault(driver, *config),
{
    endpoint(config.token_url.as_str())?;
    if driver == Driver::OAuthCode && config.client_auth == ClientAuth::NoAuth && !config.pkce {
        return Err(invalid("Public OAuth clients require PKCE"));
    }
    if driver == Driver::OAuthCode {
        match &config.authorization_url {
            Some(u) => {
                endpoint(u.as_str())?;
            },
            None => return Err(invalid("Authorization URL required")),
        }
    }
    let separator = config.scope_separator.as_str();
    if separator.unicode_len() == 0 || byte_len(separator) > 4 {
        return Err(invalid("Invalid OAuth scope separator"));
    }
    if bad_path_of(config.access_token_path.as_str()) || bad_path_of(
        config.refresh_token_path.as_str(),
    ) || bad_path_of(config.expires_in_path.as_str()) || bad_path_of(config.scope_path.as_str()) {
        return Err(invalid("OAuth response paths must be JSON pointers"));
    }
    check_parameters(&config.authorization_parameters)?;
    check_parameters(&config.token_parameters)?;
    if config.result_fields.len() > 32 {
        return Err(invalid("Too many OAuth result mappings"));
    }
    let mut i: usize = 0;
    while i < config.result_fields.len()
        invariant
            0 <= i <= config.result_fields@.len(),
            result_fields_fault(config.result_fields@, i as nat) is None,
        decreases config.result_fields@.len() - i,
    {
        match check_result_field(&config.result_fields, i) {
            Ok(_) => {},
            Err(e) => {
                proof {
                    lemma_result_fault_persists(
                        config.result_fields@,
                        (i + 1) as nat,
                        config.result_fields@.len(),
                    );
                }
                return Err(e);
            },
        }
        i = i + 1;
    }
    Ok(())
}

fn bad_path_of(p: &str) -> (r: bool)
    ensures
        r == bad_path(p@),
{
    p.unicode_len() > 0 && !begins(p, '/')
}

#[verifier::loop_isolation(false)]
fn overrides(extra: &Json) -> (r: bool)
    ensures
        r == overrides_protocol(extra@),
{
    let found = extra.get("properties");
    let props = match found {
        Some(Json::Object(props)) => props,
        _ => return false,
    };
    proof {
        lemma_view_members(props@);
        assert(found == Some(&Json::Object(*props)));
        assert(at(extra@, "properties"@) == JsonV::Object(view_members(props@)));
    }
    let mut i: usize = 0;
    while i < props.len()
        invariant
            0 <= i <= props@.len(),
            view_members(props@).len() == props@.len(),
            forall|k: int|
                0 <= k < props@.len() ==> #[trigger] view_members(props@)[k].0 == props@[k].0@,
            forall|k: int| 0 <= k < i ==> !protocol_credential(#[trigger] props@[k].0@),
        decreases props@.len() - i,
    {
        if is_protocol_credential(props[i].0.as_str()) {
            proof {
                let v = view_members(props@);
                assert(protocol_credential(v[i as int].0));
                assert(declares_protocol_credential(v));
            }
            return true;
        }
        i = i + 1;
    }
    proof {
        let v = view_members(props@);
        assert forall|k: int| 0 <= k < v.len() implies !protocol_credential(#[trigger] v[k].0) by {
            assert(v[k].0 == props@[k].0@);
        }
    }
    false
}

impl ConnectionType {
    /// `validate()`: the rules of a connection type definition.
    pub fn validate(&self) -> (r: Result<(), Error>)
        ensures
            fault_of(r) == connection_type_fault(*self),
    {
        if is_blank(self.name.as_str()) || self.capabilities.len() > 1 {
            return Err(invalid("Invalid connection type"));
        }
        match &self.credential_source {
            CredentialSource::Static { schema } => validate_schema(schema),
            CredentialSource::OAuth { grant, configuration, additional_schema } => {
                match additional_schema {
                    Some(extra) => {
                        validate_schema(extra)?;
                        if overrides(extra) {
                            return Err(
                                invalid(
                                    "Additional OAuth fields cannot override protocol credentials",
                                ),
                            );
                        }
                    },
                    None => {},
                }
                check_oauth(grant.driver(), configuration)
            },
            CredentialSource::Custom => Ok(()),
        }
    }

    /// `validate_values(values)`: check submitted values against the type's standard form.
    pub fn validate_values(&self, values: &Values) -> (r: Result<(), Error>)
        ensures
            match input_schema_of(self.credential_source) {
                Some(schema) => fault_of(r) == credential_values_fault(schema, values@),
                None => r matches Err(e) && e@ == Fault::Invalid(
                    "Custom sources validate their own inputs"@,
                ),
            },
    {
        let schema = match self.credential_source.input_schema() {
            Some(s) => s,
            None => return Err(invalid("Custom sources validate their own inputs")),
        };
        validate_values(&schema, values)
    }
}

// ---------------------------------------------------------------------------
// Provider rules

/// A byte allowed in categories: `[a-z0-9_]`.
pub open spec fn category_byte(b: u8) -> bool {
    (97 <= b <= 122) || (48 <= b <= 57) || b == 95
}

/// Whether the category at position `i` is malformed or repeats an earlier one.
pub open spec fn bad_category(cats: Seq<String>, i: int) -> bool {
    let c = encode_utf8(cats[i]@);
    ||| c.len() == 0
    ||| c.len() > 80
    ||| (exists|k: int| 0 <= k < c.len() && !category_byte(#[trigger] c[k]))
    ||| (exists|j: int| 0 <= j < i && #[trigger] cats[j]@ == cats[i]@)
}

/// Some category is malformed or repeated.
pub open spec fn bad_categories(cats: Seq<String>) -> bool {
    exists|i: int| 0 <= i < cats.len() && #[trigger] bad_category(cats, i)
}

/// The fault of a remote provider URL.
pub open spec fn remote_url_fault(raw: Seq<char>) -> Option<Fault> {
    match endpoint_fault(raw) {
        Some(f) => Some(f),
        None => {
            let u = parsed_url(raw)->0;
            if u.query is Some || u.fragment is Some {
                Some(Fault::Invalid("Remote URLs cannot contain query or fragment"@))
            } else {
                None
            }
        },
    }
}

/// Some connection type uses a custom source.
pub open spec fn has_custom_type(types: Seq<ConnectionType>) -> bool {
    exists|i: int| 0 <= i < types.len() && source_driver(#[trigger] types[i].credential_source) == Driver::Custom
}

/// Whether the type at position `i` repeats an earlier type's ID.
pub open spec fn duplicate_type_id(types: Seq<ConnectionType>, i: int) -> bool {
    exists|j: int| 0 <= j < i && #[trigger] types[j].id@ == types[i].id@
}

/// The fault of the connection type at position `i` within a provider.
pub open spec fn provider_type_fault(types: Seq<ConnectionType>, i: int) -> Option<Fault> {
    if !is_identifier(encode_utf8(types[i].id@)) {
        Some(identifier_fault())
    } else if duplicate_type_id(types, i) {
        Some(Fault::Invalid("Duplicate connection type"@))
    } else {
        connection_type_fault(types[i])
    }
}

/// The first fault among the first `n` connection types.
pub open spec fn provider_types_fault(types: Seq<ConnectionType>, n: nat) -> Option<Fault>
    decreases n,
{
    if n == 0 {
        None
    } else {
        match provider_types_fault(types, (n - 1) as nat) {
            Some(f) => Some(f),
            None => provider_type_fault(types, n - 1),
        }
    }
}

pub proof fn lemma_types_fault_persists(types: Seq<ConnectionType>, m: nat, n: nat)
    requires
        m <= n,
        provider_types_fault(types, m) is Some,
    ensures
        provider_types_fault(types, n) == provider_types_fault(types, m),
    decreases n - m,
{
    if m < n {
        lemma_types_fault_persists(types, m, (n - 1) as nat);
    }
}

/// The faults checked after where a provider runs.
pub open spec fn provider_body_fault(p: Provider) -> Option<Fault> {
    if !is_identifier(encode_utf8(p.id@)) {
        Some(identifier_fault())
    } else if blank(p.name@) || blen(p.name@) > 200 || p.connection_types@.len() == 0
        || p.connection_types@.len() > 32 {
        Some(Fault::Invalid("Provider needs a name and 1-32 connection types"@))
    } else {
        provider_types_fault(p.connection_types@, p.connection_types@.len())
    }
}

/// The fault of where a provider runs, if any.
pub open spec fn provider_kind_fault(p: Provider) -> Option<Fault> {
    match p.kind {
        ProviderKind::Remote(remote) => match remote_url_fault(remote.endpoint@) {
            Some(f) => Some(f),
            None => match (match remote.ui_url {
                Some(u) => remote_url_fault(u@),
                None => None,
            }) {
                Some(f) => Some(f),
                None => if has_custom_type(p.connection_types@) && remote.ui_url is None {
                    Some(Fault::Invalid("Custom sources require a provider UI"@))
                } else {
                    None
                },
            },
        },
        ProviderKind::Configured => if has_custom_type(p.connection_types@) {
            Some(Fault::Invalid("Remote connection types require a registered backend"@))
        } else {
            None
        },
        ProviderKind::BuiltIn => None,
    }
}

/// The fault of a provider definition, if any, in the order the checks run.
pub open spec fn provider_fault(p: Provider) -> Option<Fault> {
    if p.categories@.len() == 0 || p.categories@.len() > 32 {
        Some(Fault::Invalid("Provider categories are required"@))
    } else if bad_categories(p.categories@) {
        Some(Fault::Invalid("Invalid or duplicate provider category"@))
    } else {
        match provider_kind_fault(p) {
            Some(f) => Some(f),
            None => provider_body_fault(p),
        }
    }
}

fn category_ok(cats: &Vec<String>, i: usize) -> (r: bool)
    requires
        i < cats@.len(),
    ensures
        r == !bad_category(cats@, i as int),
{
    let c = cats[i].as_str();
    let b = c.as_bytes();
    if b.len() == 0 || b.len() > 80 {
        return false;
    }
    let mut k: usize = 0;
    while k < b.len()
        invariant
            b@ == encode_utf8(cats@[i as int]@),
            0 <= k <= b@.len(),
            forall|m: int| 0 <= m < k ==> category_byte(#[trigger] b@[m]),
        decreases b@.len() - k,
    {
        let x = b[k];
        if !((97 <= x && x <= 122) || (48 <= x && x <= 57) || x == 95) {
            return false;
        }
        k = k + 1;
    }
    let mut j: usize = 0;
    while j < i
        invariant
            0 <= j <= i < cats@.len(),
            c@ == cats@[i as int]@,
            forall|m: int| 0 <= m < j ==> #[trigger] cats@[m]@ != cats@[i as int]@,
        decreases i - j,
    {
        if str_eq(cats[j].as_str(), c) {
            return false;
        }
        j = j + 1;
    }
    true
}

fn remote_url(raw: &str) -> (r: Result<(), Error>)
    ensures
        fault_of(r) == remote_url_fault(raw@),
{
    let u = endpoint(raw)?;
    if u.query.is_some() || u.fragment.is_some() {
        return Err(invalid("Remote URLs cannot contain query or fragment"));
    }
    Ok(())
}

fn any_custom(types: &Vec<ConnectionType>) -> (r: bool)
    ensures
        r == has_custom_type(types@),
{
    let mut i: usize = 0;
    while i < types.len()
        invariant
            0 <= i <= types@.len(),
            forall|k: int| 0 <= k < i ==> source_driver(#[trigger] types@[k].credential_source) != Driver::Custom,
        decreases types@.len() - i,
    {
        if types[i].driver() == Driver::Custom {
            return true;
        }
        i = i + 1;
    }
    false
}

#[verifier::loop_isolation(false)]
fn check_provider_type(types: &Vec<ConnectionType>, i: usize) -> (r: Result<(), Error>)
    requires
        i < types@.len(),
    ensures
        fault_of(r) == provider_type_fault(types@, i as int),
{
    let id = types[i].id.as_str();
    identifier(id)?;
    let mut j: usize = 0;
    while j < i
        invariant
            0 <= j <= i < types@.len(),
            id@ == types@[i as int].id@,
            forall|m: int| 0 <= m < j ==> #[trigger] types@[m].id@ != id@,
        decreases i - j,
    {
        if str_eq(types[j].id.as_str(), id) {
            proof {
                assert(types@[j as int].id@ == types@[i as int].id@);
                assert(duplicate_type_id(types@, i as int));
            }
            return Err(invalid("Duplicate connection type"));
        }
        j = j + 1;
    }
    types[i].validate()
}

impl Provider {
    /// `validate()`: the rules of a provider definition.
    #[verifier::loop_isolation(false)]
    pub fn validate(&self) -> (r: Result<(), Error>)
        ensures
            fault_of(r) == provider_fault(*self),
    {
        if self.categories.len() == 0 || self.categories.len() > 32 {
            return Err(invalid("Provider categories are required"));
        }
        let mut i: usize = 0;
        while i < self.categories.len()
            invariant
                0 <= i <= self.categories@.len(),
                forall|k: int| 0 <= k < i ==> !bad_category(self.categories@, k),
            decreases self.categories@.len() - i,
        {
            if !category_ok(&self.categories, i) {
                return Err(invalid("Invalid or duplicate provider category"));
            }
            i = i + 1;
        }
        match &self.kind {
            ProviderKind::Remote(remote) => {
                remote_url(remote.endpoint.as_str())?;
                match &remote.ui_url {
                    Some(u) => remote_url(u.as_str())?,
                    None => {},
                }
                if any_custom(&self.connection_types) && remote.ui_url.is_none() {
                    return Err(invalid("Custom sources require a provider UI"));
                }
            },
            ProviderKind::Configured => {
                if any_custom(&self.connection_types) {
                    return Err(invalid("Remote connection types require a registered backend"));
                }
            },
            ProviderKind::BuiltIn => {},
        }
        identifier(self.id.as_str())?;
        let name = self.name.as_str();
        if byte_len(name) > 200 || is_blank(name) || self.connection_types.len() == 0
            || self.connection_types.len() > 32 {
            return Err(invalid("Provider needs a name and 1-32 connection types"));
        }
        let mut t: usize = 0;
        while t < self.connection_types.len()
            invariant
                0 <= t <= self.connection_types@.len(),
                provider_types_fault(self.connection_types@, t as nat) is None,
            decreases self.connection_types@.len() - t,
        {
            match check_provider_type(&self.connection_types, t) {
                Ok(_) => {},
                Err(e) => {
                    proof {
                        lemma_types_fault_persists(
                            self.connection_types@,
                            (t + 1) as nat,
                            self.connection_types@.len(),
                        );
                    }
                    return Err(e);
                },
            }
            t = t + 1;
        }
        Ok(())
    }
}


/// Only the authorization-code driver needs an authorization URL: for any
/// other driver, whether a configuration has one, and which, never changes
/// whether or why it is refused.
pub proof fn law_authorization_url_only_for_code(driver: Driver, c1: OAuth, c2: OAuth)
    requires
        driver != Driver::OAuthCode,
        c1.token_url == c2.token_url,
        c1.client_auth == c2.client_auth,
        c1.pkce == c2.pkce,
        c1.scopes == c2.scopes,
        c1.scope_separator == c2.scope_separator,
        c1.authorization_parameters == c2.authorization_parameters,
        c1.token_parameters == c2.token_parameters,
        c1.access_token_path == c2.access_token_path,
        c1.refresh_token_path == c2.refresh_token_path,
        c1.expires_in_path == c2.expires_in_path,
        c1.scope_path == c2.scope_path,
        c1.success_path == c2.success_path,
        c1.result_fields == c2.result_fields,
    ensures
        oauth_fault(driver, c1) == oauth_fault(driver, c2),
{
}

} // verus!
