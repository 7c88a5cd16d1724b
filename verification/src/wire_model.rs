//! The management API's wire forms of OAuth settings, grants and setup
//! inputs, read into the model and written back.
use vstd::prelude::*;
use crate::deployment::work::lemma_key_order;
use crate::error::{Error, Fault, invalid};
use crate::json::key_less;
use crate::model::{ClientAuth, OAuth, OAuthGrant, ResultField, Values, bounded, lookup, oversized};
use crate::setup::{collect, gather, value_point};

verus! {

/// OAuth settings as the management API carries them: the client
/// authentication as its wire number, parameters as name and value pairs in
/// the order given, and empty texts where a default applies.
#[derive(Debug)]
pub struct WireOAuth {
    pub authorization_url: Option<String>,
    pub token_url: String,
    pub client_authentication: i32,
    pub pkce: bool,
    pub scopes: Vec<String>,
    pub scope_separator: String,
    pub authorization_parameters: Vec<(String, String)>,
    pub token_parameters: Vec<(String, String)>,
    pub access_token_path: String,
    pub refresh_token_path: String,
    pub expires_in_path: String,
    pub scope_path: String,
    pub success_path: Option<String>,
    pub result_fields: Vec<ResultField>,
}

/// The wire number of a client authentication.
pub open spec fn client_auth_number_of(a: ClientAuth) -> i32 {
    match a {
        ClientAuth::Body => 1,
        ClientAuth::Basic => 2,
        ClientAuth::NoAuth => 3,
    }
}

/// The wire number of a client authentication.
pub fn client_auth_number(a: ClientAuth) -> (r: i32)
    ensures
        r == client_auth_number_of(a),
{
    match a {
        ClientAuth::Body => 1,
        ClientAuth::Basic => 2,
        ClientAuth::NoAuth => 3,
    }
}

/// The client authentication a wire number names; an unset number (0)
/// means the body.
pub open spec fn client_auth_from(n: i32) -> Option<ClientAuth> {
    if n == 0 || n == 1 {
        Some(ClientAuth::Body)
    } else if n == 2 {
        Some(ClientAuth::Basic)
    } else if n == 3 {
        Some(ClientAuth::NoAuth)
    } else {
        None
    }
}

/// Reads a client authentication's wire number.
pub fn client_auth_from_number(n: i32) -> (r: Result<ClientAuth, Error>)
    ensures
        match client_auth_from(n) {
            Some(a) => r matches Ok(b) && b == a,
            None => r matches Err(e) && e@ == Fault::Invalid("Unknown OAuth client authentication"@),
        },
{
    if n == 0 || n == 1 {
        Ok(ClientAuth::Body)
    } else if n == 2 {
        Ok(ClientAuth::Basic)
    } else if n == 3 {
        Ok(ClientAuth::NoAuth)
    } else {
        Err(invalid("Unknown OAuth client authentication"))
    }
}

/// A client authentication written to the wire reads back as itself.
pub proof fn law_client_auth_number_round_trip(a: ClientAuth)
    ensures
        client_auth_from(client_auth_number_of(a)) == Some(a),
{
}

/// The wire number of a grant.
pub open spec fn grant_number_of(g: OAuthGrant) -> i32 {
    match g {
        OAuthGrant::AuthorizationCode => 1,
        OAuthGrant::ClientCredentials => 2,
        OAuthGrant::JwtBearer => 3,
    }
}

/// The wire number of a grant.
pub fn grant_number(g: OAuthGrant) -> (r: i32)
    ensures
        r == grant_number_of(g),
{
    match g {
        OAuthGrant::AuthorizationCode => 1,
        OAuthGrant::ClientCredentials => 2,
        OAuthGrant::JwtBearer => 3,
    }
}

/// The grant a wire number names.
pub open spec fn grant_from(n: i32) -> Option<OAuthGrant> {
    if n == 1 {
        Some(OAuthGrant::AuthorizationCode)
    } else if n == 2 {
        Some(OAuthGrant::ClientCredentials)
    } else if n == 3 {
        Some(OAuthGrant::JwtBearer)
    } else {
        None
    }
}

/// Reads a grant's wire number; an unset or unknown one is refused.
pub fn grant_from_number(n: i32) -> (r: Result<OAuthGrant, Error>)
    ensures
        match grant_from(n) {
            Some(g) => r matches Ok(h) && h == g,
            None => r matches Err(e) && e@ == Fault::Invalid("OAuth grant required"@),
        },
{
    if n == 1 {
        Ok(OAuthGrant::AuthorizationCode)
    } else if n == 2 {
        Ok(OAuthGrant::ClientCredentials)
    } else if n == 3 {
        Ok(OAuthGrant::JwtBearer)
    } else {
        Err(invalid("OAuth grant required"))
    }
}

/// A grant written to the wire reads back as itself.
pub proof fn law_grant_number_round_trip(g: OAuthGrant)
    ensures
        grant_from(grant_number_of(g)) == Some(g),
{
}

/// Reads OAuth parameters into name order, refusing a name that comes twice.
pub fn parameters_model(params: Vec<(String, String)>) -> (r: Result<Vec<(String, String)>, Error>)
    ensures
        match collect(params@) {
            Some(v) => r matches Ok(w) && w@ == v,
            None => r matches Err(e) && e@ == Fault::Invalid("Duplicate OAuth parameter"@),
        },
{
    match gather(params) {
        Some(v) => Ok(v),
        None => Err(invalid("Duplicate OAuth parameter")),
    }
}

/// Reads setup input fields into values in key order, refusing a key that
/// comes twice, and too many or oversized values.
pub fn input_values(fields: Vec<(String, String)>) -> (r: Result<Values, Error>)
    ensures
        match collect(fields@) {
            None => r matches Err(e) && e@ == Fault::Invalid("Duplicate input field"@),
            Some(v) => if oversized(v) {
                r matches Err(e) && e@ == Fault::Invalid("Too many or oversized setup values"@)
            } else {
                r matches Ok(w) && w@ == v
            },
        },
{
    let values = match gather(fields) {
        Some(v) => v,
        None => return Err(invalid("Duplicate input field")),
    };
    match bounded(&values) {
        Ok(()) => Ok(values),
        Err(e) => Err(e),
    }
}

/// A text, or `default` where it is empty.
pub open spec fn or_default_of(value: Seq<char>, default: Seq<char>) -> Seq<char> {
    if value.len() == 0 { default } else { value }
}

/// A text, or `default` where it is empty.
pub fn or_default(value: String, default: &str) -> (r: String)
    ensures
        r@ == or_default_of(value@, default@),
{
    if value.unicode_len() == 0 {
        default.to_owned()
    } else {
        value
    }
}

/// Reads OAuth settings from the wire: an unknown client authentication is
/// refused, then a parameter name that comes twice (authorization
/// parameters first); empty texts take the defaults (a space between scopes,
/// `/access_token`, `/refresh_token`, `/expires_in` and `/scope`).
pub fn oauth_model(o: WireOAuth) -> (r: Result<OAuth, Error>)
    ensures
        client_auth_from(o.client_authentication) is None
            ==> (r matches Err(e) && e@ == Fault::Invalid("Unknown OAuth client authentication"@)),
        client_auth_from(o.client_authentication) is Some && (collect(o.authorization_parameters@) is None
            || collect(o.token_parameters@) is None)
            ==> (r matches Err(e) && e@ == Fault::Invalid("Duplicate OAuth parameter"@)),
        r matches Ok(c) ==> {
            &&& client_auth_from(o.client_authentication) == Some(c.client_auth)
            &&& collect(o.authorization_parameters@) == Some(c.authorization_parameters@)
            &&& collect(o.token_parameters@) == Some(c.token_parameters@)
            &&& c.authorization_url == o.authorization_url
            &&& c.token_url == o.token_url
            &&& c.pkce == o.pkce
            &&& c.scopes == o.scopes
            &&& c.scope_separator@ == or_default_of(o.scope_separator@, " "@)
            &&& c.access_token_path@ == or_default_of(o.access_token_path@, "/access_token"@)
            &&& c.refresh_token_path@ == or_default_of(o.refresh_token_path@, "/refresh_token"@)
            &&& c.expires_in_path@ == or_default_of(o.expires_in_path@, "/expires_in"@)
            &&& c.scope_path@ == or_default_of(o.scope_path@, "/scope"@)
            &&& c.success_path == o.success_path
            &&& c.result_fields == o.result_fields
        },
        client_auth_from(o.client_authentication) is Some && collect(o.authorization_parameters@) is Some
            && collect(o.token_parameters@) is Some ==> r is Ok,
{
    let client_auth = match client_auth_from_number(o.client_authentication) {
        Ok(a) => a,
        Err(e) => return Err(e),
    };
    let authorization_parameters = match parameters_model(o.authorization_parameters) {
        Ok(p) => p,
        Err(e) => return Err(e),
    };
    let token_parameters = match parameters_model(o.token_parameters) {
        Ok(p) => p,
        Err(e) => return Err(e),
    };
    Ok(OAuth {
        authorization_url: o.authorization_url,
        token_url: o.token_url,
        client_auth,
        pkce: o.pkce,
        scopes: o.scopes,
        scope_separator: or_default(o.scope_separator, " "),
        authorization_parameters,
        token_parameters,
        access_token_path: or_default(o.access_token_path, "/access_token"),
        refresh_token_path: or_default(o.refresh_token_path, "/refresh_token"),
        expires_in_path: or_default(o.expires_in_path, "/expires_in"),
        scope_path: or_default(o.scope_path, "/scope"),
        success_path: o.success_path,
        result_fields: o.result_fields,
    })
}

/// Writes OAuth settings to the wire, the client authentication as its number.
pub fn oauth_wire(c: OAuth) -> (r: WireOAuth)
    ensures
        r.client_authentication == client_auth_number_of(c.client_auth),
        r.authorization_url == c.authorization_url && r.token_url == c.token_url && r.pkce == c.pkce,
        r.scopes == c.scopes && r.scope_separator == c.scope_separator,
        r.authorization_parameters == c.authorization_parameters && r.token_parameters == c.token_parameters,
        r.access_token_path == c.access_token_path && r.refresh_token_path == c.refresh_token_path,
        r.expires_in_path == c.expires_in_path && r.scope_path == c.scope_path,
        r.success_path == c.success_path && r.result_fields == c.result_fields,
{
    WireOAuth {
        authorization_url: c.authorization_url,
        token_url: c.token_url,
        client_authentication: client_auth_number(c.client_auth),
        pkce: c.pkce,
        scopes: c.scopes,
        scope_separator: c.scope_separator,
        authorization_parameters: c.authorization_parameters,
        token_parameters: c.token_parameters,
        access_token_path: c.access_token_path,
        refresh_token_path: c.refresh_token_path,
        expires_in_path: c.expires_in_path,
        scope_path: c.scope_path,
        success_path: c.success_path,
        result_fields: c.result_fields,
    }
}

/// Values whose names rise strictly in name order.
pub open spec fn strictly_ordered(s: Seq<(String, String)>) -> bool {
    forall|i: int, j: int| 0 <= i < j < s.len() ==> key_less(#[trigger] s[i].0@, #[trigger] s[j].0@)
}

proof fn lemma_lookup_absent(values: Seq<(String, String)>, key: Seq<char>)
    requires
        forall|k: int| 0 <= k < values.len() ==> #[trigger] values[k].0@ != key,
    ensures
        lookup(values, key) is None,
    decreases values.len(),
{
    if values.len() > 0 {
        assert(values[0].0@ != key);
        assert forall|k: int| 0 <= k < values.drop_first().len() implies #[trigger] values.drop_first()[k].0@ != key by {
            assert(values.drop_first()[k] == values[k + 1]);
        }
        lemma_lookup_absent(values.drop_first(), key);
    }
}

proof fn lemma_point_at_end(acc: Seq<(String, String)>, key: Seq<char>)
    requires
        forall|k: int| 0 <= k < acc.len() ==> key_less(#[trigger] acc[k].0@, key),
    ensures
        value_point(acc, key) == acc.len(),
    decreases acc.len(),
{
    if acc.len() > 0 {
        assert(key_less(acc[0].0@, key));
        assert forall|k: int| 0 <= k < acc.drop_first().len() implies key_less(#[trigger] acc.drop_first()[k].0@, key) by {
            assert(acc.drop_first()[k] == acc[k + 1]);
        }
        lemma_point_at_end(acc.drop_first(), key);
    }
}

/// Parameters written to the wire in name order, each name once, read back
/// as themselves.
pub proof fn law_ordered_parameters_read_back(s: Seq<(String, String)>)
    requires
        strictly_ordered(s),
    ensures
        collect(s) == Some(s),
    decreases s.len(),
{
    if s.len() > 0 {
        let init = s.drop_last();
        assert(strictly_ordered(init)) by {
            assert forall|i: int, j: int| 0 <= i < j < init.len() implies key_less(#[trigger] init[i].0@, #[trigger] init[j].0@) by {
                assert(init[i] == s[i] && init[j] == s[j]);
            }
        }
        law_ordered_parameters_read_back(init);
        let e = s.last();
        assert forall|k: int| 0 <= k < init.len() implies key_less(#[trigger] init[k].0@, e.0@) by {
            assert(init[k] == s[k]);
            assert(key_less(s[k].0@, s[s.len() - 1].0@));
        }
        assert forall|k: int| 0 <= k < init.len() implies #[trigger] init[k].0@ != e.0@ by {
            assert(key_less(init[k].0@, e.0@));
            lemma_key_order(e.0@, e.0@, e.0@);
        }
        lemma_lookup_absent(init, e.0@);
        lemma_point_at_end(init, e.0@);
        assert(init.insert(init.len() as int, e) =~= s);
    }
}

/// OAuth settings with their parameters in name order, each name once, and
/// no empty separator or path read back from their wire form as themselves:
/// every field `oauth_model` reads from `oauth_wire`'s result is the field
/// written.
pub proof fn law_oauth_round_trip(c: OAuth)
    requires
        strictly_ordered(c.authorization_parameters@),
        strictly_ordered(c.token_parameters@),
        c.scope_separator@.len() > 0,
        c.access_token_path@.len() > 0,
        c.refresh_token_path@.len() > 0,
        c.expires_in_path@.len() > 0,
        c.scope_path@.len() > 0,
    ensures
        client_auth_from(client_auth_number_of(c.client_auth)) == Some(c.client_auth),
        collect(c.authorization_parameters@) == Some(c.authorization_parameters@),
        collect(c.token_parameters@) == Some(c.token_parameters@),
        or_default_of(c.scope_separator@, " "@) == c.scope_separator@,
        or_default_of(c.access_token_path@, "/access_token"@) == c.access_token_path@,
        or_default_of(c.refresh_token_path@, "/refresh_token"@) == c.refresh_token_path@,
        or_default_of(c.expires_in_path@, "/expires_in"@) == c.expires_in_path@,
        or_default_of(c.scope_path@, "/scope"@) == c.scope_path@,
{
    law_ordered_parameters_read_back(c.authorization_parameters@);
    law_ordered_parameters_read_back(c.token_parameters@);
}

} // verus!
