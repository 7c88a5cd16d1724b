//! The Slack catalog entry: a user-owned Slack app created from a manifest or
//! connected with existing app credentials.
use vstd::prelude::*;
use vstd::string::*;
use super::{CATEGORY_CHAT, Endpoints, builtin_provider, custom_channel_type, input};
use super::github::{check_setup_path, path_input_fault};
use crate::error::{Error, Fault, fault_of, invalid};
use crate::model::{
    Capability, ClientAuth, CredentialSource, OAuth, Provider, ProviderKind, ResultField, Values,
    lookup, optional,
};
use crate::text::{str_eq, strip_end, trim_end_char};

verus! {

/// `definition()`: the built-in Slack provider.
pub fn definition() -> (r: Provider)
    ensures
        r.id@ == "slack"@,
        r.name@ == "Slack"@,
        r.kind == ProviderKind::BuiltIn,
        r.categories@.len() == 1 && r.categories@[0]@ == "chat"@,
        r.connection_types@.len() == 1,
        r.connection_types@[0].id@ == "slack_app"@,
        r.connection_types@[0].name@ == "Slack App"@,
        r.connection_types@[0].capabilities@ == seq![Capability::Channel],
        r.connection_types@[0].credential_source == CredentialSource::Custom,
{
    builtin_provider(
        "slack",
        "Slack",
        CATEGORY_CHAT,
        custom_channel_type("slack_app", "Slack App"),
        None,
        None,
        None,
    )
}

/// The bot scopes a Slack channel app requests.
pub open spec fn slack_scope_names() -> Seq<Seq<char>> {
    seq![
        "app_mentions:read"@,
        "channels:history"@,
        "channels:join"@,
        "channels:read"@,
        "chat:write"@,
        "chat:write.public"@,
        "groups:history"@,
        "groups:read"@,
        "im:history"@,
        "im:read"@,
        "im:write"@,
        "mpim:history"@,
        "mpim:read"@,
        "files:read"@,
        "reactions:read"@,
        "reactions:write"@,
        "users:read"@,
        "users:read.email"@,
    ]
}

/// `slack_scopes()`.
pub fn slack_scopes() -> (r: Vec<&'static str>)
    ensures
        r@.len() == slack_scope_names().len(),
        forall|i: int| 0 <= i < r@.len() ==> #[trigger] r@[i]@ == slack_scope_names()[i],
{
    let mut v: Vec<&'static str> = Vec::new();
    v.push("app_mentions:read");
    v.push("channels:history");
    v.push("channels:join");
    v.push("channels:read");
    v.push("chat:write");
    v.push("chat:write.public");
    v.push("groups:history");
    v.push("groups:read");
    v.push("im:history");
    v.push("im:read");
    v.push("im:write");
    v.push("mpim:history");
    v.push("mpim:read");
    v.push("files:read");
    v.push("reactions:read");
    v.push("reactions:write");
    v.push("users:read");
    v.push("users:read.email");
    v
}

fn result_field(key: &str, path: &str, required: bool) -> (r: ResultField)
    ensures
        r.key@ == key@,
        r.path@ == path@,
        r.required == required,
{
    ResultField { key: key.to_owned(), path: path.to_owned(), required }
}

/// The Slack API base, as overridden or by default.
pub open spec fn slack_api(endpoints: Seq<(String, String)>) -> Seq<char> {
    match lookup(endpoints, "slack_api"@) {
        Some(v) => v,
        None => "https://slack.com/api"@,
    }
}

/// `slack_oauth(endpoints)`: Slack's OAuth v2 flow, without PKCE, reporting
/// success at `/ok` and the workspace, app and bot identity.
pub fn slack_oauth(endpoints: &Endpoints) -> (r: OAuth)
    ensures
        r.token_url@ == strip_end(slack_api(endpoints.0@), '/') + "/oauth.v2.access"@,
        r.authorization_url matches Some(u) && u@ == match lookup(
            endpoints.0@,
            "slack_authorize"@,
        ) {
            Some(v) => v,
            None => "https://slack.com/oauth/v2/authorize"@,
        },
        r.client_auth == ClientAuth::Body,
        !r.pkce,
        r.scopes@.len() == slack_scope_names().len(),
        forall|i: int| 0 <= i < r.scopes@.len() ==> #[trigger] r.scopes@[i]@ == slack_scope_names()[i],
        r.scope_separator@ == ","@,
        r.success_path matches Some(p) && p@ == "/ok"@,
        r.access_token_path@ == "/access_token"@,
        r.refresh_token_path@ == "/refresh_token"@,
        r.expires_in_path@ == "/expires_in"@,
        r.scope_path@ == "/scope"@,
        r.authorization_parameters@.len() == 0,
        r.token_parameters@.len() == 0,
        r.result_fields@.len() == 5,
        r.result_fields@[0].key@ == "slack_team_id"@ && r.result_fields@[0].path@ == "/team/id"@
            && r.result_fields@[0].required,
        r.result_fields@[1].key@ == "slack_team_name"@ && r.result_fields@[1].path@
            == "/team/name"@ && !r.result_fields@[1].required,
        r.result_fields@[2].key@ == "slack_enterprise_id"@ && r.result_fields@[2].path@
            == "/enterprise/id"@ && !r.result_fields@[2].required,
        r.result_fields@[3].key@ == "slack_api_app_id"@ && r.result_fields@[3].path@
            == "/app_id"@ && r.result_fields@[3].required,
        r.result_fields@[4].key@ == "slack_bot_user_id"@ && r.result_fields@[4].path@
            == "/bot_user_id"@ && r.result_fields@[4].required,
{
    let mut token_url = trim_end_char(endpoints.get("slack_api", "https://slack.com/api"), '/').to_owned();
    token_url.append("/oauth.v2.access");
    let mut config = OAuth::standard(token_url.as_str());
    config.authorization_url = Some(
        endpoints.get("slack_authorize", "https://slack.com/oauth/v2/authorize").to_owned(),
    );
    config.pkce = false;
    let names = slack_scopes();
    let mut scopes: Vec<String> = Vec::new();
    let mut i: usize = 0;
    while i < names.len()
        invariant
            0 <= i <= names@.len(),
            names@.len() == slack_scope_names().len(),
            forall|k: int| 0 <= k < names@.len() ==> #[trigger] names@[k]@ == slack_scope_names()[k],
            scopes@.len() == i,
            forall|k: int| 0 <= k < i ==> #[trigger] scopes@[k]@ == slack_scope_names()[k],
        decreases names@.len() - i,
    {
        scopes.push(names[i].to_owned());
        i = i + 1;
    }
    config.scopes = scopes;
    config.scope_separator = ",".to_owned();
    config.success_path = Some("/ok".to_owned());
    let mut fields: Vec<ResultField> = Vec::new();
    fields.push(result_field("slack_team_id", "/team/id", true));
    fields.push(result_field("slack_team_name", "/team/name", false));
    fields.push(result_field("slack_enterprise_id", "/enterprise/id", false));
    fields.push(result_field("slack_api_app_id", "/app_id", true));
    fields.push(result_field("slack_bot_user_id", "/bot_user_id", true));
    config.result_fields = fields;
    config
}

/// The account label of a Slack connection: the workspace name, else its ID.
pub open spec fn slack_label(values: Seq<(String, String)>) -> Option<Seq<char>> {
    match lookup(values, "slack_team_name"@) {
        Some(v) if v.len() > 0 => Some(v),
        _ => match lookup(values, "slack_team_id"@) {
            Some(v) if v.len() > 0 => Some(v),
            _ => None,
        },
    }
}

/// `slack_account_label(values)`.
pub fn slack_account_label(values: &Values) -> (r: Option<String>)
    ensures
        match r {
            Some(s) => slack_label(values@) == Some(s@),
            None => slack_label(values@) is None,
        },
{
    match optional(values, "slack_team_name") {
        Some(v) => Some(v.to_owned()),
        None => match optional(values, "slack_team_id") {
            Some(v) => Some(v.to_owned()),
            None => None,
        },
    }
}

/// `validate_input(typ, step, values)` of the Slack adapter.
pub fn validate_input(step: &str, values: &Values) -> (r: Result<(), Error>)
    ensures
        fault_of(r) == path_input_fault(
            step@,
            values@,
            "slack"@,
            seq!["app_name", "configuration_refresh_token"],
            seq![],
            seq!["client_id", "client_secret", "signing_secret"],
        ),
{
    proof {
        reveal_strlit("slack");
        reveal_strlit("_create");
        reveal_strlit("_existing");
        reveal_strlit("slack_create");
        reveal_strlit("slack_existing");
        assert("slack"@ + "_create"@ =~= "slack_create"@);
        assert("slack"@ + "_existing"@ =~= "slack_existing"@);
    }
    if str_eq(step, "fields") {
        check_setup_path(values)
    } else if str_eq(step, "slack_create") {
        let required: [&str; 2] = ["app_name", "configuration_refresh_token"];
        let none: [&str; 0] = [];
        proof {
            assert(required@ =~= seq!["app_name", "configuration_refresh_token"]);
            assert(none@ =~= Seq::<&str>::empty());
        }
        input(values, &required, &none)
    } else if str_eq(step, "slack_existing") {
        let required: [&str; 3] = ["client_id", "client_secret", "signing_secret"];
        let none: [&str; 0] = [];
        proof {
            assert(required@ =~= seq!["client_id", "client_secret", "signing_secret"]);
            assert(none@ =~= Seq::<&str>::empty());
        }
        input(values, &required, &none)
    } else {
        Err(invalid("This step requires a provider callback"))
    }
}

} // verus!
