use tilde::crypto::{base64_standard, base64_url, constant_time_eq, hex_encode, random_secret, random_standard_secret, sha256, wipe};
use tilde::error::Error;
use tilde::ids::{id, parse_uuid, uuid_text};
use tilde::json::{Json, JsonNumber};
use tilde::model::{
    Action, ClientAuth, ConnectionType, CredentialSource, Driver, OAuth, Provider, ProviderKind,
    RemoteProvider, ResultField,
};
use tilde::oauth::{number_string, parse_i64, parse_token, read_token};
use tilde::pointer::{index_token, unescape_token};
use tilde::setup::{
    backend_authorization, broker_ui_path, brokering_url, callback_state, callback_url,
    check_assignments, check_callback, check_claim, check_connection_name, check_restart,
    projected_action, provider_values, public_base, remote_next, route_callback, ui_path,
    webhook_url, CallbackRoute, RemoteNext, RemoteResult,
};

const SETUP: u128 = 0x67e5504410b1426f9247bb680e5fe0c8;
const SETUP_TEXT: &str = "67e55044-10b1-426f-9247-bb680e5fe0c8";

fn object(members: Vec<(&str, Json)>) -> Json {
    let mut o = Json::object();
    for (k, v) in members {
        o.set(k, v);
    }
    o
}

fn invalid_message(e: Error) -> String {
    match e {
        Error::Invalid(m) => m,
        other => panic!("expected an invalid input, got {other:?}"),
    }
}

#[test]
fn driver_names_round_trip() {
    for d in [Driver::Static, Driver::OAuthCode, Driver::OAuthClientCredentials, Driver::OAuthJwtBearer, Driver::Custom] {
        assert_eq!(Driver::parse(d.as_str()).unwrap(), d);
    }
    for a in [ClientAuth::Body, ClientAuth::Basic, ClientAuth::NoAuth] {
        assert_eq!(ClientAuth::parse(a.as_str()).unwrap(), a);
    }
    assert_eq!(ClientAuth::NoAuth.as_str(), "none");
    assert_eq!(invalid_message(Driver::parse("oauth").unwrap_err()), "Unknown authentication driver");
}

#[test]
fn uuid_text_and_parsing() {
    assert_eq!(uuid_text(SETUP), SETUP_TEXT);
    assert_eq!(parse_uuid(SETUP_TEXT), Some(SETUP));
    assert_eq!(parse_uuid("67e5504410b1426f9247bb680e5fe0c8"), Some(SETUP));
    assert_eq!(parse_uuid("nope"), None);
    assert_eq!(uuid_text(0), "00000000-0000-0000-0000-000000000000");
    assert_eq!(invalid_message(id("x").unwrap_err()), "Invalid UUID");
}

#[test]
fn digests_and_encodings() {
    assert_eq!(
        hex_encode(&sha256(b"abc")),
        "ba7816bf8f01cfea414140de5dae2223b00361a396177a9cb410ff61f20015ad"
    );
    assert_eq!(base64_url(&[0xfb, 0xff]), "-_8");
    assert_eq!(base64_standard(&[0xfb, 0xff]), "+/8=");
    assert_eq!(base64_url(b"any carnal pleas"), "YW55IGNhcm5hbCBwbGVhcw");
    assert_eq!(hex_encode(&[0, 15, 255]), "000fff");
    assert!(constant_time_eq(b"same", b"same"));
    assert!(!constant_time_eq(b"same", b"sama"));
    assert!(!constant_time_eq(b"same", b"sam"));
}

#[test]
fn secrets_have_their_length() {
    let a = random_secret();
    let b = random_secret();
    assert_eq!(a.len(), 43);
    assert_ne!(a, b);
    assert!(a.bytes().all(|c| c.is_ascii_alphanumeric() || c == b'-' || c == b'_'));
    assert_eq!(random_standard_secret().len(), 44);
    let mut s = String::from("secret");
    wipe(&mut s);
    assert!(s.is_empty());
}

#[test]
fn public_address() {
    assert_eq!(public_base("https://tilde.example/").unwrap(), "https://tilde.example");
    assert_eq!(public_base("http://localhost:8080").unwrap(), "http://localhost:8080");
    assert_eq!(invalid_message(public_base("not a url").unwrap_err()), "Invalid public URL");
    assert_eq!(
        invalid_message(public_base("ftp://x.example").unwrap_err()),
        "Public URL must be HTTP(S) without credentials or fragment"
    );
    assert_eq!(
        invalid_message(public_base("https://u:p@x.example").unwrap_err()),
        "Public URL must be HTTP(S) without credentials or fragment"
    );
    assert_eq!(
        invalid_message(public_base("https://x.example/#f").unwrap_err()),
        "Public URL must be HTTP(S) without credentials or fragment"
    );
    assert_eq!(invalid_message(public_base("https://x.example/?q=1").unwrap_err()), "Public URL cannot contain a query");
}

#[test]
fn links() {
    assert_eq!(callback_url("https://t.example"), "https://t.example/connections/callback");
    assert_eq!(
        brokering_url("https://t.example", SETUP, "tok"),
        format!("https://t.example/connections/broker/{SETUP_TEXT}?connection_setup_token=tok")
    );
    assert_eq!(callback_state(SETUP, "abc"), format!("{SETUP_TEXT}.abc"));
    assert_eq!(webhook_url("https://t.example", SETUP, true).unwrap(), format!("https://t.example/connections/webhooks/{SETUP_TEXT}"));
    assert!(webhook_url("https://t.example", SETUP, false).is_none());
}

fn provider(kind: ProviderKind, driver_custom: bool) -> Provider {
    Provider {
        id: "acme".into(),
        name: "Acme".into(),
        kind,
        categories: vec![],
        connection_types: vec![ConnectionType {
            id: "main".into(),
            name: "Main".into(),
            capabilities: vec![],
            credential_source: if driver_custom { CredentialSource::Custom } else { CredentialSource::Static { schema: Json::object() } },
        }],
        icon_url: None,
        instructions: None,
        account_name_label: None,
    }
}

fn remote() -> ProviderKind {
    ProviderKind::Remote(RemoteProvider { endpoint: "https://acme.example".into(), ui_url: None })
}

#[test]
fn backend_tokens() {
    let token = "t".repeat(32);
    assert_eq!(backend_authorization(&provider(remote(), true), Some(&token)).unwrap(), true);
    assert_eq!(backend_authorization(&provider(remote(), false), None).unwrap(), false);
    assert_eq!(backend_authorization(&provider(ProviderKind::Configured, true), None).unwrap(), false);
    let refused = "Remote providers require a backend token of at least 32 characters";
    assert_eq!(invalid_message(backend_authorization(&provider(remote(), true), None).unwrap_err()), refused);
    assert_eq!(invalid_message(backend_authorization(&provider(remote(), true), Some("short")).unwrap_err()), refused);
    let spaced = format!("{} ", "t".repeat(32));
    assert_eq!(invalid_message(backend_authorization(&provider(remote(), true), Some(&spaced)).unwrap_err()), refused);
    assert_eq!(invalid_message(backend_authorization(&provider(ProviderKind::Configured, false), Some(&token)).unwrap_err()), refused);
}

#[test]
fn connection_start_checks() {
    assert!(check_connection_name("Support inbox").is_ok());
    assert!(check_connection_name("   ").is_err());
    assert!(check_connection_name(&"n".repeat(201)).is_err());
    assert!(check_connection_name(&"n".repeat(200)).is_ok());
    assert!(check_restart(("a", "b", "c"), ("a", "b", "c")).is_ok());
    assert_eq!(invalid_message(check_restart(("a", "b", "c"), ("a", "x", "c")).unwrap_err()), "Connection ID already exists with different parameters");
    assert!(check_assignments(1).is_ok());
    assert_eq!(invalid_message(check_assignments(2).unwrap_err()), "Only one channel assignment is supported");
}

#[test]
fn broker_actions() {
    assert!(matches!(projected_action(true, "fields", None, false).unwrap(), Some(Action::Working)));
    assert!(matches!(projected_action(false, "complete", None, false).unwrap(), Some(Action::Complete)));
    assert!(matches!(projected_action(false, "failed", None, false).unwrap(), Some(Action::Failed)));
    match projected_action(false, "provider_redirect", Some("https://p.example"), false).unwrap() {
        Some(Action::Redirect { url }) => assert_eq!(url, "https://p.example"),
        _ => panic!("expected a redirect"),
    }
    assert_eq!(invalid_message(projected_action(false, "provider_redirect", None, false).unwrap_err()), "Provider redirect missing");
    assert!(matches!(projected_action(false, "fields", None, true).unwrap(), Some(Action::Form)));
    assert!(projected_action(false, "fields", None, false).unwrap().is_none());
}

#[test]
fn setup_ui_paths() {
    assert_eq!(ui_path(&provider(remote(), true), "x"), "/connections/ui/remote/YWNtZQ/index.html");
    assert_eq!(ui_path(&provider(ProviderKind::BuiltIn, true), "github"), "/catalog/github/ui");
    assert_eq!(broker_ui_path(Driver::Static, &provider(remote(), true), "x"), "/catalog/_standard/ui");
    assert_eq!(broker_ui_path(Driver::Custom, &provider(ProviderKind::BuiltIn, true), "slack"), "/catalog/slack/ui");
}

#[test]
fn provider_callbacks() {
    let state = "67e55044-10b1-426f-9247-bb680e5fe0c8.token";
    let hash = sha256(state.as_bytes());
    assert!(check_callback(state, &hash, 10, 9).is_ok());
    assert_eq!(invalid_message(check_callback(state, &hash, 10, 10).unwrap_err()), "Invalid or expired provider callback");
    assert!(check_callback("other", &hash, 10, 0).is_err());
    assert_eq!(route_callback("complete", true, true), CallbackRoute::Finished);
    assert_eq!(route_callback("provider_redirect", true, false), CallbackRoute::Remote);
    assert_eq!(route_callback("authorize", false, true), CallbackRoute::Adapter);
    assert_eq!(route_callback("authorize", false, false), CallbackRoute::Unexpected);
    assert!(check_claim(1, 1, "fields", "fields").is_ok());
    assert_eq!(invalid_message(check_claim(1, 2, "fields", "fields").unwrap_err()), "Stale or unexpected setup action");
}

fn pairs(items: &[(&str, &str)]) -> Vec<(String, String)> {
    items.iter().map(|(k, v)| (k.to_string(), v.to_string())).collect()
}

#[test]
fn remote_setup_results() {
    let values = provider_values(pairs(&[("b", "2"), ("a", "1")])).unwrap();
    assert_eq!(values, pairs(&[("a", "1"), ("b", "2")]));
    assert_eq!(invalid_message(provider_values(pairs(&[("a", "1"), ("a", "2")])).unwrap_err()), "Duplicate provider output key");
    assert_eq!(invalid_message(provider_values(pairs(&[("", "1")])).unwrap_err()), "Too many or oversized setup values");
    match remote_next(Some(RemoteResult::AwaitInput { redirect_url: None })).unwrap() {
        RemoteNext::Transition { step, redirect_url } => {
            assert_eq!(step, "fields");
            assert!(redirect_url.is_none());
        }
        _ => panic!("expected a transition"),
    }
    match remote_next(Some(RemoteResult::AwaitInput { redirect_url: Some("https://p.example/x".into()) })).unwrap() {
        RemoteNext::Transition { step, .. } => assert_eq!(step, "provider_redirect"),
        _ => panic!("expected a transition"),
    }
    assert!(remote_next(Some(RemoteResult::AwaitInput { redirect_url: Some("http://example.com/x".into()) })).is_err());
    assert_eq!(invalid_message(remote_next(None).unwrap_err()), "Remote provider returned no setup result");
    assert_eq!(
        invalid_message(remote_next(Some(RemoteResult::Complete { fields: vec![], account_label: None })).unwrap_err()),
        "Provider returned no credentials"
    );
    match remote_next(Some(RemoteResult::Complete { fields: pairs(&[("token", "t")]), account_label: Some("acct".into()) })).unwrap() {
        RemoteNext::Complete { credentials, account_label } => {
            assert_eq!(credentials, pairs(&[("token", "t")]));
            assert_eq!(account_label.as_deref(), Some("acct"));
        }
        _ => panic!("expected completion"),
    }
}

#[test]
fn json_pointers() {
    let mut list = Json::Array(vec![]);
    list.push(Json::Str("zero".into()));
    list.push(Json::Str("one".into()));
    let doc = object(vec![
        ("a/b", Json::Bool(true)),
        ("m~n", Json::Str("tilde".into())),
        ("list", list),
        ("", Json::Str("empty".into())),
    ]);
    assert!(doc.pointer("").is_some());
    assert!(doc.pointer("a").is_none());
    assert_eq!(doc.pointer("/a~1b").unwrap().as_bool(), Some(true));
    assert_eq!(doc.pointer("/m~0n").unwrap().as_str(), Some("tilde"));
    assert_eq!(doc.pointer("/list/1").unwrap().as_str(), Some("one"));
    assert!(doc.pointer("/list/01").is_none());
    assert!(doc.pointer("/list/2").is_none());
    assert!(doc.pointer("/list/+1").is_none());
    assert_eq!(doc.pointer("/").unwrap().as_str(), Some("empty"));
    assert_eq!(unescape_token("~01"), "~1");
    assert_eq!(index_token("0"), Some(0));
    assert_eq!(index_token("18446744073709551616"), None);
    assert_eq!(index_token("12"), Some(12));
}

fn token_config() -> OAuth {
    let mut c = OAuth::standard("https://p.example/token");
    c.success_path = Some("/ok".into());
    c.result_fields = vec![
        ResultField { key: "team".into(), path: "/team/id".into(), required: true },
        ResultField { key: "bot".into(), path: "/bot".into(), required: false },
    ];
    c
}

#[test]
fn token_responses() {
    let response = object(vec![
        ("ok", Json::Bool(true)),
        ("access_token", Json::Str("at".into())),
        ("refresh_token", Json::Str("".into())),
        ("expires_in", Json::Str("3600".into())),
        ("scope", Json::Str("".into())),
        ("team", object(vec![("id", Json::Number(JsonNumber::Unsigned(42)))])),
        ("bot", Json::Bool(false)),
    ]);
    let t = read_token(&response, &token_config(), false).unwrap();
    assert_eq!(t.access, "at");
    assert!(t.refresh.is_none());
    assert_eq!(t.expires_in, Some(3600));
    assert_eq!(t.scope.as_deref(), Some(""));
    assert_eq!(t.provider_values, pairs(&[("bot", "false"), ("team", "42")]));
    let dated = parse_token(&response, &token_config(), false).unwrap();
    assert!(dated.expires_at.unwrap() > 1_600_000_000);

    let failed = object(vec![("ok", Json::Bool(false)), ("access_token", Json::Str("at".into()))]);
    assert_eq!(invalid_message(read_token(&failed, &token_config(), false).unwrap_err()), "OAuth response reported failure");
    let no_access = object(vec![("ok", Json::Bool(true))]);
    assert_eq!(invalid_message(read_token(&no_access, &token_config(), false).unwrap_err()), "Provider response omitted a required value");
    let bad_expiry = object(vec![("ok", Json::Bool(true)), ("access_token", Json::Str("at".into())), ("expires_in", Json::Number(JsonNumber::Signed(-5)))]);
    assert_eq!(invalid_message(read_token(&bad_expiry, &token_config(), false).unwrap_err()), "Invalid OAuth token expiry");
    let no_team = object(vec![("ok", Json::Bool(true)), ("access_token", Json::Str("at".into())), ("expires_in", Json::Null)]);
    assert_eq!(invalid_message(read_token(&no_team, &token_config(), false).unwrap_err()), "Provider response omitted a required account field");
    let refreshed = read_token(&no_team, &token_config(), true).unwrap();
    assert!(refreshed.expires_in.is_none());
    assert!(refreshed.provider_values.is_empty());
    let long = object(vec![("ok", Json::Bool(true)), ("access_token", Json::Str("at".into())), ("expires_in", Json::Number(JsonNumber::Signed(i64::MAX)))]);
    assert_eq!(invalid_message(parse_token(&long, &token_config(), true).unwrap_err()), "OAuth token expiry overflow");
}

#[test]
fn numbers_as_text() {
    assert_eq!(number_string(&JsonNumber::Unsigned(0)), "0");
    assert_eq!(number_string(&JsonNumber::Signed(i64::MIN)), "-9223372036854775808");
    assert_eq!(number_string(&JsonNumber::Decimal("1.5".into())), "1.5");
    assert_eq!(parse_i64("+12"), Some(12));
    assert_eq!(parse_i64("-9223372036854775808"), Some(i64::MIN));
    assert_eq!(parse_i64("9223372036854775808"), None);
    assert_eq!(parse_i64("-"), None);
    assert_eq!(parse_i64("1x"), None);
}

use tilde::oauth::{add_token, needs_refresh, token_values, Token};
use tilde::setup::{check_completion, without_pkce};

fn token(refresh: Option<&str>, scope: Option<&str>) -> Token {
    Token {
        access: "new".into(),
        refresh: refresh.map(str::to_owned),
        expires_in: None,
        expires_at: None,
        scope: scope.map(str::to_owned),
        provider_values: pairs(&[("team", "T1")]),
    }
}

#[test]
fn storing_tokens() {
    assert_eq!(
        token_values(token(Some("r"), Some("read"))),
        pairs(&[("access_token", "new"), ("refresh_token", "r"), ("scope", "read"), ("team", "T1")])
    );
    let mut stored = pairs(&[("access_token", "old"), ("client_id", "c"), ("refresh_token", "r0")]);
    add_token(&mut stored, token(None, None));
    assert_eq!(stored, pairs(&[("access_token", "new"), ("client_id", "c"), ("refresh_token", "r0"), ("team", "T1")]));
    assert!(needs_refresh(Some(160), 100));
    assert!(!needs_refresh(Some(161), 100));
    assert!(!needs_refresh(None, 100));
}

#[test]
fn completing_setups() {
    assert!(check_completion("fields", 10, 5, 1, 1, true).is_ok());
    for r in [
        check_completion("complete", 10, 5, 1, 1, true),
        check_completion("fields", 5, 5, 1, 1, true),
        check_completion("fields", 10, 5, 1, 2, true),
        check_completion("fields", 10, 5, 1, 1, false),
    ] {
        assert_eq!(invalid_message(r.unwrap_err()), "Setup changed while acquiring credentials");
    }
    assert_eq!(without_pkce(pairs(&[("_pkce", "v"), ("code", "c")])), pairs(&[("code", "c")]));
}
