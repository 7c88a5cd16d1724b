use base64::Engine;
use sha2::Digest;
use tilde::catalog::url;
use tilde::deployment::cold::{invocation_start, Assignment, RuntimeClaims};
use tilde::deployment::ingest::{ingest_step, IngestStep};
use tilde::deployment::project::{
    check_event_time, check_member, check_state_identity, receipt_outcome, Outcome, Roster, StateKind,
};
use tilde::deployment::proxy::{check_runtime_claims, check_sidecar, sidecar_credential};
use tilde::deployment::register::{authenticate, change_mode, DeploymentRow, Registry, TokenRow};
use tilde::deployment::relay::relay_capabilities;
use tilde::deployment::retention::{archive_batches, deletes_now, node_archived, retired_count, Ack};
use tilde::error::Error;
use tilde::json::{Json, JsonNumber};
use tilde::model::{OAuth, ResultField};
use tilde::oauth::{authorization_url, parse_token};
use tilde::setup::{remote_backend, ConnectionStore};

const AGENT: u128 = 0xaaaaaaaa_0000_4000_8000_000000000001;
const AGENT_TEXT: &str = "aaaaaaaa-0000-4000-8000-000000000001";
const THREAD: u128 = 0x11111111_2222_3333_4444_555555555555;
const THREAD_TEXT: &str = "11111111-2222-3333-4444-555555555555";

fn message_of(e: Error) -> String {
    match e {
        Error::Invalid(m) => m,
        other => panic!("expected an invalid input, got {other:?}"),
    }
}

fn denied<T: std::fmt::Debug>(r: Result<T, Error>) -> bool {
    matches!(r, Err(Error::Denied))
}

fn values(pairs: &[(&str, &str)]) -> Vec<(String, String)> {
    pairs.iter().map(|(k, v)| (k.to_string(), v.to_string())).collect()
}

fn auth_config() -> OAuth {
    let mut c = OAuth::standard("https://idp.example/token");
    c.authorization_url = Some("https://idp.example/authorize?x=1".into());
    c.pkce = false;
    c
}

#[test]
fn url_adds_segments_after_the_base() {
    let u = url("https://api.example.com/v1/", &["repos", "a b"]).unwrap();
    assert_eq!(u.text, "https://api.example.com/v1/repos/a%20b");
    assert_eq!(u.path, "/v1/repos/a%20b");
    let root = url("https://api.example.com", &["x"]).unwrap();
    assert_eq!(root.text, "https://api.example.com/x");
}

#[test]
fn url_refuses_bad_bases() {
    assert_eq!(message_of(url("not a url", &["x"]).unwrap_err()), "Invalid provider endpoint");
    assert_eq!(
        message_of(url("http://example.com/", &["x"]).unwrap_err()),
        "Provider endpoints require HTTPS (HTTP is allowed on loopback), without user info or fragments"
    );
    assert!(url("http://127.0.0.1:8080/", &["x"]).is_ok());
}

#[test]
fn authorization_url_lists_the_request_in_order() {
    let mut c = auth_config();
    c.scopes = vec!["read".into(), "write".into()];
    c.scope_separator = ",".into();
    c.authorization_parameters = values(&[("prompt", "consent")]);
    let u = authorization_url(&c, &values(&[("client_id", "abc")]), "https://svc/cb", "st").unwrap();
    assert_eq!(
        u,
        "https://idp.example/authorize?x=1&response_type=code&client_id=abc&redirect_uri=https%3A%2F%2Fsvc%2Fcb&state=st&scope=read%2Cwrite&prompt=consent"
    );
}

#[test]
fn authorization_url_sends_only_the_pkce_challenge() {
    let mut c = auth_config();
    c.pkce = true;
    let u = authorization_url(&c, &values(&[("client_id", "abc"), ("_pkce", "verifier")]), "cb", "st").unwrap();
    let challenge = base64::engine::general_purpose::URL_SAFE_NO_PAD.encode(sha2::Sha256::digest(b"verifier"));
    assert!(u.ends_with(&format!("&code_challenge_method=S256&code_challenge={challenge}")));
    assert!(!u.contains("verifier"));
}

#[test]
fn authorization_url_refusals_come_in_order() {
    let mut c = auth_config();
    c.authorization_url = None;
    assert_eq!(message_of(authorization_url(&c, &values(&[]), "cb", "st").unwrap_err()), "Authorization URL missing");
    let mut c = auth_config();
    c.authorization_url = Some("http://idp.example/a".into());
    assert!(message_of(authorization_url(&c, &values(&[]), "cb", "st").unwrap_err()).starts_with("Provider endpoints require HTTPS"));
    let mut c = auth_config();
    c.pkce = true;
    assert_eq!(message_of(authorization_url(&c, &values(&[]), "cb", "st").unwrap_err()), "Missing required field: client_id");
    assert_eq!(
        message_of(authorization_url(&c, &values(&[("client_id", "abc")]), "cb", "st").unwrap_err()),
        "Missing required field: _pkce"
    );
}

#[test]
fn expiry_overflow_comes_before_account_fields() {
    let mut c = OAuth::standard("https://p.example/token");
    c.result_fields = vec![ResultField { key: "team".into(), path: "/team".into(), required: true }];
    let mut r = Json::object();
    r.set("access_token", Json::text("at"));
    r.set("expires_in", Json::Number(JsonNumber::Signed(i64::MAX)));
    assert_eq!(message_of(parse_token(&r, &c, false).unwrap_err()), "OAuth token expiry overflow");
}

#[test]
fn remote_backend_checks_in_order() {
    assert_eq!(
        message_of(remote_backend("builtin", Some("https://b".into()), Some(1), Some(vec![1])).unwrap_err()),
        "Provider is no longer remote"
    );
    assert_eq!(message_of(remote_backend("remote", None, Some(1), Some(vec![1])).unwrap_err()), "Remote endpoint missing");
    assert_eq!(
        message_of(remote_backend("remote", Some("https://b".into()), None, Some(vec![1])).unwrap_err()),
        "Provider authorization identity missing"
    );
    assert_eq!(
        message_of(remote_backend("remote", Some("https://b".into()), Some(1), None).unwrap_err()),
        "Remote provider authorization missing"
    );
    let (u, i, a) = remote_backend("remote", Some("https://b".into()), Some(7), Some(vec![9])).unwrap();
    assert_eq!((u.as_str(), i, a), ("https://b", 7, vec![9]));
}

#[test]
fn relayed_calls_keep_only_shared_capabilities() {
    let claimed = vec!["chat.read".to_string(), "chat.write".into(), "tools".into()];
    let held = vec!["tools".to_string(), "chat.read".into()];
    assert_eq!(relay_capabilities(&claimed, &held), vec!["chat.read".to_string(), "tools".into()]);
    assert!(relay_capabilities(&claimed, &vec![]).is_empty());
}

fn owner() -> Assignment {
    Assignment { generation: 3, owner_instance: 9, stopped: false }
}

#[test]
fn invocation_requests_echo_the_command() {
    let h = invocation_start(&owner(), 3, 9, false, Some(5), true, true, false, AGENT, 6, THREAD, 2).unwrap();
    assert_eq!(h.command_id, "00000000-0000-0000-0000-000000000006");
    assert_eq!(h.assignment_generation, 3);
    assert_eq!(h.owner_instance_id, "00000000-0000-0000-0000-000000000009");
    assert_eq!(h.invocation_id, "00000000-0000-0000-0000-000000000005");
    assert_eq!(h.thread_id, THREAD_TEXT);
    assert_eq!(h.agent_id, AGENT_TEXT);
    assert_eq!(h.agent_generation, 2);
}

#[test]
fn invocation_requests_refuse_in_order() {
    assert!(denied(invocation_start(&owner(), 4, 9, false, Some(5), true, true, false, AGENT, 6, THREAD, 2)));
    assert!(denied(invocation_start(&owner(), 3, 9, false, Some(5), false, true, false, AGENT, 6, THREAD, 2)));
    assert!(matches!(
        invocation_start(&owner(), 3, 9, false, Some(5), true, false, false, AGENT, 6, THREAD, 2),
        Err(Error::Conflict)
    ));
    assert!(denied(invocation_start(&owner(), 3, 9, false, Some(5), true, true, true, AGENT, 6, THREAD, 2)));
}

fn claims(sub: u128, exp: i64) -> RuntimeClaims {
    RuntimeClaims {
        iss: "tilde:invocation".into(),
        aud: "tilde:agent-api".into(),
        sub,
        invocation_id: 1,
        run_id: 2,
        thread_id: THREAD,
        iat: 0,
        exp,
        assignment_generation: 1,
        agent_generation: 1,
    }
}

#[test]
fn sidecars_and_tokens_are_checked() {
    assert!(denied(sidecar_credential(None)));
    assert_eq!(sidecar_credential(Some("tok")).unwrap(), "tok");
    assert!(denied(check_sidecar(AGENT + 1, AGENT)));
    assert!(check_sidecar(AGENT, AGENT).is_ok());
    assert!(check_runtime_claims(&claims(AGENT, 1000), AGENT, 1000).is_ok());
    assert!(check_runtime_claims(&claims(AGENT, 1000), AGENT, 1060).is_ok());
    assert!(denied(check_runtime_claims(&claims(AGENT, 1000), AGENT, 1061)));
    assert!(denied(check_runtime_claims(&claims(AGENT + 1, 1000), AGENT, 1000)));
    let mut other = claims(AGENT, 1000);
    other.aud = "elsewhere".into();
    assert!(denied(check_runtime_claims(&other, AGENT, 1000)));
}

#[test]
fn strangers_open_no_conversation() {
    assert_eq!(ingest_step(false, false, true), IngestStep::Ignore);
    assert_eq!(ingest_step(false, true, true), IngestStep::Record { create: true, deliver: true });
    assert_eq!(ingest_step(true, false, true), IngestStep::Record { create: false, deliver: false });
    assert_eq!(ingest_step(true, true, false), IngestStep::Ignore);
}

fn ack(instance: &str, count: i64) -> Ack {
    Ack { instance_id: instance.into(), ready: 1, event_count: count }
}

#[test]
fn archive_checks_take_batches_of_a_thousand() {
    let ids: Vec<u128> = (0..2500u128).collect();
    let batches = archive_batches(&ids);
    assert_eq!(batches.iter().map(|b| b.len()).collect::<Vec<_>>(), vec![1000, 1000, 500]);
    assert_eq!(batches[2][0], 2000);
    let acks = vec![ack(AGENT_TEXT, 2500)];
    assert!(node_archived(&acks, AGENT, Some(&ids), &vec![1000, 1000, 500]));
    assert!(!node_archived(&acks, AGENT, Some(&ids), &vec![1000, 999]));
    assert!(!node_archived(&acks, AGENT, None, &vec![]));
    assert!(!node_archived(&vec![ack(AGENT_TEXT, 2501)], AGENT, Some(&ids), &vec![1000, 1000, 500]));
    assert!(deletes_now(0, "retiring"));
    assert!(!deletes_now(1, "retiring"));
    assert!(!deletes_now(0, "corrosion"));
    assert_eq!(retired_count(&vec![true, false, true]), 2);
}

fn row(id: u128, target: &str, created: i64, retired: bool) -> DeploymentRow {
    DeploymentRow { id, target: target.into(), created, retired }
}

#[test]
fn mode_changes_serve_the_newest_of_the_new_target() {
    let rows = vec![row(1, "sidecar", 10, false), row(2, "direct", 30, false), row(3, "sidecar", 20, false), row(4, "sidecar", 40, true)];
    let c = change_mode("gateway", "sidecar", true, false, Some(2), &rows).unwrap();
    assert!(c.changed);
    assert_eq!(c.serving, Some(3));
    let same = change_mode("gateway", "gateway", false, true, Some(2), &rows).unwrap();
    assert!(!same.changed);
    assert_eq!(same.serving, Some(2));
    let none = change_mode("sidecar", "gateway", true, false, Some(3), &vec![row(1, "sidecar", 1, false)]).unwrap();
    assert_eq!(none.serving, None);
    assert!(matches!(change_mode("gateway", "sidecar", false, false, None, &rows), Err(Error::AgentNotPaused)));
    assert_eq!(
        message_of(change_mode("gateway", "sidecar", true, true, None, &rows).unwrap_err()),
        "Wait for active work to stop before changing deployment"
    );
}

#[test]
fn starting_again_returns_the_same_setup() {
    let mut store = ConnectionStore { connections: vec![], setups: vec![] };
    let first = store.start(1, "Support", "slack", "bot", 100).unwrap();
    assert_eq!(first, 100);
    let again = store.start(1, "Support", "slack", "bot", 200).unwrap();
    assert_eq!(again, 100);
    assert_eq!(store.connections.len(), 1);
    assert_eq!(store.setups.len(), 1);
    assert_eq!(
        message_of(store.start(1, "Other", "slack", "bot", 300).unwrap_err()),
        "Connection ID already exists with different parameters"
    );
    assert_eq!(
        message_of(store.start(2, "  ", "slack", "bot", 300).unwrap_err()),
        "Connection name is required and at most 200 bytes"
    );
    assert_eq!(store.connections.len(), 1);
}

#[test]
fn projected_events_are_checked() {
    assert!(check_event_time(1_700_000_000_000).is_ok());
    assert_eq!(message_of(check_event_time(i64::MAX).unwrap_err()), "Invalid event timestamp");
    assert!(check_state_identity(StateKind::Message, THREAD_TEXT, "", THREAD, AGENT).is_ok());
    assert!(denied(check_state_identity(StateKind::Thread, AGENT_TEXT, "", THREAD, AGENT)));
    assert!(denied(check_state_identity(StateKind::Run, THREAD_TEXT, THREAD_TEXT, THREAD, AGENT)));
    assert!(denied(check_state_identity(StateKind::Invocation, AGENT_TEXT, "bad", THREAD, AGENT)));
    assert_eq!(message_of(check_state_identity(StateKind::Run, THREAD_TEXT, "bad", THREAD, AGENT).unwrap_err()), "Invalid UUID");
    assert!(check_state_identity(StateKind::User, "bad", "bad", THREAD, AGENT).is_ok());
    assert!(matches!(receipt_outcome(false), Some(Outcome::Duplicate)));
    assert!(receipt_outcome(true).is_none());
    let roster = Roster { id: THREAD_TEXT.into(), primary_agent_id: AGENT_TEXT.into(), participant_agents: vec![] };
    assert!(check_member(false, false, false, Some(&roster), AGENT).is_ok());
    assert!(denied(check_member(false, false, true, None, AGENT)));
    assert!(denied(check_member(false, true, false, Some(&roster), AGENT)));
    assert!(check_member(true, true, false, None, AGENT).is_ok());
}

fn token_row(token: &str, deployment: u128, retired: bool) -> TokenRow {
    TokenRow { hash: sha2::Sha256::digest(token.as_bytes()).to_vec(), agent: AGENT, deployment, retired }
}

#[test]
fn tokens_authenticate_their_live_deployment() {
    let rows = vec![token_row("old", 1, true), token_row("new", 2, false)];
    assert_eq!(authenticate(&rows, "new").unwrap(), (AGENT, 2));
    assert!(denied(authenticate(&rows, "old")));
    assert!(denied(authenticate(&rows, "other")));
}

#[test]
fn registering_again_replaces_the_replica() {
    let mut r = Registry { replicas: vec![] };
    let instance = "00000000-0000-0000-0000-000000000007";
    assert_eq!(r.register(AGENT, 1, instance, "https://a", "https://a/rt").unwrap(), 7);
    assert_eq!(r.register(AGENT, 1, instance, "https://a", "https://a/rt").unwrap(), 7);
    assert_eq!(r.replicas.len(), 1);
    r.register(AGENT, 2, instance, "https://b", "").unwrap();
    assert_eq!(r.replicas.len(), 1);
    assert_eq!(r.replicas[0].deployment, 2);
    assert_eq!(r.replicas[0].public_url, "https://b");
    assert_eq!(message_of(r.register(AGENT, 1, "nope", "", "").unwrap_err()), "Invalid UUID");
    assert_eq!(r.replicas.len(), 1);
}
