use tilde::deployment::cold::{check_command, runtime_claims, Assignment};
use tilde::deployment::corrosion::{statement, store_address};
use tilde::deployment::ingest::{
    allowed, check_incoming, display_name, join, ready_connection, AccessMode, Configuration,
    ConnectionConfig, CredentialField, IdentityGrant, Participant, SensitiveConfiguration,
};
use tilde::deployment::outbox::Outbox;
use tilde::deployment::project::{
    check_header, check_new_thread, lease_check, lease_frame, needs_lease, rejectable,
    BatchReport, Outcome, Roster, StateKind, ThreadLease,
};
use tilde::deployment::proxy::{
    bearer, check_ingress_thread, check_scope, classify, is_control, needs_retained_authority,
    placement, stale_generation, strip_prefix, InvocationRecord, OwnerRecord, Placement, Route,
    RuntimeScope,
};
use tilde::deployment::relay::{check_relay, registry_method, relay_participant};
use tilde::deployment::retention::{
    acknowledge, any_refused, covered, decide, Ack, Candidate, Retirement, Step,
};
use tilde::deployment::routing::{
    check_creation_scope, contains, framing, thread_source, Encoding, ThreadSource,
};
use tilde::deployment::store::{
    Command, CommandAction, InvocationState, Message, QueuedEvent, Steer, ThreadState,
    COMMAND_LIMIT, EVENT_WINDOW,
};
use tilde::deployment::scheduling::ConcurrencyPolicy;
use tilde::deployment::wire::{
    driver_number, mode_wire, short, source_name, source_wire, status_result, target_for_mode,
    target_wire, ChatError, DeploymentMode, DeploymentSource, DeploymentTarget,
};
use tilde::catalog::{Identity, IdentityType};
use tilde::error::{DatabaseFault, Error};
use tilde::json::Json;
use tilde::model::Driver;

const AGENT: u128 = 0x67e5504410b1426f9247bb680e5fe0c8;
const AGENT_TEXT: &str = "67e55044-10b1-426f-9247-bb680e5fe0c8";
const INSTANCE: u128 = 0x11111111222233334444555555555555;
const INSTANCE_TEXT: &str = "11111111-2222-3333-4444-555555555555";
const THREAD: u128 = 0xaaaaaaaabbbbccccddddeeeeeeeeeeee;
const THREAD_TEXT: &str = "aaaaaaaa-bbbb-cccc-dddd-eeeeeeeeeeee";
const EVENT_TEXT: &str = "01234567-89ab-cdef-0123-456789abcdef";

fn message(id: &str, seconds: i64, text: &str) -> Message {
    Message {
        id: id.to_owned(),
        thread_id: THREAD_TEXT.to_owned(),
        participant_id: "p".to_owned(),
        text: text.to_owned(),
        status: "complete".to_owned(),
        created_seconds: seconds,
        created_nanos: 0,
    }
}

fn command(id: &str, finished: bool) -> Command {
    Command {
        attempt_id: 1,
        command_id: id.to_owned(),
        action: CommandAction::Other,
        acked_at: None,
        finished_at: if finished { Some(5) } else { None },
        failure: String::new(),
    }
}

#[test]
fn upserted_message_reads_back() {
    let mut t = ThreadState::new(0);
    let key = "00000000-0000-0000-0000-000000000001";
    assert!(t.upsert_message(message(key, 10, "hello")).is_none());
    assert_eq!(t.message(1).unwrap().text, "hello");
    let old = t.upsert_message(message(key, 99, "edited")).unwrap();
    assert_eq!(old.text, "hello");
    assert_eq!(t.message(1).unwrap().text, "edited");
    assert_eq!(t.messages.len(), 1);
    assert_eq!(t.messages[0].created, 10_000);
}

#[test]
fn messages_keep_creation_order() {
    let mut t = ThreadState::new(0);
    t.upsert_message(message("00000000-0000-0000-0000-000000000003", 30, "c"));
    t.upsert_message(message("00000000-0000-0000-0000-000000000001", 10, "a"));
    t.upsert_message(message("00000000-0000-0000-0000-000000000002", 10, "b"));
    let texts: Vec<&str> = t.messages.iter().map(|m| m.message.text.as_str()).collect();
    assert_eq!(texts, vec!["a", "b", "c"]);
    assert!(t.message(4).is_none());
}

#[test]
fn message_without_uuid_is_not_stored() {
    let mut t = ThreadState::new(0);
    assert!(t.upsert_message(message("not-a-uuid", 1, "x")).is_none());
    assert!(t.messages.is_empty());
}

#[test]
fn command_history_drops_oldest_finished_only() {
    let mut t = ThreadState::new(0);
    t.push_command(command("open", false));
    for i in 0..COMMAND_LIMIT {
        t.push_command(command(&format!("done{i}"), true));
    }
    assert_eq!(t.commands.len(), COMMAND_LIMIT);
    assert_eq!(t.commands[0].command_id, "open");
    assert_eq!(t.commands[1].command_id, "done1");
}

#[test]
fn unfinished_commands_are_never_dropped() {
    let mut t = ThreadState::new(0);
    for i in 0..COMMAND_LIMIT + 3 {
        t.push_command(command(&format!("c{i}"), false));
    }
    assert_eq!(t.commands.len(), COMMAND_LIMIT + 3);
}

#[test]
fn latest_command_wins() {
    let mut t = ThreadState::new(0);
    let mut first = command("x", false);
    first.attempt_id = 1;
    let mut second = command("x", true);
    second.attempt_id = 2;
    t.push_command(first);
    t.push_command(second);
    assert_eq!(t.command("x").unwrap().attempt_id, 2);
    assert!(t.command("y").is_none());
}

#[test]
fn active_invocation_matches_agent_and_status() {
    let mut t = ThreadState::new(0);
    t.invocations.push(InvocationState { id: "a".into(), agent_id: AGENT_TEXT.into(), run_id: String::new(), participant_id: String::new(), generation: 0, status: "complete".into(), ended_at: 0 });
    t.invocations.push(InvocationState { id: "b".into(), agent_id: AGENT_TEXT.into(), run_id: String::new(), participant_id: String::new(), generation: 0, status: "running".into(), ended_at: 0 });
    assert_eq!(t.active_invocation(AGENT).unwrap().id, "b");
    assert!(t.active_invocation(INSTANCE).is_none());
}

#[test]
fn event_window_keeps_newest() {
    let mut t = ThreadState::new(0);
    for i in 0..(EVENT_WINDOW + 2) {
        t.append_event(format!("e{i}"), "k".into(), i as i64);
    }
    assert_eq!(t.events.len(), EVENT_WINDOW);
    assert_eq!(t.events.front().unwrap().id, "e2");
    assert_eq!(t.sequence, (EVENT_WINDOW + 2) as i64);
    assert_eq!(t.last_activity_at, (EVENT_WINDOW + 1) as i64);
}

#[test]
fn appended_events_take_rising_sequences() {
    let mut t = ThreadState::new(7);
    let a = t.append_event("a".into(), "thread.created".into(), 100);
    let b = t.append_event("b".into(), "message.completed".into(), 101);
    assert_eq!((a.sequence, b.sequence), (1, 2));
    let _ = QueuedEvent { id: String::new(), kind: String::new(), sequence: 0 };
}

#[test]
fn lease_frame_names_holder() {
    let l = lease_frame(AGENT, THREAD, Some((INSTANCE, "https://r".into())));
    assert_eq!(l.thread_id, THREAD_TEXT);
    assert_eq!(l.agent_id, AGENT_TEXT);
    assert_eq!(l.holder_instance_id, INSTANCE_TEXT);
    assert_eq!(l.holder_public_url, "https://r");
    assert!(l.held);
    let free = lease_frame(AGENT, THREAD, None);
    assert!(!free.held);
    assert_eq!(free.holder_instance_id, "");
}

#[test]
fn header_checks_in_order() {
    let ok = check_header(EVENT_TEXT, AGENT_TEXT, INSTANCE_TEXT, 1, THREAD_TEXT, AGENT, INSTANCE).unwrap();
    assert_eq!(ok.thread, THREAD);
    assert!(matches!(check_header("bad", AGENT_TEXT, INSTANCE_TEXT, 1, THREAD_TEXT, AGENT, INSTANCE), Err(Error::Invalid(m)) if m == "Invalid UUID"));
    assert!(matches!(check_header(EVENT_TEXT, INSTANCE_TEXT, INSTANCE_TEXT, 1, THREAD_TEXT, AGENT, INSTANCE), Err(Error::Denied)));
    assert!(matches!(check_header(EVENT_TEXT, AGENT_TEXT, INSTANCE_TEXT, 0, THREAD_TEXT, AGENT, INSTANCE), Err(Error::Denied)));
    assert!(matches!(check_header(EVENT_TEXT, AGENT_TEXT, INSTANCE_TEXT, 1, "x", AGENT, INSTANCE), Err(Error::Invalid(_))));
}

#[test]
fn run_state_needs_the_lease() {
    assert!(needs_lease(Some(StateKind::Run)));
    assert!(needs_lease(Some(StateKind::ToolCall)));
    assert!(!needs_lease(Some(StateKind::Message)));
    assert!(!needs_lease(None));
    assert!(lease_check(AGENT, THREAD, Some(StateKind::Run), Some((INSTANCE, String::new())), INSTANCE).is_none());
    let other = lease_check(AGENT, THREAD, Some(StateKind::Invocation), Some((AGENT, "u".into())), INSTANCE).unwrap();
    assert_eq!(other.holder_instance_id, AGENT_TEXT);
    assert!(lease_check(AGENT, THREAD, Some(StateKind::Run), None, INSTANCE).unwrap().held == false);
    assert!(lease_check(AGENT, 0, Some(StateKind::Run), None, INSTANCE).is_none());
    assert!(lease_check(AGENT, THREAD, Some(StateKind::Goal), None, INSTANCE).is_none());
}

#[test]
fn only_named_agents_introduce_threads() {
    let roster = Roster { id: THREAD_TEXT.into(), primary_agent_id: "other".into(), participant_agents: vec![None, Some(AGENT_TEXT.into())] };
    assert!(check_new_thread(Some(&roster), AGENT).is_ok());
    assert!(matches!(check_new_thread(Some(&roster), INSTANCE), Err(Error::Denied)));
    assert!(matches!(check_new_thread(None, AGENT), Err(Error::Denied)));
}

#[test]
fn frame_errors_are_rejectable() {
    assert!(rejectable(&Error::Denied));
    assert!(rejectable(&Error::Invalid("x".into())));
    assert!(rejectable(&Error::Database(DatabaseFault::UniqueViolation)));
    assert!(!rejectable(&Error::Database(DatabaseFault::Other)));
    assert!(!rejectable(&Error::Encryption));
}

fn lease(thread: &str, url: &str) -> ThreadLease {
    ThreadLease { thread_id: thread.into(), agent_id: AGENT_TEXT.into(), holder_instance_id: String::new(), holder_public_url: url.into(), held: true }
}

#[test]
fn batch_report_keeps_one_lease_per_thread_in_order() {
    let mut r = BatchReport::new();
    assert!(r.record("e1".into(), Ok(Outcome::NotHolder(lease("b", "1")))).is_ok());
    assert!(r.record("e2".into(), Ok(Outcome::NotHolder(lease("a", "2")))).is_ok());
    assert!(r.record("e3".into(), Ok(Outcome::NotHolder(lease("b", "3")))).is_ok());
    assert!(r.record("e4".into(), Err(Error::Denied)).is_ok());
    assert!(r.record("e5".into(), Ok(Outcome::Duplicate)).is_ok());
    assert!(matches!(r.record("e6".into(), Err(Error::Encryption)), Err(Error::Encryption)));
    let threads: Vec<(&str, &str)> = r.lost.iter().map(|l| (l.thread_id.as_str(), l.holder_public_url.as_str())).collect();
    assert_eq!(threads, vec![("a", "2"), ("b", "3")]);
    assert_eq!(r.rejected, vec!["e4".to_string()]);
}

#[test]
fn modes_and_targets() {
    assert_eq!(mode_wire("sidecar"), DeploymentMode::Sidecar);
    assert_eq!(mode_wire("gateway"), DeploymentMode::Gateway);
    assert_eq!(target_wire("aws_lambda"), DeploymentTarget::AwsLambda);
    assert_eq!(target_wire("sidecar"), DeploymentTarget::Sidecar);
    assert_eq!(target_wire("other"), DeploymentTarget::Direct);
    assert_eq!(target_for_mode("sidecar"), "sidecar");
    assert_eq!(target_for_mode("gateway"), "direct");
    assert_eq!(source_wire(source_name(DeploymentSource::Ci)), DeploymentSource::Ci);
    assert_eq!(source_wire("web"), DeploymentSource::Manual);
}

#[test]
fn short_fields() {
    assert_eq!(short(Some("abc".into()), "label").unwrap(), Some("abc".to_string()));
    assert_eq!(short(Some("  ".into()), "label").unwrap(), None);
    assert_eq!(short(None, "label").unwrap(), None);
    assert_eq!(short(Some("é".repeat(512)), "label").unwrap().unwrap().chars().count(), 512);
    match short(Some("x".repeat(513)), "label") {
        Err(Error::Invalid(m)) => assert_eq!(m, "label is too long"),
        _ => panic!("expected a refusal"),
    }
}

#[test]
fn driver_numbers_and_statuses() {
    assert_eq!(driver_number(Driver::Static), 1);
    assert_eq!(driver_number(Driver::Custom), 5);
    assert_eq!(status_result(Ok(())), 204);
    assert_eq!(status_result(Err(ChatError::Denied)), 409);
    assert_eq!(status_result(Err(ChatError::NotFound)), 404);
    assert_eq!(status_result(Err(ChatError::Transport)), 503);
}

fn connection(mode: AccessMode) -> ConnectionConfig {
    ConnectionConfig {
        id: AGENT_TEXT.into(),
        status: "ready".into(),
        provider_id: "whatsapp".into(),
        type_id: "meta".into(),
        access_mode: mode,
        identities: vec![
            IdentityGrant { identity_type: Some(IdentityType::PhoneNumber), value: "+1".into(), verified: true, allowed: false },
            IdentityGrant { identity_type: Some(IdentityType::PhoneNumber), value: "+2".into(), verified: true, allowed: true },
        ],
        credentials: vec![CredentialField { name: "token".into(), value: "secret".into() }],
    }
}

#[test]
fn channel_access() {
    let sender = |v: &str| Identity { identity_type: IdentityType::PhoneNumber, value: v.into() };
    assert!(allowed(&connection(AccessMode::Public), &sender("+9")));
    assert!(allowed(&connection(AccessMode::Private), &sender("+2")));
    assert!(!allowed(&connection(AccessMode::Private), &sender("+1")));
    assert!(!allowed(&connection(AccessMode::Disabled), &sender("+2")));
    assert!(!allowed(&connection(AccessMode::Unknown), &sender("+2")));
}

#[test]
fn ready_connection_lookup() {
    let mut other = connection(AccessMode::Public);
    other.status = "pending".into();
    let config = Configuration { webhook_signing_key: "k".into(), agent_name: "a".into(), connections: vec![other, connection(AccessMode::Private)] };
    assert_eq!(ready_connection(&config, AGENT).unwrap().access_mode, AccessMode::Private);
    assert!(ready_connection(&config, INSTANCE).is_none());
}

#[test]
fn secrets_are_cleared() {
    let config = Configuration { webhook_signing_key: "k".into(), agent_name: "a".into(), connections: vec![connection(AccessMode::Public)] };
    let mut s = SensitiveConfiguration::new(config);
    s.clear_secrets();
    let c = s.get();
    assert_eq!(c.webhook_signing_key, "");
    assert_eq!(c.connections[0].credentials[0].name, "token");
    assert_eq!(c.connections[0].credentials[0].value, "");
    assert_eq!(c.agent_name, "a");
}

#[test]
fn incoming_messages_and_names() {
    assert!(check_incoming("hi", "m", "t").is_ok());
    assert!(matches!(check_incoming("hi", "", "t"), Err(ChatError::Invalid(m)) if m == "Invalid provider message"));
    assert!(check_incoming(&"x".repeat(1024 * 1024 + 1), "m", "t").is_err());
    assert!(check_incoming(&"x".repeat(1024 * 1024), "m", "t").is_ok());
    assert_eq!(display_name("", "+15550100"), "+15550100");
    assert_eq!(display_name("Ann", "+1"), "Ann");
    assert_eq!(display_name(&"ü".repeat(250), "+1").chars().count(), 200);
}

#[test]
fn participants_join_once() {
    let p = |id: &str| Participant { id: id.into(), user_id: None, agent_id: None, name: id.into(), active: true };
    let mut roster = vec![p("a")];
    assert!(!join(&mut roster, p("a")));
    assert!(join(&mut roster, p("b")));
    assert_eq!(roster.len(), 2);
    assert_eq!(roster[1].id, "b");
}

fn candidate(storage: &str, paused: bool) -> Candidate {
    Candidate { storage: storage.into(), paused, retention_days: 30, retirement_epoch: Some(THREAD) }
}

#[test]
fn retention_decisions() {
    let day = 86_400_000i64;
    let now = 100 * day;
    assert_eq!(decide(&candidate("corrosion", false), Some(now - day), &vec![], now), Step::Cancel);
    assert_eq!(decide(&candidate("corrosion", true), Some(now - day), &vec![], now), Step::Proceed);
    assert_eq!(decide(&candidate("corrosion", false), Some(now - 31 * day), &vec![], now), Step::Proceed);
    assert_eq!(decide(&candidate("retiring", false), None, &vec![THREAD_TEXT.to_string()], now), Step::Commit);
    assert_eq!(decide(&candidate("retiring", false), None, &vec!["other".to_string()], now), Step::Skip);
    assert_eq!(decide(&candidate("corrosion", false), None, &vec![THREAD_TEXT.to_string()], now), Step::Skip);
    let mut huge = candidate("corrosion", false);
    huge.retention_days = i64::MAX;
    assert_eq!(decide(&huge, Some(i64::MIN), &vec![], i64::MAX), Step::Proceed);
}

#[test]
fn retirement_acknowledgements() {
    let acks = vec![
        Ack { instance_id: INSTANCE_TEXT.into(), ready: 1, event_count: 3 },
        Ack { instance_id: AGENT_TEXT.into(), ready: 0, event_count: 0 },
    ];
    assert!(any_refused(&acks));
    assert!(!any_refused(&vec![]));
    assert!(covered(&acks, INSTANCE, 3));
    assert!(!covered(&acks, INSTANCE, 2));
    assert!(!covered(&acks, THREAD, 100));
    let r = Retirement { thread_id: "t".into(), epoch: "e".into(), phase: "prepare".into() };
    let row = acknowledge(&r, INSTANCE, 0, 4, 9).unwrap();
    assert_eq!(row.id, format!("t:e:{INSTANCE_TEXT}"));
    assert_eq!(row.ready, 1);
    assert_eq!(acknowledge(&r, INSTANCE, 2, 4, 9).unwrap().ready, 0);
    let done = Retirement { thread_id: "t".into(), epoch: "e".into(), phase: "committed".into() };
    assert!(acknowledge(&done, INSTANCE, 0, 0, 0).is_none());
}

#[test]
fn proxy_routes_and_credentials() {
    assert_eq!(classify("v1/traces").unwrap(), Route::Telemetry);
    assert_eq!(classify("tilde.runtime.v1.ChatService/StartRun").unwrap(), Route::Runtime);
    assert_eq!(classify("tilde.ingress.v1.X/Y").unwrap(), Route::Ingress);
    assert!(matches!(classify("other"), Err(Error::Denied)));
    assert_eq!(bearer(Some("Bearer abc")).unwrap(), "abc");
    assert!(matches!(bearer(Some("Basic abc")), Err(Error::Denied)));
    assert!(matches!(bearer(None), Err(Error::Denied)));
    assert_eq!(strip_prefix("prefix-rest", "prefix-"), Some("rest"));
    assert!(is_control("tilde.runtime.v1.InvocationControlService/Stop"));
    assert!(needs_retained_authority("tilde.runtime.v1.ChatService/StartRun"));
    assert!(needs_retained_authority("tilde.runtime.v1.AgentService/Get"));
    assert!(!needs_retained_authority("tilde.runtime.v1.ChatService/PostMessage"));
    assert!(stale_generation("tilde.runtime.v1.ChatService/X", Some(1), 2));
    assert!(!stale_generation("tilde.runtime.v1.InvocationControlService/X", Some(1), 2));
    assert!(!stale_generation("tilde.runtime.v1.ChatService/X", None, 2));
    assert_eq!(placement(Some("retiring")), Placement::Retiring);
    assert_eq!(placement(Some("corrosion")), Placement::Live);
    assert_eq!(placement(Some("postgres")), Placement::Gateway);
    assert_eq!(placement(None), Placement::Gateway);
}

#[test]
fn invocation_scope() {
    let claims = RuntimeScope { thread: THREAD, run: 7, assignment_generation: 3 };
    let record = InvocationRecord { thread: THREAD, run: 7, status: "running".into(), lease_expires_at: Some(100) };
    let owner = OwnerRecord { generation: 3, stopped: false };
    assert!(check_scope(&claims, &record, &owner, 100).is_ok());
    assert!(matches!(check_scope(&claims, &record, &owner, 101), Err(Error::Denied)));
    assert!(check_scope(&claims, &record, &OwnerRecord { generation: 3, stopped: true }, 0).is_err());
    let pending = InvocationRecord { thread: THREAD, run: 7, status: "pending".into(), lease_expires_at: Some(100) };
    assert!(check_scope(&claims, &pending, &owner, 0).is_err());
    assert!(check_ingress_thread(Some(THREAD), THREAD).is_ok());
    assert!(check_ingress_thread(Some(AGENT), THREAD).is_err());
    assert!(check_ingress_thread(None, THREAD).is_ok());
}

#[test]
fn cold_start_checks() {
    let a = Assignment { generation: 4, owner_instance: INSTANCE, stopped: false };
    assert_eq!(check_command(&a, 4, INSTANCE, false, Some(9)).unwrap(), 9);
    assert!(matches!(check_command(&a, 5, INSTANCE, false, Some(9)), Err(Error::Denied)));
    assert!(check_command(&a, 4, INSTANCE, true, Some(9)).is_err());
    assert!(check_command(&a, 4, INSTANCE, false, None).is_err());
    let c = runtime_claims(AGENT, 1, 2, THREAD, 1000, 4, 8);
    assert_eq!(c.exp, 1900);
    assert_eq!(c.iss, "tilde:invocation");
    assert_eq!(c.aud, "tilde:agent-api");
    assert_eq!(c.assignment_generation, 4);
}

#[test]
fn relay_checks() {
    assert_eq!(registry_method("tilde.runtime.v1.AgentService/GetAgent").unwrap(), "GetAgent");
    assert!(registry_method("tilde.runtime.v1.AgentService/").is_err());
    assert!(registry_method("tilde.runtime.v1.AgentService/Get-Agent").is_err());
    assert!(registry_method("tilde.runtime.v1.ChatService/Get").is_err());
    assert!(check_relay(AGENT, AGENT, false, 2, 2, Some(INSTANCE), INSTANCE, Some("running")).is_ok());
    assert!(matches!(check_relay(AGENT, AGENT, true, 2, 2, Some(INSTANCE), INSTANCE, None), Err(Error::Invalid(m)) if m == "Registry relay: agent generation changed"));
    assert!(matches!(check_relay(AGENT, AGENT, false, 2, 2, None, INSTANCE, None), Err(Error::Invalid(m)) if m == "Registry relay: conversation has no holder"));
    assert!(matches!(check_relay(AGENT, AGENT, false, 2, 2, Some(AGENT), INSTANCE, None), Err(Error::Invalid(m)) if m == "Registry relay: replica does not hold the conversation"));
    assert!(matches!(check_relay(AGENT, AGENT, false, 2, 2, Some(INSTANCE), INSTANCE, Some("complete")), Err(Error::Denied)));
    assert_eq!(relay_participant(None, Some(2), 3), 2);
    assert_eq!(relay_participant(Some(1), Some(2), 3), 1);
    assert_eq!(relay_participant(None, None, 3), 3);
}

#[test]
fn ingress_routing() {
    assert!(contains("application/connect+json", "connect+"));
    assert!(!contains("application/proto", "json"));
    assert!(contains("x", ""));
    let body = [0u8, 0, 0, 0, 2, 7, 8, 9];
    assert_eq!(framing(&body, "application/connect+proto").unwrap(), (5, 7, Encoding::Protobuf));
    assert_eq!(framing(&body, "application/json").unwrap(), (0, 8, Encoding::Json));
    assert!(matches!(framing(&[1, 0, 0, 0, 0], "application/connect+json"), Err(ChatError::Invalid(m)) if m == "Invalid Connect request frame"));
    assert!(matches!(framing(&[0, 0, 0, 0, 9], "application/connect+json"), Err(ChatError::Invalid(m)) if m == "Incomplete Connect request"));
    assert_eq!(thread_source("GetThread").unwrap(), ThreadSource::ThreadId);
    assert_eq!(thread_source("PostMessage").unwrap(), ThreadSource::ThreadField);
    assert_eq!(thread_source("ResumeRun").unwrap(), ThreadSource::Run);
    assert_eq!(thread_source("CancelInvocation").unwrap(), ThreadSource::Invocation);
    assert_eq!(thread_source("ListThreads").unwrap(), ThreadSource::Unscoped);
    assert!(matches!(thread_source("Nope"), Err(ChatError::Invalid(m)) if m == "Unknown ingress method"));
    assert!(check_creation_scope(AGENT, "CreateThread", Some(AGENT), None).is_ok());
    assert!(matches!(check_creation_scope(AGENT, "CreateThread", Some(THREAD), None), Err(ChatError::Denied)));
    assert!(matches!(check_creation_scope(AGENT, "ListThreads", None, Some(THREAD)), Err(ChatError::Denied)));
    assert!(check_creation_scope(AGENT, "ListThreads", None, None).is_ok());
}

#[test]
fn replicated_store_requests() {
    let u = store_address("http://corrosion:8080//").unwrap();
    assert_eq!(u.text, "http://corrosion:8080/");
    assert!(matches!(store_address("ftp://x"), Err(ChatError::Invalid(m)) if m == "Invalid Corrosion endpoint"));
    assert!(store_address("http://user:pw@x").is_err());
    let s = statement("SELECT 1", vec![Json::Str("a".into())]);
    assert_eq!(String::from_utf8(s.to_bytes()).unwrap(), r#"["SELECT 1",["a"]]"#);
}

#[test]
fn outbox_batches_and_requeues() {
    let mut o: Outbox<u32> = Outbox::new();
    for i in 0..600u32 {
        o.push(i);
    }
    let batch = o.take_batch();
    assert_eq!(batch.len(), 512);
    assert_eq!(o.frames.len(), 88);
    o.requeue(batch);
    assert_eq!(o.frames.len(), 600);
    assert!(o.frames.iter().copied().eq(0..600u32));
    assert!(o.ensure_capacity().is_ok());
}

use tilde::deployment::register::{
    check_mode_change, check_registration, promotes_at_once, settings, FailureMode, Routing,
};
use tilde::deployment::wire::RegisterDeployment;

fn request(target: DeploymentTarget) -> RegisterDeployment {
    RegisterDeployment {
        source: DeploymentSource::Ci,
        target,
        endpoint_url: None,
        target_reference: None,
        repository: Some("org/repo".into()),
        commit_sha: Some("a1B2".into()),
        external_id: Some("  ".into()),
        label: None,
    }
}

fn refusal(r: Result<tilde::deployment::register::Registration, Error>) -> String {
    match r {
        Err(Error::Invalid(m)) => m,
        other => panic!("expected a refusal, got {other:?}"),
    }
}

#[test]
fn deployment_registration() {
    let mut direct = request(DeploymentTarget::Direct);
    direct.endpoint_url = Some("https://agent.example".into());
    let r = check_registration(direct).unwrap();
    assert_eq!((r.source, r.target), ("ci", "direct"));
    assert_eq!(r.endpoint.as_deref(), Some("https://agent.example"));
    assert!(r.external.is_none());
    assert_eq!(r.label, "");
    assert_eq!(refusal(check_registration(request(DeploymentTarget::Direct))), "A direct deployment requires an endpoint URL");
    let mut sidecar = request(DeploymentTarget::Sidecar);
    sidecar.endpoint_url = Some("https://x".into());
    assert_eq!(refusal(check_registration(sidecar)), "Only direct deployments take an endpoint URL");
    assert_eq!(refusal(check_registration(request(DeploymentTarget::AwsLambda))), "A Lambda deployment requires a function reference");
    let mut lambda = request(DeploymentTarget::AwsLambda);
    lambda.target_reference = Some("arn:aws:lambda:fn".into());
    assert_eq!(check_registration(lambda).unwrap().target, "aws_lambda");
    let mut sidecar_ref = request(DeploymentTarget::Sidecar);
    sidecar_ref.target_reference = Some("ref".into());
    assert_eq!(refusal(check_registration(sidecar_ref)), "Only Lambda deployments take a target reference");
    let mut bad_commit = request(DeploymentTarget::Sidecar);
    bad_commit.commit_sha = Some("xyz".into());
    assert_eq!(refusal(check_registration(bad_commit)), "Commit must be a hex SHA");
    let mut long = request(DeploymentTarget::Sidecar);
    long.label = Some("l".repeat(513));
    assert_eq!(refusal(check_registration(long)), "Label is too long");
}

#[test]
fn deployment_settings() {
    let s = settings(Some(DeploymentMode::Sidecar), FailureMode::Stop, Routing::Unspecified).unwrap();
    assert_eq!((s.mode, s.failure, s.routing), ("sidecar", "stop", "latest"));
    assert!(matches!(settings(None, FailureMode::Stop, Routing::Manual), Err(Error::Invalid(m)) if m == "Select gateway or sidecar deployment"));
    assert!(matches!(settings(Some(DeploymentMode::Gateway), FailureMode::Unspecified, Routing::Manual), Err(Error::Invalid(m)) if m == "Select a failure policy"));
    assert_eq!(check_mode_change("gateway", "gateway", false, true).unwrap(), false);
    assert!(matches!(check_mode_change("gateway", "sidecar", false, false), Err(Error::AgentNotPaused)));
    assert!(matches!(check_mode_change("gateway", "sidecar", true, true), Err(Error::Invalid(_))));
    assert_eq!(check_mode_change("gateway", "sidecar", true, false).unwrap(), true);
    assert!(promotes_at_once("latest", "sidecar", "sidecar"));
    assert!(promotes_at_once("latest", "gateway", "direct"));
    assert!(!promotes_at_once("manual", "gateway", "direct"));
    assert!(!promotes_at_once("latest", "gateway", "sidecar"));
}

fn input(invocation: &str, id: &str, text: &str) -> Command {
    Command {
        attempt_id: 0,
        command_id: id.to_owned(),
        action: CommandAction::Steer(Steer {
            invocation_id: invocation.into(),
            input_id: id.into(),
            text: text.into(),
            history_through_message_id: format!("h-{id}"),
        }),
        acked_at: None,
        finished_at: None,
        failure: String::new(),
    }
}

fn steered_to(c: &Command) -> &str {
    match &c.action {
        CommandAction::Steer(s) => s.invocation_id.as_str(),
        _ => "",
    }
}

#[test]
fn queued_inputs_start_one_at_a_time() {
    let mut t = ThreadState::new(0);
    t.commands.push(input("inv1", "a", "first"));
    t.commands.push(command("x", false));
    t.commands.push(input("inv1", "b", "second"));
    t.commands.push(input("inv2", "c", "other"));
    assert_eq!(t.queued("inv1"), vec![0, 2]);
    let d = t.dispatch_queued("inv1", ConcurrencyPolicy::Queue, "inv3", 77).unwrap();
    assert_eq!(d.batch.objective, "first");
    assert_eq!(d.batch.first_input_id, "a");
    assert_eq!(d.batch.history_through_message_id, "h-a");
    assert_eq!((d.started, d.moved), (vec![0], vec![2]));
    assert_eq!(t.commands[0].finished_at, Some(77));
    assert_eq!(steered_to(&t.commands[2]), "inv3");
    assert_eq!(steered_to(&t.commands[3]), "inv2");
    assert!(t.dispatch_queued("inv9", ConcurrencyPolicy::Queue, "inv3", 1).is_none());
}

#[test]
fn queued_inputs_start_together() {
    let mut t = ThreadState::new(0);
    t.commands.push(input("inv1", "a", "first"));
    t.commands.push(input("inv1", "b", "second"));
    let d = t.dispatch_queued("inv1", ConcurrencyPolicy::QueueAndBatch, "inv3", 5).unwrap();
    assert_eq!(d.batch.objective, "first\nsecond");
    assert_eq!(d.batch.history_through_message_id, "h-b");
    assert!(d.moved.is_empty());
    assert!(t.commands.iter().all(|c| c.finished_at == Some(5)));
}

#[test]
fn inputs_join_a_pending_invocation() {
    let mut t = ThreadState::new(0);
    t.commands.push(Command {
        attempt_id: 0,
        command_id: "wake".into(),
        action: CommandAction::Invoke { invocation_id: "inv1".into(), objective: "do".into() },
        acked_at: None,
        finished_at: None,
        failure: String::new(),
    });
    t.commands.push(input("inv1", "a", "more"));
    let m = t.merge_pending("inv1", "do", 9).unwrap();
    assert_eq!(m.objective, "do\nmore");
    assert_eq!(m.merged, vec![1]);
    match &t.commands[0].action {
        CommandAction::Invoke { objective, .. } => assert_eq!(objective, "do\nmore"),
        _ => panic!("the invoke command stays"),
    }
    assert_eq!(t.commands[1].finished_at, Some(9));
    assert!(t.merge_pending("inv1", "do", 10).is_none());
}

use tilde::deployment::attachments::{checksum, object_key};
use tilde::deployment::telemetry::{check_batch_size, common_scope, trace_headers, Attribute, AttributeValue, LogRecord};

#[test]
fn attachment_checksums() {
    let abc = "ba7816bf8f01cfea414140de5dae2223b00361a396177a9cb410ff61f20015ad";
    assert_eq!(checksum(b"abc", "").unwrap(), abc);
    assert_eq!(checksum(b"abc", abc).unwrap(), abc);
    assert!(matches!(checksum(b"abc", "00"), Err(Error::Invalid(m)) if m == "Attachment checksum mismatch"));
    assert_eq!(object_key(AGENT, THREAD), format!("attachments/{AGENT_TEXT}/{THREAD_TEXT}"));
}

fn record(thread: &str) -> LogRecord {
    let attr = |k: &str, v: &str| Attribute { key: k.into(), value: Some(AttributeValue::Text(v.into())) };
    LogRecord { attributes: vec![attr("tilde.thread.id", thread), attr("tilde.run.id", AGENT_TEXT), attr("tilde.invocation.id", INSTANCE_TEXT)] }
}

#[test]
fn log_batches_name_one_scope() {
    assert_eq!(common_scope(&vec![record(THREAD_TEXT), record(THREAD_TEXT)]).unwrap(), Some((THREAD, AGENT, INSTANCE)));
    assert_eq!(common_scope(&vec![]).unwrap(), None);
    assert!(matches!(common_scope(&vec![record(THREAD_TEXT), record(AGENT_TEXT)]), Err(Error::Denied)));
    let missing = LogRecord { attributes: vec![Attribute { key: "tilde.thread.id".into(), value: Some(AttributeValue::Other) }] };
    assert!(matches!(common_scope(&vec![missing]), Err(Error::Denied)));
    let headers = trace_headers(AGENT, INSTANCE, THREAD, 0);
    assert_eq!(headers[0], ("x-tilde-trace-agent".to_string(), AGENT_TEXT.to_string()));
    assert_eq!(headers[4].1, "");
    assert!(check_batch_size(8 * 1024 * 1024).is_ok());
    assert!(matches!(check_batch_size(8 * 1024 * 1024 + 1), Err(ChatError::Invalid(m)) if m == "Log batch is too large"));
}

use tilde::deployment::inbox::{route_message, Routed};
use tilde::deployment::lease::LeaseChange;

#[test]
fn leases_taken_and_released() {
    let mut t = ThreadState::new(0);
    t.push_command(command("open", false));
    t.push_command(command("done", true));
    t.invocations.push(InvocationState { id: "i".into(), agent_id: AGENT_TEXT.into(), run_id: String::new(), participant_id: String::new(), generation: 0, status: "running".into(), ended_at: 0 });
    let mine = lease_frame(AGENT, THREAD, Some((INSTANCE, String::new())));
    assert_eq!(t.apply_lease(&mine, INSTANCE, 3, 10), LeaseChange::Taken);
    assert_eq!((t.lease.holder, t.lease.epoch), (Some(INSTANCE), 3));
    assert_eq!(t.apply_lease(&mine, INSTANCE, 4, 10), LeaseChange::Kept);
    assert_eq!(t.lease.epoch, 3);
    let elsewhere = lease_frame(AGENT, THREAD, Some((AGENT, "https://other".into())));
    assert_eq!(t.apply_lease(&elsewhere, INSTANCE, 5, 20), LeaseChange::Released);
    assert_eq!(t.lease.holder, Some(AGENT));
    assert_eq!(t.lease.holder_url, "https://other");
    assert_eq!(t.invocations[0].status, "failed");
    assert_eq!(t.invocations[0].ended_at, 20);
    assert_eq!(t.commands[0].finished_at, Some(20));
    assert_eq!(t.commands[0].failure, "lease_changed");
    assert_eq!(t.commands[1].finished_at, Some(5));
    let free = lease_frame(AGENT, THREAD, None);
    assert_eq!(t.apply_lease(&free, INSTANCE, 6, 30), LeaseChange::Ignored);
}

fn member(id: &str, user: Option<&str>, agent: Option<&str>) -> Participant {
    Participant { id: id.into(), user_id: user.map(str::to_owned), agent_id: agent.map(str::to_owned), name: id.into(), active: true }
}

#[test]
fn incoming_messages_reach_the_agent() {
    let people = vec![member("u", Some("user"), None), member("a", None, Some(AGENT_TEXT))];
    let none: Vec<String> = vec![];
    match route_message(false, "complete", "u", &people, AGENT, &none, AGENT_TEXT, false, false, "") .unwrap() {
        Routed::Run { participant, objective } => {
            assert_eq!(participant, "a");
            assert_eq!(objective, "New message with attachments.");
        }
        other => panic!("expected a run, got {other:?}"),
    }
    match route_message(false, "complete", "u", &people, AGENT, &vec!["a".to_string()], "other", false, true, "hi").unwrap() {
        Routed::Steer { objective, .. } => assert_eq!(objective, "hi"),
        other => panic!("expected steering, got {other:?}"),
    }
    assert!(matches!(route_message(false, "complete", "u", &people, AGENT, &none, "other", false, false, "hi").unwrap(), Routed::Ignored));
    assert!(matches!(route_message(false, "complete", "u", &people, AGENT, &none, AGENT_TEXT, true, false, "hi").unwrap(), Routed::Ignored));
    assert!(matches!(route_message(true, "complete", "u", &people, AGENT, &none, AGENT_TEXT, false, false, "hi").unwrap(), Routed::Ignored));
    assert!(matches!(route_message(false, "streaming", "u", &people, AGENT, &none, AGENT_TEXT, false, false, "hi").unwrap(), Routed::Ignored));
    assert!(matches!(route_message(false, "complete", "ghost", &people, AGENT, &none, AGENT_TEXT, false, false, "hi"), Err(ChatError::NotFound)));
    assert!(matches!(route_message(false, "complete", "u", &people, INSTANCE, &none, AGENT_TEXT, false, false, "hi").unwrap(), Routed::Ignored));
}

use tilde::deployment::lease::{recovery, Recovery};

#[test]
fn dead_replica_recovery() {
    assert_eq!(recovery(Some(AGENT), INSTANCE, false, true, "reassign", None), Recovery::Skip);
    assert_eq!(recovery(Some(INSTANCE), INSTANCE, true, true, "reassign", None), Recovery::Skip);
    assert_eq!(recovery(Some(INSTANCE), INSTANCE, false, false, "reassign", None), Recovery::Free);
    assert_eq!(recovery(Some(INSTANCE), INSTANCE, false, true, "stop", Some(AGENT)), Recovery::Stop);
    assert_eq!(recovery(Some(INSTANCE), INSTANCE, false, true, "reassign", None), Recovery::Wait);
    assert_eq!(recovery(Some(INSTANCE), INSTANCE, false, true, "reassign", Some(AGENT)), Recovery::Move(AGENT));
    assert_eq!(recovery(None, INSTANCE, false, true, "reassign", Some(AGENT)), Recovery::Skip);
}

use tilde::deployment::proxy::{check_public_scope, check_sidecar_method, method_of, relayed_status};
use tilde::deployment::rpc_errors::{lookup_error, relay_error, RpcCode};

#[test]
fn public_ingress_rules() {
    assert_eq!(method_of("tilde.ingress.v1.ChatService/PostMessage"), "PostMessage");
    assert_eq!(method_of("a/b/"), "");
    assert_eq!(method_of("plain"), "plain");
    assert!(check_public_scope(Some(THREAD), Some(THREAD)).is_ok());
    assert!(check_public_scope(Some(THREAD), None).is_ok());
    assert!(matches!(check_public_scope(Some(THREAD), Some(AGENT)), Err(Error::Denied)));
    assert!(matches!(check_public_scope(None, Some(AGENT)), Err(Error::Denied)));
    assert!(check_public_scope(None, None).is_ok());
    assert!(check_sidecar_method("PostMessage").is_ok());
    assert!(check_sidecar_method("WatchThread").is_err());
    assert_eq!(relayed_status(204), 204);
    assert_eq!(relayed_status(1000), 502);
    assert_eq!(relayed_status(65536 + 200), 200);
    assert_eq!(relayed_status(-1), 502);
}

#[test]
fn relay_errors() {
    assert!(matches!(relay_error(RpcCode::Unauthenticated, None), ChatError::Denied));
    assert!(matches!(relay_error(RpcCode::NotFound, Some("x".into())), ChatError::NotFound));
    assert!(matches!(relay_error(RpcCode::InvalidArgument, Some("bad".into())), ChatError::Invalid(m) if m == "bad"));
    assert!(matches!(relay_error(RpcCode::Unavailable, Some("down".into())), ChatError::Invalid(m) if m == "Gateway relay failed: Unavailable down"));
    assert!(matches!(relay_error(RpcCode::Internal, None), ChatError::Invalid(m) if m == "Gateway relay failed: Internal "));
    assert!(matches!(lookup_error(RpcCode::NotFound), ChatError::NotFound));
    assert!(matches!(lookup_error(RpcCode::Internal), ChatError::Transport));
}

use tilde::deployment::lease::{claim, Claim};

#[test]
fn lease_claims() {
    assert_eq!(claim(None, true, None, INSTANCE, false).unwrap(), Claim::Granted);
    assert_eq!(claim(Some(INSTANCE), false, None, INSTANCE, true).unwrap(), Claim::Granted);
    assert_eq!(claim(Some(AGENT), false, None, INSTANCE, true).unwrap(), Claim::Held(AGENT));
    assert_eq!(claim(Some(AGENT), false, None, INSTANCE, false).unwrap(), Claim::TakeOver(AGENT));
    assert_eq!(claim(None, false, Some(AGENT), INSTANCE, true).unwrap(), Claim::Held(AGENT));
    assert!(matches!(claim(None, false, None, INSTANCE, true), Err(Error::Conflict)));
}

use tilde::address::IpAddress;
use tilde::deployment::options::{agent_endpoints, check_listeners, idle_seconds, parse_u64, split, tokens, ListenAddress};

#[test]
fn sidecar_settings() {
    assert_eq!(split("a,,b", ','), vec!["a", "", "b"]);
    assert_eq!(split("", ','), vec![""]);
    assert_eq!(tokens(" t1 , ,t2,").unwrap(), vec!["t1", "t2"]);
    assert!(matches!(tokens(" , "), Err(ChatError::Invalid(m)) if m == "At least one deployment token is required"));
    let eps = agent_endpoints(&format!("{THREAD_TEXT}=http://b, {AGENT_TEXT} = http://a ,{THREAD_TEXT}=http://c")).unwrap();
    assert_eq!(eps, vec![(AGENT, "http://a".to_string()), (THREAD, "http://c".to_string())]);
    assert!(matches!(agent_endpoints("nope"), Err(ChatError::Invalid(m)) if m == "Agent endpoints must be agent_id=http(s)://host pairs"));
    assert!(matches!(agent_endpoints("x=http://a"), Err(ChatError::Invalid(m)) if m == "Invalid UUID"));
    assert_eq!(idle_seconds(None).unwrap(), 86400);
    assert_eq!(idle_seconds(Some("+60")).unwrap(), 60);
    assert!(matches!(idle_seconds(Some("-1")), Err(ChatError::Invalid(m)) if m == "Invalid ENGINE_SIDECAR_THREAD_IDLE_SECONDS"));
    assert_eq!(parse_u64("18446744073709551615"), Some(u64::MAX));
    assert_eq!(parse_u64("18446744073709551616"), None);
    let local = ListenAddress { ip: IpAddress::V4([127, 0, 0, 1]), port: 8081 };
    let public = ListenAddress { ip: IpAddress::V4([0, 0, 0, 0]), port: 8082 };
    assert!(check_listeners(local, public).is_ok());
    assert!(check_listeners(public, local).is_err());
    assert!(matches!(check_listeners(local, local), Err(ChatError::Invalid(m)) if m == "Sidecar listeners must have distinct addresses"));
    let v6 = ListenAddress { ip: IpAddress::V6([0, 0, 0, 0, 0, 0, 0, 1]), port: 1 };
    assert!(check_listeners(v6, local).is_ok());
}
