use tilde::deployment::bridge::{
    bridge_step, delivers, plan_bridge, retained_run, BridgeActivity, BridgeSnapshot, BridgeStep,
};
use tilde::deployment::ingest::Participant;
use tilde::deployment::store::Message;
use tilde::deployment::wire::ChatError;
use uuid::Uuid;

const THREAD: u128 = 0x11111111_2222_3333_4444_555555555555;
const THREAD_TEXT: &str = "11111111-2222-3333-4444-555555555555";
const AGENT: u128 = 0xaaaaaaaa_0000_4000_8000_000000000001;
const AGENT_TEXT: &str = "aaaaaaaa-0000-4000-8000-000000000001";
const OTHER_TEXT: &str = "aaaaaaaa-0000-4000-8000-000000000002";

fn message(n: u128, status: &str) -> Message {
    Message {
        id: format!("00000000-0000-0000-0000-{n:012x}"),
        thread_id: THREAD_TEXT.into(),
        participant_id: "00000000-0000-4000-8000-0000000000aa".into(),
        text: format!("m{n}"),
        status: status.into(),
        created_seconds: n as i64,
        created_nanos: 0,
    }
}

fn activity(sequence: i64, carried: Option<Message>) -> BridgeActivity {
    BridgeActivity {
        event_id: String::new(),
        sequence,
        origin_instance_id: String::new(),
        origin_agent_id: String::new(),
        origin_sequence: 0,
        created_seconds: 1_700_000_000,
        created_nanos: 250_000_000,
        kind: "message".into(),
        message: carried,
    }
}

fn member(agent: &str) -> Participant {
    Participant {
        id: "00000000-0000-4000-8000-0000000000bb".into(),
        user_id: None,
        agent_id: Some(agent.into()),
        name: "Agent".into(),
        active: true,
    }
}

fn snapshot(activities: Vec<BridgeActivity>, sequence: i64) -> BridgeSnapshot {
    BridgeSnapshot {
        thread_id: THREAD_TEXT.into(),
        primary_agent_id: OTHER_TEXT.into(),
        participants: vec![member(AGENT_TEXT)],
        messages: vec![message(1, "complete")],
        activities,
        sequence,
    }
}

#[test]
fn copy_record_is_named_by_agent_and_sequence() {
    let expected = Uuid::new_v5(&Uuid::from_u128(THREAD), format!("bridge:{AGENT_TEXT}:7").as_bytes());
    assert_eq!(
        bridge_step(THREAD, AGENT, 7, true, Some(OTHER_TEXT)),
        BridgeStep::Copy { record: expected.as_u128() }
    );
    let negative = Uuid::new_v5(&Uuid::from_u128(THREAD), format!("bridge:{AGENT_TEXT}:-3").as_bytes());
    assert_eq!(
        bridge_step(THREAD, AGENT, -3, true, Some(OTHER_TEXT)),
        BridgeStep::Copy { record: negative.as_u128() }
    );
}

#[test]
fn own_activity_takes_only_the_receipt() {
    assert_eq!(bridge_step(THREAD, AGENT, 7, true, Some(AGENT_TEXT)), BridgeStep::Receipt);
}

#[test]
fn taken_or_missing_copies_are_skipped() {
    assert_eq!(bridge_step(THREAD, AGENT, 7, false, Some(OTHER_TEXT)), BridgeStep::Skip);
    assert_eq!(bridge_step(THREAD, AGENT, 7, true, None), BridgeStep::Skip);
}

#[test]
fn copies_reach_only_replicated_conversations() {
    assert!(delivers(true, None));
    assert!(delivers(true, Some("corrosion")));
    assert!(!delivers(true, Some("retiring")));
    assert!(!delivers(true, Some("postgres")));
    assert!(!delivers(false, None));
}

#[test]
fn retained_runs_wait_for_retirement() {
    assert!(matches!(retained_run(false, None), Ok(false)));
    assert!(matches!(retained_run(true, Some("postgres")), Ok(false)));
    assert!(matches!(retained_run(true, Some("retiring")), Err(ChatError::Conflict)));
    assert!(matches!(retained_run(true, Some("corrosion")), Ok(true)));
    assert!(matches!(retained_run(true, None), Ok(true)));
}

#[test]
fn only_the_triggering_activity_routes() {
    let s = snapshot(
        vec![
            activity(3, Some(message(2, "complete"))),
            activity(4, None),
            activity(5, Some(message(3, "complete"))),
        ],
        5,
    );
    let plan = plan_bridge(AGENT, s).unwrap();
    assert_eq!(plan.thread, THREAD);
    assert_eq!(plan.routed.len(), 1);
    assert_eq!(plan.routed[0].id, message(3, "complete").id);
    let keys: Vec<u128> = plan.messages.iter().map(|(k, _)| *k).collect();
    assert_eq!(keys, vec![1, 2, 3]);
}

#[test]
fn replayed_history_routes_nothing() {
    let s = snapshot(vec![activity(3, Some(message(2, "complete")))], 9);
    let plan = plan_bridge(AGENT, s).unwrap();
    assert!(plan.routed.is_empty());
    assert_eq!(plan.messages.len(), 2);
}

#[test]
fn streaming_messages_are_not_routed() {
    let s = snapshot(vec![activity(5, Some(message(2, "streaming")))], 5);
    assert!(plan_bridge(AGENT, s).unwrap().routed.is_empty());
}

#[test]
fn events_fill_in_their_origin() {
    let s = snapshot(vec![activity(5, None)], 5);
    let plan = plan_bridge(AGENT, s).unwrap();
    let e = &plan.events[0];
    let expected = Uuid::new_v5(&Uuid::from_u128(THREAD), &5i64.to_be_bytes());
    assert_eq!(e.key, expected.as_u128());
    assert_eq!(e.origin_instance_id, Uuid::nil().to_string());
    assert_eq!(e.origin_agent_id, OTHER_TEXT);
    assert_eq!(e.origin_sequence, 5);
    assert_eq!(e.created_ms, 1_700_000_000_250);
    assert_eq!(e.kind, "message");
}

#[test]
fn events_keep_a_given_origin() {
    let mut a = activity(5, None);
    a.event_id = "00000000-0000-4000-8000-0000000000ee".into();
    a.origin_instance_id = "instance".into();
    a.origin_agent_id = AGENT_TEXT.into();
    a.origin_sequence = 2;
    a.created_nanos = -1_500_000;
    let plan = plan_bridge(AGENT, snapshot(vec![a], 5)).unwrap();
    let e = &plan.events[0];
    assert_eq!(e.key, 0x00000000_0000_4000_8000_0000000000ee);
    assert_eq!(e.origin_instance_id, "instance");
    assert_eq!(e.origin_agent_id, AGENT_TEXT);
    assert_eq!(e.origin_sequence, 2);
    assert_eq!(e.created_ms, 1_700_000_000_000 - 1);
}

#[test]
fn copies_for_strangers_are_denied() {
    let mut s = snapshot(vec![], 1);
    s.participants = vec![member(OTHER_TEXT)];
    assert!(matches!(plan_bridge(AGENT, s), Err(ChatError::Denied)));
}

#[test]
fn unreadable_identifiers_are_refused() {
    let mut s = snapshot(vec![], 1);
    s.thread_id = "thread".into();
    assert!(matches!(plan_bridge(AGENT, s), Err(ChatError::Invalid(m)) if m == "Invalid UUID"));
    let mut bad = message(2, "complete");
    bad.id = "nope".into();
    let s = snapshot(vec![activity(1, Some(bad))], 1);
    assert!(matches!(plan_bridge(AGENT, s), Err(ChatError::Invalid(m)) if m == "Invalid UUID"));
    let mut a = activity(1, None);
    a.event_id = "nope".into();
    assert!(matches!(plan_bridge(AGENT, snapshot(vec![a], 1)), Err(ChatError::Invalid(m)) if m == "Invalid UUID"));
}
