use tilde::deployment::ingest::Participant;
use tilde::deployment::runs::check_run_status;
use tilde::deployment::store::{Command, CommandAction, InvocationState, Run, Steer, ThreadState};
use tilde::deployment::wire::ChatError;
use tilde::ids::{be_bytes_of, random_id};
use uuid::Uuid;

const AGENT: u128 = 0x67e5504410b1426f9247bb680e5fe0c8;
const AGENT_TEXT: &str = "67e55044-10b1-426f-9247-bb680e5fe0c8";
const INSTANCE: u128 = 0x11111111222233334444555555555555;
const THREAD_TEXT: &str = "aaaaaaaa-bbbb-cccc-dddd-eeeeeeeeeeee";
const PARTICIPANT_TEXT: &str = "99999999-8888-7777-6666-555555555555";
const RUN: u128 = 0x0123456789abcdef0123456789abcdef;
const INPUT_TEXT: &str = "feedface-0000-4000-8000-000000000001";

fn me() -> Vec<Participant> {
    vec![
        Participant { id: "22222222-0000-4000-8000-000000000000".into(), user_id: Some("u".into()), agent_id: None, name: "user".into(), active: true },
        Participant { id: PARTICIPANT_TEXT.into(), user_id: None, agent_id: Some(AGENT_TEXT.into()), name: "agent".into(), active: true },
    ]
}

fn held() -> ThreadState {
    let mut t = ThreadState::new(1);
    t.lease.holder = Some(INSTANCE);
    t.lease.epoch = 3;
    t
}

fn run(status: &str, invocation: &str) -> Run {
    Run {
        key: RUN,
        objective: "write".into(),
        status: status.into(),
        invocation_id: invocation.into(),
        invocation_status: "failed".into(),
    }
}

fn invocation(id: &str, status: &str) -> InvocationState {
    InvocationState {
        id: id.into(),
        agent_id: AGENT_TEXT.into(),
        run_id: Uuid::from_u128(RUN).to_string(),
        participant_id: PARTICIPANT_TEXT.into(),
        generation: 2,
        status: status.into(),
        ended_at: 0,
    }
}

fn expected_invocation(previous: &str, epoch: u64) -> Uuid {
    let name = format!("{}:{}:{}", Uuid::from_u128(INSTANCE), epoch, previous);
    Uuid::new_v5(&Uuid::from_u128(RUN), name.as_bytes())
}

#[test]
fn run_statuses_that_may_be_set() {
    for s in ["waiting", "completed", "failed", "canceled"] {
        assert!(check_run_status(s).is_ok());
    }
    match check_run_status("active") {
        Err(ChatError::Invalid(m)) => assert_eq!(m, "Invalid run status"),
        other => panic!("{other:?}"),
    }
}

#[test]
fn setting_a_run_status() {
    let mut t = held();
    t.runs.push(run("active", ""));
    assert!(matches!(t.set_run_status(true, RUN, "bogus", 5), Err(ChatError::Invalid(_))));
    assert!(matches!(t.set_run_status(false, RUN, "waiting", 5), Err(ChatError::Denied)));
    assert!(matches!(t.set_run_status(true, RUN + 1, "waiting", 5), Err(ChatError::NotFound)));
    let e = t.set_run_status(true, RUN, "waiting", 5).unwrap();
    assert_eq!(e.kind, "run.updated");
    assert_eq!(e.sequence, 1);
    assert_eq!(t.runs[0].status, "waiting");
    assert_eq!(t.last_activity_at, 5);
}

#[test]
fn canceling_twice_changes_nothing_the_second_time() {
    let key: u128 = 0x00000000000040008000000000000abc;
    let key_text = Uuid::from_u128(key).to_string();
    let mut t = held();
    t.runs.push(run("active", &key_text));
    t.invocations.push(invocation(&key_text, "running"));
    let events = t.cancel_invocation(true, key, 9).unwrap();
    assert_eq!(events.iter().map(|e| e.kind.as_str()).collect::<Vec<_>>(), vec!["invocation.ended", "run.updated"]);
    assert_eq!(t.invocations[0].status, "canceled");
    assert_eq!(t.invocations[0].ended_at, 9);
    assert_eq!(t.runs[0].status, "canceled");
    assert_eq!(t.runs[0].invocation_status, "canceled");
    assert_eq!(t.sequence, 2);
    let again = t.cancel_invocation(true, key, 10).unwrap();
    assert!(again.is_empty());
    assert_eq!(t.invocations[0].ended_at, 9);
    assert_eq!(t.sequence, 2);
    assert!(matches!(t.cancel_invocation(true, key + 1, 10), Err(ChatError::NotFound)));
    assert!(matches!(t.cancel_invocation(false, key, 10), Err(ChatError::Denied)));
}

#[test]
fn canceling_an_invocation_of_an_unknown_run() {
    let key: u128 = 0x00000000000040008000000000000abd;
    let key_text = Uuid::from_u128(key).to_string();
    let mut t = held();
    t.invocations.push(invocation(&key_text, "pending"));
    assert!(matches!(t.cancel_invocation(true, key, 9), Err(ChatError::NotFound)));
    assert_eq!(t.invocations[0].status, "pending");
}

#[test]
fn beginning_an_invocation_derives_its_identifier() {
    let mut t = held();
    let mut r = run("active", "");
    let participant = Uuid::parse_str(PARTICIPANT_TEXT).unwrap().as_u128();
    let b = t.begin_invocation(true, INSTANCE, AGENT, &mut r, participant, 7).unwrap();
    let expected = expected_invocation("", 3);
    assert_eq!(b.invocation, expected.as_u128());
    assert_eq!(r.invocation_id, expected.to_string());
    assert_eq!(r.invocation_status, "pending");
    assert_eq!(t.invocations.len(), 1);
    assert_eq!(t.invocations[0].id, expected.to_string());
    assert_eq!(t.invocations[0].status, "pending");
    assert_eq!(t.invocations[0].generation, 3);
    assert_eq!(t.invocations[0].run_id, Uuid::from_u128(RUN).to_string());
    assert_eq!(t.commands.len(), 1);
    let c = &t.commands[0];
    let command = Uuid::parse_str(&c.command_id).unwrap();
    assert_eq!(command.get_version_num(), 4);
    assert_eq!(c.attempt_id, Uuid::new_v5(&command, &3u64.to_be_bytes()).as_u128());
    match &c.action {
        CommandAction::Invoke { invocation_id, objective } => {
            assert_eq!(invocation_id, &expected.to_string());
            assert_eq!(objective, "write");
        }
        other => panic!("{other:?}"),
    }
    assert_eq!(b.attempt, c.attempt_id);
    assert_eq!(t.runs.len(), 1);
    assert_eq!(t.runs[0].invocation_id, expected.to_string());
    assert_eq!(b.events.iter().map(|e| e.kind.as_str()).collect::<Vec<_>>(), vec!["run.created", "invocation.pending"]);
    assert_eq!(t.sequence, 2);
    let mut other = run("active", "");
    assert!(matches!(t.begin_invocation(false, INSTANCE, AGENT, &mut other, participant, 8), Err(ChatError::Denied)));
    assert_eq!(other.invocation_id, "");
}

#[test]
fn starting_a_run_is_idempotent() {
    let mut t = held();
    let ps = me();
    let started = t.start_run(true, INSTANCE, AGENT, &ps, THREAD_TEXT, AGENT_TEXT, "k1", "write", 4).unwrap();
    let key = Uuid::new_v5(&Uuid::parse_str(THREAD_TEXT).unwrap(), format!("{AGENT_TEXT}:k1").as_bytes());
    assert_eq!(started.run.key, key.as_u128());
    assert_eq!(started.run.status, "active");
    assert_eq!(started.run.invocation_status, "pending");
    assert!(started.begun.is_some());
    let again = t.start_run(true, INSTANCE, AGENT, &ps, THREAD_TEXT, AGENT_TEXT, "k1", "write", 5).unwrap();
    assert!(again.begun.is_none());
    assert_eq!(again.run.invocation_id, started.run.invocation_id);
    assert_eq!(again.run.invocation_status, "pending");
    assert_eq!(t.invocations.len(), 1);
    assert!(matches!(t.start_run(true, INSTANCE, AGENT, &ps, THREAD_TEXT, AGENT_TEXT, "k1", "other", 5), Err(ChatError::Conflict)));
    assert!(matches!(t.start_run(true, INSTANCE, AGENT, &ps, THREAD_TEXT, AGENT_TEXT, "k2", "more", 5), Err(ChatError::Conflict)));
}

#[test]
fn starting_a_run_is_refused_in_order() {
    let mut t = held();
    let ps = me();
    assert!(matches!(t.start_run(true, INSTANCE, AGENT, &ps, "nope", AGENT_TEXT, "k", "o", 1), Err(ChatError::Invalid(_))));
    assert!(matches!(t.start_run(true, INSTANCE, AGENT, &ps, THREAD_TEXT, "nope", "k", "o", 1), Err(ChatError::Invalid(_))));
    assert!(matches!(t.start_run(true, INSTANCE, AGENT, &ps, THREAD_TEXT, PARTICIPANT_TEXT, "k", "o", 1), Err(ChatError::Denied)));
    assert!(matches!(t.start_run(false, INSTANCE, AGENT, &ps, THREAD_TEXT, AGENT_TEXT, "k", "o", 1), Err(ChatError::Denied)));
    assert!(matches!(t.start_run(true, INSTANCE, AGENT, &vec![me().remove(0)], THREAD_TEXT, AGENT_TEXT, "k", "o", 1), Err(ChatError::NotFound)));
    assert!(t.runs.is_empty());
    assert!(t.commands.is_empty());
}

#[test]
fn steering_an_invocation_once_per_input() {
    let inv: u128 = 0x00000000000040008000000000000def;
    let inv_text = Uuid::from_u128(inv).to_string();
    let mut t = held();
    t.invocations.push(invocation(&inv_text, "running"));
    t.steer_invocation(true, &inv_text, INPUT_TEXT, "more please").unwrap();
    assert_eq!(t.commands.len(), 1);
    let expected = Uuid::new_v5(&Uuid::from_u128(inv), Uuid::parse_str(INPUT_TEXT).unwrap().as_bytes());
    let c = &t.commands[0];
    assert_eq!(c.command_id, expected.to_string());
    assert_eq!(c.attempt_id, Uuid::new_v5(&expected, &2u64.to_be_bytes()).as_u128());
    match &c.action {
        CommandAction::Steer(s) => {
            assert_eq!(s.invocation_id, inv_text);
            assert_eq!(s.input_id, INPUT_TEXT);
            assert_eq!(s.text, "more please");
        }
        other => panic!("{other:?}"),
    }
    t.steer_invocation(true, &inv_text, INPUT_TEXT, "more please").unwrap();
    assert_eq!(t.commands.len(), 1);
    assert!(matches!(t.steer_invocation(true, &inv_text, "x", "t"), Err(ChatError::Invalid(_))));
    assert!(matches!(t.steer_invocation(false, &inv_text, INPUT_TEXT, "t"), Err(ChatError::Denied)));
    assert!(matches!(t.steer_invocation(true, INPUT_TEXT, INPUT_TEXT, "t"), Err(ChatError::NotFound)));
    t.invocations[0].status = "completed".into();
    assert!(matches!(t.steer_invocation(true, &inv_text, INPUT_TEXT, "t"), Err(ChatError::Conflict)));
}

#[test]
fn resuming_a_run_hands_waiting_inputs_over() {
    let previous = "00000000-0000-4000-8000-000000000077";
    let mut t = held();
    t.runs.push(run("waiting", previous));
    t.invocations.push(invocation(previous, "failed"));
    t.commands.push(Command {
        attempt_id: 1,
        command_id: "waiting-input".into(),
        action: CommandAction::Steer(Steer {
            invocation_id: previous.into(),
            input_id: INPUT_TEXT.into(),
            text: "and then".into(),
            history_through_message_id: "m1".into(),
        }),
        acked_at: None,
        finished_at: None,
        failure: String::new(),
    });
    let resumed = t.resume_run(true, INSTANCE, AGENT, &me(), RUN, 12).unwrap();
    let next = expected_invocation(previous, 3);
    assert_eq!(resumed.run.status, "active");
    assert_eq!(resumed.run.invocation_id, next.to_string());
    assert_eq!(t.commands[0].finished_at, Some(12));
    let handed = t.commands.last().unwrap();
    let id = Uuid::new_v5(&next, Uuid::parse_str(INPUT_TEXT).unwrap().as_bytes());
    assert_eq!(handed.command_id, id.to_string());
    assert_eq!(handed.attempt_id, Uuid::new_v5(&id, &3u64.to_be_bytes()).as_u128());
    match &handed.action {
        CommandAction::Steer(s) => {
            assert_eq!(s.invocation_id, next.to_string());
            assert_eq!(s.text, "and then");
            assert_eq!(s.history_through_message_id, "m1");
        }
        other => panic!("{other:?}"),
    }
    assert_eq!(t.commands.len(), 3);
    assert!(matches!(t.resume_run(true, INSTANCE, AGENT, &me(), RUN, 13), Err(ChatError::Conflict)));
    assert!(matches!(t.resume_run(true, INSTANCE, AGENT, &me(), RUN + 1, 13), Err(ChatError::NotFound)));
}

#[test]
fn big_endian_bytes() {
    assert_eq!(be_bytes_of(0x0102030405060708, 8), vec![1, 2, 3, 4, 5, 6, 7, 8]);
    assert_eq!(be_bytes_of(258, 2), vec![1, 2]);
    assert_eq!(be_bytes_of(AGENT, 16), Uuid::from_u128(AGENT).as_bytes().to_vec());
}

#[test]
fn random_ids_are_version_four() {
    let a = random_id();
    let b = random_id();
    assert_ne!(a, b);
    assert_eq!(Uuid::from_u128(a).get_version_num(), 4);
    assert_eq!(Uuid::from_u128(a).get_variant(), uuid::Variant::RFC4122);
}

fn steer(id: &str, invocation: &str, input: &str, text: &str, acked: bool) -> Command {
    Command {
        attempt_id: 5,
        command_id: id.into(),
        action: CommandAction::Steer(Steer {
            invocation_id: invocation.into(),
            input_id: input.into(),
            text: text.into(),
            history_through_message_id: String::new(),
        }),
        acked_at: if acked { Some(1) } else { None },
        finished_at: None,
        failure: String::new(),
    }
}

#[test]
fn a_stopped_invocation_leaves_its_run_waiting() {
    let key: u128 = 0x00000000000040008000000000000a01;
    let key_text = Uuid::from_u128(key).to_string();
    let mut t = held();
    let mut v = invocation(&key_text, "running");
    v.generation = 3;
    t.invocations.push(v);
    t.runs.push(run("active", &key_text));
    let f = t.finish_invocation(true, INSTANCE, AGENT, key, "stopped", &vec![], 20).unwrap();
    assert_eq!(t.invocations[0].status, "stopped");
    assert_eq!(t.invocations[0].ended_at, 20);
    assert_eq!(t.runs[0].status, "waiting");
    assert_eq!(t.runs[0].invocation_status, "stopped");
    assert_eq!(f.events.iter().map(|e| e.kind.as_str()).collect::<Vec<_>>(), vec!["invocation.ended", "run.updated"]);
    assert!(f.next.is_none());
    let again = t.finish_invocation(true, INSTANCE, AGENT, key, "failed", &vec![], 21).unwrap();
    assert!(again.ended.is_none());
    assert_eq!(t.invocations[0].status, "stopped");
}

#[test]
fn a_failed_invocation_fails_its_run() {
    let key: u128 = 0x00000000000040008000000000000a02;
    let key_text = Uuid::from_u128(key).to_string();
    let mut t = held();
    let mut v = invocation(&key_text, "pending");
    v.generation = 3;
    t.invocations.push(v);
    t.runs.push(run("active", &key_text));
    t.finish_invocation(true, INSTANCE, AGENT, key, "failed", &vec![], 20).unwrap();
    assert_eq!(t.runs[0].status, "failed");
    assert_eq!(t.runs[0].invocation_status, "failed");
}

#[test]
fn an_invocation_from_an_older_lease_fails_alone() {
    let key: u128 = 0x00000000000040008000000000000a03;
    let key_text = Uuid::from_u128(key).to_string();
    let mut t = held();
    t.invocations.push(invocation(&key_text, "running"));
    t.runs.push(run("active", &key_text));
    let f = t.finish_invocation(true, INSTANCE, AGENT, key, "stopped", &vec![], 20).unwrap();
    assert!(f.ended.is_none());
    assert_eq!(t.invocations[0].status, "failed");
    assert_eq!(t.invocations[0].ended_at, 20);
    assert_eq!(t.runs[0].status, "active");
    assert_eq!(t.sequence, 0);
    assert!(matches!(t.finish_invocation(true, INSTANCE, AGENT, key + 1, "stopped", &vec![], 20), Err(ChatError::NotFound)));
}

#[test]
fn inputs_left_over_start_a_new_run() {
    let key: u128 = 0x00000000000040008000000000000a04;
    let key_text = Uuid::from_u128(key).to_string();
    let mut t = held();
    let mut v = invocation(&key_text, "running");
    v.generation = 3;
    t.invocations.push(v);
    t.runs.push(run("active", &key_text));
    t.commands.push(steer("c1", &key_text, "i1", "first", true));
    t.commands.push(steer("c2", &key_text, "i2", "second", false));
    t.commands.push(steer("c3", &key_text, "i3", "third", true));
    t.commands.push(steer("c4", "someone-else", "i4", "other", false));
    let f = t.finish_invocation(true, INSTANCE, AGENT, key, "stopped", &vec!["i3".to_string()], 30).unwrap();
    assert_eq!(t.commands[0].finished_at, None);
    assert_eq!(t.commands[1].finished_at, Some(30));
    assert_eq!(t.commands[2].finished_at, Some(30));
    assert_eq!(t.commands[3].finished_at, None);
    let next = f.next.unwrap();
    assert_eq!(next.run.objective, "second\nthird");
    assert_eq!(next.run.status, "active");
    assert_eq!(next.run.key, Uuid::new_v5(&Uuid::from_u128(key), b"unconsumed-input").as_u128());
    assert!(next.begun.is_some());
    assert_eq!(t.runs.len(), 2);
    assert_eq!(t.invocations.len(), 2);
    assert_eq!(t.sequence, 4);
}

#[test]
fn inputs_wait_again_while_a_run_is_suspended() {
    let key: u128 = 0x00000000000040008000000000000a05;
    let key_text = Uuid::from_u128(key).to_string();
    let mut t = held();
    let mut v = invocation(&key_text, "running");
    v.generation = 3;
    t.invocations.push(v);
    t.runs.push(run("active", &key_text));
    t.commands.push(steer("c1", &key_text, "i1", "first", true));
    t.suspend_invocation(true, key, 25).unwrap();
    assert_eq!(t.runs[0].status, "suspending");
    let f = t.finish_invocation(true, INSTANCE, AGENT, key, "stopped", &vec!["i1".to_string()], 30).unwrap();
    assert!(f.next.is_none());
    assert_eq!(t.commands[0].acked_at, None);
    assert_eq!(t.commands[0].finished_at, None);
    assert_eq!(t.runs[0].status, "waiting");
    assert_eq!(t.pending_steering(key).len(), 1);
}

#[test]
fn suspending_needs_a_running_invocation() {
    let key: u128 = 0x00000000000040008000000000000a06;
    let key_text = Uuid::from_u128(key).to_string();
    let mut t = held();
    t.invocations.push(invocation(&key_text, "pending"));
    t.runs.push(run("active", &key_text));
    assert!(matches!(t.suspend_invocation(true, key, 1), Err(ChatError::Conflict)));
    assert!(matches!(t.suspend_invocation(false, key, 1), Err(ChatError::Denied)));
    assert!(matches!(t.suspend_invocation(true, key + 1, 1), Err(ChatError::NotFound)));
    assert_eq!(t.runs[0].status, "active");
}

#[test]
fn pending_steering_lists_waiting_inputs_in_order() {
    let key: u128 = 0x00000000000040008000000000000a07;
    let key_text = Uuid::from_u128(key).to_string();
    let mut t = held();
    t.commands.push(steer("c1", &key_text, "i1", "first", false));
    t.commands.push(steer("c2", &key_text, "i2", "second", true));
    t.commands.push(steer("c3", "other", "i3", "third", false));
    t.commands.push(steer("c4", &key_text, "i4", "fourth", false));
    let p = t.pending_steering(key);
    assert_eq!(p.iter().map(|(id, s)| (id.as_str(), s.text.as_str())).collect::<Vec<_>>(), vec![("c1", "first"), ("c4", "fourth")]);
}
