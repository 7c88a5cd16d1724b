use tilde::deployment::ingest::Participant;
use tilde::deployment::messages::{append_delta, finish_event_kind, finish_message, page_size, Posting};
use tilde::deployment::store::{Message, ThreadState};
use tilde::deployment::wire::ChatError;

const THREAD: u128 = 0xaaaaaaaabbbbccccddddeeeeeeeeeeee;
const THREAD_TEXT: &str = "aaaaaaaa-bbbb-cccc-dddd-eeeeeeeeeeee";
const AUTHOR: &str = "00000000-0000-4000-8000-00000000000a";
const OTHER: &str = "00000000-0000-4000-8000-00000000000b";

fn text_message(n: u128, text: &str) -> Message {
    Message {
        id: format!("00000000-0000-0000-0000-{n:012x}"),
        thread_id: THREAD_TEXT.into(),
        participant_id: AUTHOR.into(),
        text: text.into(),
        status: "complete".into(),
        created_seconds: n as i64,
        created_nanos: 0,
    }
}

fn history(n: u128) -> ThreadState {
    let mut t = ThreadState::new(0);
    for k in 1..=n {
        t.upsert_message(text_message(k, &format!("m{k}")));
    }
    t
}

fn roster() -> Vec<Participant> {
    vec![
        Participant { id: AUTHOR.into(), user_id: Some("u".into()), agent_id: None, name: "a".into(), active: true },
        Participant { id: OTHER.into(), user_id: Some("v".into()), agent_id: None, name: "b".into(), active: false },
    ]
}

#[test]
fn page_sizes() {
    assert_eq!(page_size(0), 100);
    assert_eq!(page_size(7), 7);
    assert_eq!(page_size(100), 100);
    assert_eq!(page_size(5000), 100);
}

#[test]
fn pages_walk_the_history_newest_first() {
    let t = history(5);
    let first = t.page(None, 2).unwrap();
    assert_eq!(first.messages.iter().map(|m| m.text.as_str()).collect::<Vec<_>>(), vec!["m5", "m4"]);
    assert_eq!(first.next_page_token, "00000000-0000-0000-0000-000000000004");
    let second = t.page(Some(4), 2).unwrap();
    assert_eq!(second.messages.iter().map(|m| m.text.as_str()).collect::<Vec<_>>(), vec!["m3", "m2"]);
    assert_eq!(second.next_page_token, "00000000-0000-0000-0000-000000000002");
    let last = t.page(Some(2), 2).unwrap();
    assert_eq!(last.messages.iter().map(|m| m.text.as_str()).collect::<Vec<_>>(), vec!["m1"]);
    assert_eq!(last.next_page_token, "");
    let all = t.page(None, 0).unwrap();
    assert_eq!(all.messages.len(), 5);
    assert_eq!(all.next_page_token, "");
    assert!(matches!(t.page(Some(9), 2), Err(ChatError::NotFound)));
}

#[test]
fn posting_is_refused_in_order() {
    let t = history(1);
    let ps = roster();
    let id = "00000000-0000-0000-0000-0000000000ff";
    let none: Vec<String> = vec![];
    let invalid = |r: Result<Posting, ChatError>, m: &str| match r {
        Err(ChatError::Invalid(e)) => assert_eq!(e, m),
        other => panic!("{other:?}"),
    };
    invalid(t.check_post(true, &ps, "x", THREAD_TEXT, AUTHOR, "hi", 0, &none, None), "Invalid UUID");
    invalid(t.check_post(true, &ps, id, THREAD_TEXT, AUTHOR, "", 0, &none, None), "Message needs content");
    invalid(t.check_post(true, &ps, id, THREAD_TEXT, AUTHOR, "hi", 21, &none, None), "Message is too large");
    invalid(t.check_post(true, &ps, id, THREAD_TEXT, AUTHOR, &"x".repeat(1024 * 1024 + 1), 0, &none, None), "Message is too large");
    assert!(t.check_post(true, &ps, id, THREAD_TEXT, AUTHOR, &"x".repeat(1024 * 1024), 0, &none, None).is_ok());
    assert!(t.check_post(true, &ps, id, THREAD_TEXT, AUTHOR, "", 1, &none, None).is_ok());
    assert!(matches!(t.check_post(false, &ps, id, THREAD_TEXT, AUTHOR, "hi", 0, &none, None), Err(ChatError::Denied)));
    assert!(matches!(t.check_post(true, &ps, id, THREAD_TEXT, OTHER, "hi", 0, &none, None), Err(ChatError::Denied)));
    assert!(matches!(t.check_post(true, &ps, id, THREAD_TEXT, AUTHOR, "hi", 0, &vec![OTHER.to_string()], None), Err(ChatError::NotFound)));
    invalid(t.check_post(true, &ps, id, THREAD_TEXT, AUTHOR, "hi", 0, &none, Some("x")), "Invalid UUID");
    assert!(matches!(t.check_post(true, &ps, id, THREAD_TEXT, AUTHOR, "hi", 0, &none, Some(id)), Err(ChatError::NotFound)));
    match t.check_post(true, &ps, id, THREAD_TEXT, AUTHOR, "hi", 0, &vec![AUTHOR.to_string()], Some("00000000-0000-0000-0000-000000000001")) {
        Ok(Posting::New { key, thread, .. }) => {
            assert_eq!(key, 0xff);
            assert_eq!(thread, THREAD);
        }
        other => panic!("{other:?}"),
    }
}

#[test]
fn posting_again_hands_back_the_stored_message() {
    let t = history(1);
    let ps = roster();
    let id = "00000000-0000-0000-0000-000000000001";
    let none: Vec<String> = vec![];
    match t.check_post(true, &ps, id, THREAD_TEXT, AUTHOR, "m1", 0, &none, None) {
        Ok(Posting::Existing(m)) => assert_eq!(m.text, "m1"),
        other => panic!("{other:?}"),
    }
    assert!(matches!(t.check_post(true, &ps, id, THREAD_TEXT, AUTHOR, "changed", 0, &none, None), Err(ChatError::Conflict)));
}

#[test]
fn a_posted_message_is_stored_and_recorded() {
    let mut t = history(1);
    let (m, e) = t.store_posted(0x42, THREAD, 0xa, "hello", 50, 7, 60);
    assert_eq!(m.id, "00000000-0000-0000-0000-000000000042");
    assert_eq!(m.status, "complete");
    assert_eq!(t.message(0x42).unwrap().text, "hello");
    assert_eq!(e.kind, "message.created");
    assert_eq!(e.sequence, 1);
    assert_eq!(t.last_activity_at, 60);
}

#[test]
fn streaming_messages_grow_and_end() {
    let mut m = text_message(1, "ab");
    m.status = "streaming".into();
    let grown = append_delta(&m, THREAD, "cd").unwrap();
    assert_eq!(grown.text, "abcd");
    assert!(matches!(append_delta(&m, THREAD + 1, "cd"), Err(ChatError::Conflict)));
    assert!(matches!(append_delta(&m, THREAD, &"x".repeat(1024 * 1024)), Err(ChatError::Invalid(_))));
    let done = finish_message(&grown, THREAD, "complete").unwrap().unwrap();
    assert_eq!(done.status, "complete");
    assert!(finish_message(&done, THREAD, "complete").unwrap().is_none());
    assert!(matches!(finish_message(&done, THREAD, "aborted"), Err(ChatError::Conflict)));
    assert!(matches!(finish_message(&done, THREAD + 1, "complete"), Err(ChatError::Denied)));
    assert!(matches!(append_delta(&done, THREAD, "x"), Err(ChatError::Conflict)));
    assert_eq!(finish_event_kind("complete"), "message.completed");
    assert_eq!(finish_event_kind("aborted"), "message.aborted");
}
