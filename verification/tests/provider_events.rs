use tilde::deployment::provider_events::{
    incoming_kind, membership_event_kind, message_format, wire_kind, IncomingKind, ProviderEventKind,
};
use tilde::deployment::store::{Message, ThreadState};
use tilde::deployment::wire::ChatError;
use tilde::error::Error;

#[test]
fn event_kinds_survive_the_wire() {
    for kind in [
        IncomingKind::Message,
        IncomingKind::Updated,
        IncomingKind::Deleted,
        IncomingKind::Typing(true),
        IncomingKind::Typing(false),
        IncomingKind::Membership(true),
        IncomingKind::Membership(false),
    ] {
        let (wire, active) = wire_kind(kind);
        assert_eq!(incoming_kind(wire, active).unwrap(), kind);
    }
    assert_eq!(wire_kind(IncomingKind::Message), (ProviderEventKind::Message, false));
    assert_eq!(wire_kind(IncomingKind::Typing(true)), (ProviderEventKind::Typing, true));
    match incoming_kind(ProviderEventKind::Unspecified, false) {
        Err(Error::Invalid(m)) => assert_eq!(m, "Invalid provider event kind"),
        other => panic!("{other:?}"),
    }
}

#[test]
fn provider_message_formats() {
    for f in ["text", "html", "markdown", "slack_mrkdwn", "whatsapp"] {
        assert_eq!(message_format(f).unwrap(), f);
    }
    match message_format("rtf") {
        Err(Error::Invalid(m)) => assert_eq!(m, "Invalid provider message format"),
        other => panic!("{other:?}"),
    }
    assert_eq!(membership_event_kind(true), "participant.joined");
    assert_eq!(membership_event_kind(false), "participant.left");
}

#[test]
fn provider_edits_and_removals() {
    let mut t = ThreadState::new(0);
    t.upsert_message(Message {
        id: "00000000-0000-0000-0000-000000000005".into(),
        thread_id: "t".into(),
        participant_id: "p".into(),
        text: "first".into(),
        status: "complete".into(),
        created_seconds: 3,
        created_nanos: 0,
    });
    let edited = t.edit_message(5, "second", false).unwrap();
    assert_eq!(edited.text, "second");
    assert_eq!(t.message(5).unwrap().text, "second");
    let removed = t.edit_message(5, "", true).unwrap();
    assert_eq!(removed.status, "deleted");
    assert_eq!(t.messages.len(), 1);
    assert!(matches!(t.edit_message(6, "x", false), Err(ChatError::NotFound)));
}
