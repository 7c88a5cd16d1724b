use tilde::deployment::ingress::{
    challenge_accepted, hand_off_target, held_route, ingress_route, is_listing, service_path, HeldRoute,
    IngressRoute,
};
use tilde::deployment::wire::ChatError;

#[test]
fn listings_go_to_the_projection() {
    assert!(is_listing("ListThreads", false));
    assert!(is_listing("ListMessages", true));
    assert!(!is_listing("ListMessages", false));
    assert!(!is_listing("PostMessage", true));
}

#[test]
fn ingress_calls_route_by_conversation_and_scope() {
    assert!(matches!(ingress_route(false, Err(ChatError::NotFound), None), Ok(IngressRoute::Gateway)));
    assert!(matches!(ingress_route(true, Ok(Some(7)), None), Ok(IngressRoute::Gateway)));
    assert!(matches!(ingress_route(false, Err(ChatError::Transport), None), Err(ChatError::Transport)));
    assert!(matches!(ingress_route(false, Ok(Some(7)), Some(7)), Ok(IngressRoute::Conversation(7))));
    assert!(matches!(ingress_route(false, Ok(Some(7)), None), Ok(IngressRoute::Conversation(7))));
    match ingress_route(false, Ok(Some(7)), Some(8)) {
        Ok(IngressRoute::Refused(m)) => assert_eq!(m, "Credential is scoped to another conversation"),
        other => panic!("{other:?}"),
    }
    match ingress_route(false, Ok(None), Some(8)) {
        Ok(IngressRoute::Refused(m)) => assert_eq!(m, "Credential requires a conversation-scoped operation"),
        other => panic!("{other:?}"),
    }
    assert!(matches!(ingress_route(false, Ok(None), None), Ok(IngressRoute::Local)));
}

#[test]
fn calls_go_to_the_replica_that_holds_the_conversation() {
    assert!(matches!(held_route(5, Ok(true), None), Ok(HeldRoute::Here)));
    match held_route(5, Err(ChatError::Denied), Some("http://peer".into())) {
        Ok(HeldRoute::HandOff(u)) => assert_eq!(u, "http://peer"),
        other => panic!("{other:?}"),
    }
    assert!(matches!(held_route(5, Ok(false), None), Ok(HeldRoute::Gateway(5))));
    assert!(matches!(held_route(5, Err(ChatError::NotFound), None), Ok(HeldRoute::Gateway(5))));
    assert!(matches!(held_route(5, Err(ChatError::Transport), None), Err(ChatError::Transport)));
}

#[test]
fn hand_off_addresses() {
    assert_eq!(service_path("/tilde.ingress.v1.ChatService/PostMessage"), "tilde.ingress.v1.ChatService/PostMessage");
    assert_eq!(service_path("/x/y/GetThread"), "tilde.ingress.v1.ChatService/GetThread");
    assert_eq!(service_path("nopath"), "");
    assert_eq!(
        hand_off_target("http://peer:8080//", 0x67e5504410b1426f9247bb680e5fe0c8, "tilde.ingress.v1.ChatService/PostMessage"),
        "http://peer:8080/agents/67e55044-10b1-426f-9247-bb680e5fe0c8/tilde.ingress.v1.ChatService/PostMessage"
    );
}

#[test]
fn only_whatsapp_subscriptions_are_answered() {
    assert!(challenge_accepted("whatsapp", "subscribe", Some("tok"), "tok"));
    assert!(!challenge_accepted("whatsapp", "subscribe", Some("tok"), "other"));
    assert!(!challenge_accepted("whatsapp", "subscribe", None, "tok"));
    assert!(!challenge_accepted("whatsapp", "unsubscribe", Some("tok"), "tok"));
    assert!(!challenge_accepted("slack", "subscribe", Some("tok"), "tok"));
}
