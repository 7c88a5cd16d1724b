use tilde::deployment::local_agents::LocalAgents;

const T: i64 = 1_700_000_000_000;

#[test]
fn local_agents_live_while_they_heartbeat() {
    let mut a = LocalAgents::new();
    assert!(!a.any_connected(T));
    assert_eq!(a.pick(T), None);
    a.attach(1, T + 1_000);
    a.attach(2, T + 5_000);
    assert!(a.connected(1, T + 10_999));
    assert!(!a.connected(1, T + 11_000));
    assert_eq!(a.pick(T + 6_000), Some(2));
    assert!(a.heartbeat(1, true, T + 8_000));
    assert_eq!(a.pick(T + 9_000), Some(1));
    assert!(a.heartbeat(1, false, T + 9_000));
    assert!(!a.connected(1, T + 9_000));
    assert_eq!(a.pick(T + 9_000), Some(2));
    assert!(!a.heartbeat(3, true, T + 9_000));
    a.attach(2, T + 9_500);
    assert_eq!(a.instances.len(), 2);
    a.detach(2);
    assert!(!a.connected(2, T + 9_600));
    assert_eq!(a.pick(T + 9_600), None);
    assert!(!a.any_connected(T + 9_600));
}
