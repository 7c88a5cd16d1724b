use tilde::deployment::ingest::AccessMode;
use tilde::deployment::serving::{
    access_mode_of, check_promotion, check_read_scope, is_read, require_replica, retire_successor,
};
use tilde::error::Error;

#[test]
fn reads_come_from_the_projection() {
    for m in ["GetThread", "ListThreads", "ListMessages", "ListActivity", "GetRun"] {
        assert!(is_read(m));
    }
    assert!(!is_read("PostMessage"));
    assert!(check_read_scope(Some(1), Some(1), true).is_ok());
    assert!(check_read_scope(Some(1), None, true).is_ok());
    assert!(matches!(check_read_scope(Some(1), Some(2), true), Err(Error::Denied)));
    assert!(matches!(check_read_scope(Some(1), None, false), Err(Error::Denied)));
    assert!(check_read_scope(None, None, false).is_ok());
    assert!(matches!(check_read_scope(None, Some(1), true), Err(Error::Denied)));
    assert_eq!(require_replica(Some(4)).unwrap(), 4);
    match require_replica(None) {
        Err(Error::Invalid(m)) => assert_eq!(m, "No sidecar replica is available for this agent"),
        other => panic!("{other:?}"),
    }
}

#[test]
fn serving_follows_the_execution_mode() {
    assert!(check_promotion("sidecar", "sidecar").is_ok());
    assert!(check_promotion("gateway", "direct").is_ok());
    assert!(matches!(check_promotion("sidecar", "direct"), Err(Error::Invalid(_))));
    assert_eq!(retire_successor(Some(1), 2, None).unwrap(), None);
    assert_eq!(retire_successor(Some(1), 1, Some(3)).unwrap(), Some(3));
    match retire_successor(Some(1), 1, None) {
        Err(Error::Invalid(m)) => assert_eq!(m, "Register another deployment before retiring the serving one"),
        other => panic!("{other:?}"),
    }
    assert_eq!(access_mode_of("public"), AccessMode::Public);
    assert_eq!(access_mode_of("disabled"), AccessMode::Disabled);
    assert_eq!(access_mode_of("private"), AccessMode::Private);
    assert_eq!(access_mode_of("whatever"), AccessMode::Private);
}
