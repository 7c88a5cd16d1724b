use tilde::deployment::attachments::{check_same_upload, check_upload, fits_pending};
use tilde::deployment::wire::ChatError;

#[test]
fn uploads_are_bounded_and_named() {
    assert!(check_upload(b"hello", "a.txt", "text/plain").is_ok());
    for (name, media) in [("   ", "text/plain"), ("", "text/plain")] {
        match check_upload(b"x", name, media) {
            Err(ChatError::Invalid(m)) => assert_eq!(m, "Invalid attachment or exceeds 128 MiB"),
            other => panic!("{other:?}"),
        }
    }
    assert!(check_upload(b"x", &"n".repeat(1025), "t").is_err());
    assert!(check_upload(b"x", &"n".repeat(1024), "t").is_ok());
    assert!(check_upload(b"x", "a", &"t".repeat(256)).is_err());
    assert!(check_same_upload("h", "a", "t", "h", "a", "t").is_ok());
    assert!(matches!(check_same_upload("h", "a", "t", "g", "a", "t"), Err(ChatError::Conflict)));
    assert!(matches!(check_same_upload("h", "a", "t", "h", "b", "t"), Err(ChatError::Conflict)));
}

#[test]
fn pending_bytes_stay_under_the_limit() {
    let limit = 256 * 1024 * 1024;
    assert!(fits_pending(&vec![], limit));
    assert!(!fits_pending(&vec![], limit + 1));
    assert!(fits_pending(&vec![limit - 10], 10));
    assert!(!fits_pending(&vec![limit - 10, 5], 6));
    assert!(!fits_pending(&vec![usize::MAX, 1], 0));
}
