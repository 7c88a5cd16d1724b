use tilde::assets::{
    check_dev_origin, dev_asset_url, host_page, is_safe_path, provider_page, remote_asset, remote_provider_id,
};
use tilde::error::Error;

#[test]
fn dev_origins_are_plain_http_origins() {
    assert!(check_dev_origin("http://100.64.0.5:5173").is_ok());
    assert!(check_dev_origin("https://vite.internal/").is_ok());
    let refused = "Connection UI dev origin must be an HTTP(S) origin without credentials, path, query or fragment";
    for bad in ["ftp://x", "http://u:p@x", "http://x/app", "http://x/?q=1", "http://x/#f"] {
        match check_dev_origin(bad) {
            Err(Error::Invalid(m)) => assert_eq!(m, refused),
            other => panic!("{bad}: {other:?}"),
        }
    }
    match check_dev_origin("not a url") {
        Err(Error::Invalid(m)) => assert_eq!(m, "Invalid connection UI dev origin"),
        other => panic!("{other:?}"),
    }
}

#[test]
fn asset_paths_stay_under_the_pages() {
    assert!(is_safe_path("slack/ui.html"));
    assert!(is_safe_path("a/..b/c"));
    assert!(is_safe_path("a/b.."));
    assert!(!is_safe_path("../secret"));
    assert!(!is_safe_path("a/../b"));
    assert!(!is_safe_path("a/.."));
    assert!(!is_safe_path(".."));
    assert!(!is_safe_path("a\\b"));
}

#[test]
fn provider_pages_and_host() {
    assert_eq!(provider_page("slack_v2-x").unwrap(), "slack_v2-x/ui.html");
    assert!(provider_page("../x").is_none());
    assert!(provider_page("é").is_none());
    assert!(host_page("67e55044-10b1-426f-9247-bb680e5fe0c8"));
    assert!(!host_page("setup"));
}

#[test]
fn development_and_remote_assets() {
    assert_eq!(dev_asset_url("http://vite:5173//", "app.js", None), "http://vite:5173/connections/ui/app.js");
    assert_eq!(dev_asset_url("http://vite:5173", "app.js", Some("v=2")), "http://vite:5173/connections/ui/app.js?v=2");
    let (encoded, asset) = remote_asset("remote/YWNtZQ/assets/app.js").unwrap();
    assert_eq!(encoded, "YWNtZQ");
    assert_eq!(asset, "assets/app.js");
    assert!(remote_asset("remote/YWNtZQ").is_none());
    assert!(remote_asset("local/x/y").is_none());
    assert_eq!(remote_provider_id("YWNtZQ").unwrap(), "acme");
    assert!(remote_provider_id("YWNtZQ==").is_none());
    assert!(remote_provider_id("_w").is_none());
}
