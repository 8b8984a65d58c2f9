use batch_downloader::access::auth;

#[test]
fn request_without_or_with_wrong_secret_is_refused() {
    let key = "SECRET-REDACTED".to_string();
    assert!(!auth(None, &key));
    assert!(!auth(Some("wrong"), &key));
    assert!(!auth(Some(""), &key));
    assert!(auth(Some("SECRET-REDACTED"), &key));
}
