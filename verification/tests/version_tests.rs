use grok_bridge::version::{
    is_outdated, latest_release_from_fields, parse_latest_release, ReleaseError, VersionChecker,
    RELEASES_LATEST_URL,
};
use serde_json::Value;

fn document(entries: &[(&str, &str)]) -> Vec<u8> {
    let mut map = serde_json::Map::new();
    for (key, value) in entries {
        map.insert((*key).to_owned(), Value::String((*value).to_owned()));
    }
    serde_json::to_vec(&Value::Object(map)).unwrap()
}

#[test]
fn parses_github_latest_release_json() {
    let body = document(&[
        ("tag_name", "v0.9.1"),
        (
            "html_url",
            "https://github.com/luodaoyi/grok-bridge-rs/releases/tag/v0.9.1",
        ),
    ]);
    let release = parse_latest_release(&body).unwrap();
    assert_eq!(release.version, "0.9.1");
    assert_eq!(
        release.release_url,
        "https://github.com/luodaoyi/grok-bridge-rs/releases/tag/v0.9.1"
    );
}

#[test]
fn rejects_invalid_github_json() {
    assert!(parse_latest_release(&document(&[])).is_err());
    assert!(parse_latest_release(&document(&[("tag_name", "")])).is_err());
}

#[test]
fn release_errors_name_what_is_wrong() {
    assert_eq!(parse_latest_release(b"not json"), Err(ReleaseError::InvalidJson));
    assert_eq!(parse_latest_release(&document(&[])), Err(ReleaseError::MissingTag));
    assert_eq!(
        parse_latest_release(&document(&[("tag_name", "v")])),
        Err(ReleaseError::EmptyTag)
    );
    let release = latest_release_from_fields(Some("v1.0.0"), Some("")).unwrap();
    assert_eq!(release.release_url, RELEASES_LATEST_URL);
}

#[test]
fn a_version_is_never_older_than_itself() {
    for version in ["0.6.2", "v1.2.3", "10.0.0", "bogus"] {
        assert!(!is_outdated(version, version));
    }
    assert!(is_outdated("0.9.9", "0.10.0"));
    assert!(!is_outdated("0.10.0", "0.9.9"));
}

#[test]
fn checker_keeps_the_last_known_release_after_a_failure() {
    let mut checker = VersionChecker::with_current("0.6.1");
    let release = latest_release_from_fields(Some("v0.7.0"), Some("https://example/r")).unwrap();
    checker.record_release(release, 50);
    checker.record_failure(90);
    let status = checker.status();
    assert!(status.update_available);
    assert_eq!(status.latest.as_deref(), Some("0.7.0"));
    assert_eq!(status.release_url, "https://example/r");
    assert_eq!(status.checked_at_ms, Some(90));
}
