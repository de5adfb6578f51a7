use grok_bridge::protocol::{Request, WaitCondition};
use grok_bridge::transport::{client_session_id_from, response_deadline_ms, IPC_RESPONSE_SLACK_MS};

#[test]
fn response_deadline_accommodates_documented_long_waits() {
    let wait = Request::Wait {
        session: "s".to_owned(),
        for_condition: WaitCondition::TuiIdle,
        timeout_ms: Some(7_200_000),
    };
    assert!(response_deadline_ms(&wait) >= 7_200_000 + IPC_RESPONSE_SLACK_MS);

    let read = Request::Read {
        session: "s".to_owned(),
        cursor: Some(0),
        limit: Some(1024),
        wait_ms: Some(300_000),
    };
    assert!(response_deadline_ms(&read) >= 300_000 + IPC_RESPONSE_SLACK_MS);

    let status = Request::ServerStatus;
    assert_eq!(response_deadline_ms(&status), IPC_RESPONSE_SLACK_MS);
    assert!(response_deadline_ms(&status) < 120_000);
}

#[test]
fn codex_thread_identity_precedes_the_legacy_session_identity() {
    assert_eq!(
        client_session_id_from(Some("thread-42".to_owned()), Some("session-7".to_owned()))
            .unwrap()
            .as_deref(),
        Some("thread-42")
    );
    assert_eq!(
        client_session_id_from(None, Some("session-7".to_owned()))
            .unwrap()
            .as_deref(),
        Some("session-7")
    );
    assert_eq!(client_session_id_from(None, None).unwrap(), None);
    assert!(client_session_id_from(Some("bad\nidentity".to_owned()), None).is_err());
}

#[test]
fn deadlines_clamp_long_waits_and_default_missing_timeouts() {
    let wait = Request::Wait {
        session: "s".to_owned(),
        for_condition: WaitCondition::Exit,
        timeout_ms: None,
    };
    assert_eq!(response_deadline_ms(&wait), 300_000 + 60_000);
    let long = Request::Wait {
        session: "s".to_owned(),
        for_condition: WaitCondition::Exit,
        timeout_ms: Some(u64::MAX),
    };
    assert_eq!(response_deadline_ms(&long), 7_200_000 + 60_000);
    let read = Request::Read {
        session: "s".to_owned(),
        cursor: None,
        limit: None,
        wait_ms: Some(10_000_000),
    };
    assert_eq!(response_deadline_ms(&read), 360_000);
}

#[test]
fn blank_thread_identity_falls_back_to_the_session_identity() {
    assert_eq!(
        client_session_id_from(Some("  ".to_owned()), Some("session-7".to_owned()))
            .unwrap()
            .as_deref(),
        Some("session-7")
    );
}
