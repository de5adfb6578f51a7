use base64::Engine;
use grok_bridge::protocol::{
    decode_write_data, frame_json, single_frame_payload, validate_request_envelope,
    validate_response_envelope, ClientLeaseState, HookActivity, HookEvent, HookEventKind,
    ProtocolError, ReadResult, Request, RequestEnvelope, ResponseEnvelope, ResponseResult,
    SessionPhase, SessionState, WaitCondition, WaitResult, MAX_FRAME_BYTES, MAX_HOOK_CWD_BYTES,
    MAX_HOOK_MESSAGE_BYTES, MAX_HOOK_SHORT_TEXT_BYTES, MAX_OWNER_BYTES, MAX_WRITE_BYTES,
};

fn base64(bytes: &[u8]) -> String {
    base64::engine::general_purpose::STANDARD.encode(bytes)
}

fn hook_event(kind: HookEventKind) -> HookEvent {
    HookEvent {
        kind,
        cwd: None,
        tool_name: None,
        message: None,
        notification_type: None,
        level: None,
    }
}

fn hook_request(provider_session_id: &str, event: HookEvent) -> RequestEnvelope {
    RequestEnvelope {
        id: "request-hook".to_owned(),
        request: Request::HookEvent {
            provider_session_id: provider_session_id.to_owned(),
            event,
        },
    }
}

fn valid_provider_session_id() -> &'static str {
    "01234567-89ab-4def-8123-456789abcdef"
}

#[test]
fn rejects_oversized_frame() {
    let frame = vec![b'x'; MAX_FRAME_BYTES + 1];
    assert_eq!(single_frame_payload(&frame), Err(ProtocolError::FrameTooLarge));
    let json = serde_json::to_vec(&"x".repeat(MAX_FRAME_BYTES)).unwrap();
    assert!(frame_json(json).is_err());
}

#[test]
fn frames_end_with_one_newline() {
    let framed = frame_json(br#"{"id":"r1"}"#.to_vec()).unwrap();
    assert_eq!(framed, b"{\"id\":\"r1\"}\n".to_vec());
    assert_eq!(single_frame_payload(&framed).unwrap(), &br#"{"id":"r1"}"#[..]);
    assert_eq!(single_frame_payload(b"\n"), Err(ProtocolError::EmptyFrame));
}

#[test]
fn validates_optional_session_owner() {
    let request = |owner: Option<String>| RequestEnvelope {
        id: "request-1".to_owned(),
        request: Request::Create {
            cwd: ".".to_owned(),
            prompt: None,
            model: None,
            owner,
            always_approve: false,
        },
    };
    for owner in [None, Some("codex-thread-42".to_owned()), Some("人工会话".to_owned())] {
        assert!(validate_request_envelope(&request(owner)).is_ok());
    }
    for owner in [Some(" ".to_owned()), Some("bad\nowner".to_owned())] {
        assert!(validate_request_envelope(&request(owner)).is_err());
    }
    let oversized = request(Some("x".repeat(MAX_OWNER_BYTES + 1)));
    assert!(validate_request_envelope(&oversized).is_err());
}

#[test]
fn validates_provider_session_id_as_canonical_uuid() {
    for provider_session_id in [valid_provider_session_id(), "01234567-89AB-4DEF-8123-456789ABCDEF"] {
        let request = hook_request(provider_session_id, hook_event(HookEventKind::SessionStart));
        assert!(validate_request_envelope(&request).is_ok());
    }
    for provider_session_id in [
        "0123456789ab-4def-8123-456789abcdef",
        "01234567-89ab4-def-8123-456789abcdef",
        "01234567-89ab-4def-8123-456789abcdeg",
        "{01234567-89ab-4def-8123-456789abcdef}",
        "01234567-89ab-4def-8123-456789abcde",
    ] {
        let request = hook_request(provider_session_id, hook_event(HookEventKind::SessionStart));
        assert!(validate_request_envelope(&request).is_err());
    }
}

#[test]
fn validates_hook_event_field_limits() {
    let maximum = HookEvent {
        kind: HookEventKind::PreToolUse,
        cwd: Some("c".repeat(MAX_HOOK_CWD_BYTES)),
        tool_name: Some("t".repeat(MAX_HOOK_SHORT_TEXT_BYTES)),
        message: Some("m".repeat(MAX_HOOK_MESSAGE_BYTES)),
        notification_type: Some("n".repeat(MAX_HOOK_SHORT_TEXT_BYTES)),
        level: Some("l".repeat(MAX_HOOK_SHORT_TEXT_BYTES)),
    };
    assert!(validate_request_envelope(&hook_request(valid_provider_session_id(), maximum)).is_ok());

    let oversized = [
        HookEvent { cwd: Some("c".repeat(MAX_HOOK_CWD_BYTES + 1)), ..hook_event(HookEventKind::SessionStart) },
        HookEvent { tool_name: Some("t".repeat(MAX_HOOK_SHORT_TEXT_BYTES + 1)), ..hook_event(HookEventKind::PreToolUse) },
        HookEvent { message: Some("m".repeat(MAX_HOOK_MESSAGE_BYTES + 1)), ..hook_event(HookEventKind::Notification) },
        HookEvent { notification_type: Some("n".repeat(MAX_HOOK_SHORT_TEXT_BYTES + 1)), ..hook_event(HookEventKind::Notification) },
        HookEvent { level: Some("l".repeat(MAX_HOOK_SHORT_TEXT_BYTES + 1)), ..hook_event(HookEventKind::Notification) },
    ];
    for event in oversized {
        assert!(validate_request_envelope(&hook_request(valid_provider_session_id(), event)).is_err());
    }
}

#[test]
fn rejects_forbidden_hook_event_characters() {
    let invalid = [
        HookEvent { cwd: Some("bad\0cwd".to_owned()), ..hook_event(HookEventKind::SessionStart) },
        HookEvent { tool_name: Some("bad\rtool".to_owned()), ..hook_event(HookEventKind::PreToolUse) },
        HookEvent { message: Some("bad\u{7f}message".to_owned()), ..hook_event(HookEventKind::Notification) },
        HookEvent { notification_type: Some("bad\tnotification".to_owned()), ..hook_event(HookEventKind::Notification) },
        HookEvent { level: Some("bad\nlevel".to_owned()), ..hook_event(HookEventKind::Notification) },
    ];
    for event in invalid {
        assert!(validate_request_envelope(&hook_request(valid_provider_session_id(), event)).is_err());
    }
}

#[test]
fn validates_raw_terminal_writes() {
    let request = |data_base64: String| RequestEnvelope {
        id: "request-1".to_owned(),
        request: Request::Write { session: "session-1".to_owned(), data_base64 },
    };
    assert!(validate_request_envelope(&request(base64(&vec![0x5a; MAX_WRITE_BYTES]))).is_ok());
    assert!(validate_request_envelope(&request(String::new())).is_err());
    assert!(validate_request_envelope(&request(base64(&vec![0x5a; MAX_WRITE_BYTES + 1]))).is_err());
    assert!(validate_request_envelope(&request("not-base64!".to_owned())).is_err());
}

#[test]
fn write_data_decodes_base64_bytes() {
    assert_eq!(decode_write_data("YWJj").unwrap(), b"abc".to_vec());
    assert_eq!(decode_write_data(""), Err(ProtocolError::EmptyWriteData));
    assert_eq!(decode_write_data(&base64(&vec![1; MAX_WRITE_BYTES + 1])), Err(ProtocolError::WriteDataTooLarge));
}

#[test]
fn validates_terminal_resize_bounds() {
    let request = |cols, rows| RequestEnvelope {
        id: "request-1".to_owned(),
        request: Request::Resize { session: "session-1".to_owned(), cols, rows },
    };
    for (cols, rows) in [(20, 5), (500, 200), (120, 36)] {
        assert!(validate_request_envelope(&request(cols, rows)).is_ok());
    }
    for (cols, rows) in [(19, 36), (501, 36), (120, 4), (120, 201)] {
        assert!(validate_request_envelope(&request(cols, rows)).is_err());
    }
}

#[test]
fn response_round_trip_validates_session_and_read_cursor() {
    let response = ResponseEnvelope::success(
        "request-1",
        ResponseResult::Read(ReadResult {
            session: "session-1".to_owned(),
            cursor: 10,
            next_cursor: 13,
            data_base64: base64(b"abc"),
            plain_text: Some("abc".to_owned()),
            screen: Some("screen snapshot".to_owned()),
            truncated: false,
            eof: false,
        }),
    );
    assert!(validate_response_envelope(&response).is_ok());
}

#[test]
fn read_cursor_is_a_byte_offset() {
    for next_cursor in [9, 10, 15] {
        let response = ResponseEnvelope::success(
            "request-1",
            ResponseResult::Read(ReadResult {
                session: "session-1".to_owned(),
                cursor: 10,
                next_cursor,
                data_base64: base64(b"data"),
                plain_text: None,
                screen: None,
                truncated: false,
                eof: false,
            }),
        );
        assert!(validate_response_envelope(&response).is_err());
    }
}

#[test]
fn rejects_inconsistent_response_envelopes() {
    let missing_result = ResponseEnvelope { id: "r1".to_owned(), ok: true, result: None, error: None };
    assert!(validate_response_envelope(&missing_result).is_err());

    let both = ResponseEnvelope {
        id: "r1".to_owned(),
        ok: false,
        result: Some(ResponseResult::Accepted { accepted: true }),
        error: Some(grok_bridge::protocol::ResponseError { code: "failed".to_owned(), message: "no".to_owned() }),
    };
    assert!(validate_response_envelope(&both).is_err());

    let empty_error = ResponseEnvelope::failure("r1", "failed", " ");
    assert!(validate_response_envelope(&empty_error).is_err());
}

fn session_state() -> SessionState {
    SessionState {
        session: "session-1".to_owned(),
        owner: Some("codex-thread-42".to_owned()),
        client_session_id: None,
        client_state: ClientLeaseState::Unmanaged,
        client_lease_ms: None,
        orphan_grace_ms: None,
        client_last_seen_at_ms: None,
        orphaned_at_ms: None,
        auto_close_at_ms: None,
        phase: SessionPhase::Running,
        title: Some("Grok".to_owned()),
        cwd: ".".to_owned(),
        model: None,
        always_approve: false,
        process_id: Some(42),
        screen: Some("screen".to_owned()),
        rows: 36,
        cols: 120,
        screen_ansi_base64: base64(b"screen"),
        last_cursor: 12,
        last_output_at_ms: Some(15),
        created_at_ms: 20,
        updated_at_ms: 10,
        exit_code: None,
        error: None,
        activity: HookActivity::Waiting,
        hook_event: Some(HookEventKind::PreToolUse),
        hook_at_ms: Some(10),
        tool_name: Some("ask_user_question".to_owned()),
        waiting_reason: Some("Waiting for an answer".to_owned()),
    }
}

#[test]
fn validates_session_timestamps_and_wait_state() {
    let invalid_session = ResponseEnvelope::success("r1", ResponseResult::Session(session_state()));
    assert!(validate_response_envelope(&invalid_session).is_err());

    let invalid_wait = ResponseEnvelope::success(
        "r2",
        ResponseResult::Wait(WaitResult {
            session: "session-1".to_owned(),
            condition: WaitCondition::TuiIdle,
            satisfied: true,
            timed_out: true,
            phase: SessionPhase::Idle,
            exit_code: None,
            blocked_reason: None,
        }),
    );
    assert!(validate_response_envelope(&invalid_wait).is_err());
}

#[test]
fn ordered_session_timestamps_are_accepted() {
    let mut state = session_state();
    state.created_at_ms = 5;
    state.updated_at_ms = 20;
    state.hook_at_ms = Some(10);
    state.last_output_at_ms = Some(15);
    let response = ResponseEnvelope::success("r1", ResponseResult::Session(state));
    assert_eq!(validate_response_envelope(&response), Ok(()));
}
