use base64::Engine as _;
use grok_bridge::protocol::{decode_write_data, ProtocolError, MAX_WRITE_BYTES};
use grok_bridge::web::{
    add_http_header, applied_command_outcome, begin_http_request, connection_admitted,
    build_web_events_command_result, close_path_segment, hex_value, parse_web_events_client_command,
    percent_decode_path_segment, plan_web_events_command_outcome, sec_websocket_key_valid,
    validate_events_websocket_request, web_origin_allowed, CommandPlan, DecodeError,
    HandshakeError, HttpHeadError, ParsedHttpRequest, RequestIdWindow, WebEventsClientCommand,
    WebParseFailure, WEB_EVENTS_MAX_MESSAGE_BYTES, WEB_EVENTS_MAX_REQUEST_ID_BYTES,
    WEB_EVENTS_MAX_TRACKED_REQUEST_IDS, WEB_HTTP_MAX_HEADER_BYTES, WEB_HTTP_MAX_HEADER_COUNT,
    WEB_HTTP_MAX_HEADER_LINE_BYTES, WEB_HTTP_MAX_REQUEST_LINE_BYTES,
};

fn plan(command: &WebEventsClientCommand, seen: &mut RequestIdWindow, applied: Result<(), String>) -> grok_bridge::web::WebEventsCommandOutcome {
    match plan_web_events_command_outcome(command, seen) {
        CommandPlan::Apply => applied_command_outcome(command, applied),
        CommandPlan::Reject(outcome) => outcome,
    }
}

#[test]
fn decodes_utf8_owner_path_segments_without_form_url_rules() {
    assert_eq!(
        percent_decode_path_segment("Codex-%E5%AF%B9%E8%AF%9D%2F100%25+ready").unwrap(),
        "Codex-对话/100%+ready"
    );
    assert_eq!(percent_decode_path_segment("A%2fb").unwrap(), "A/b");
}

#[test]
fn rejects_malformed_owner_path_segments() {
    for value in ["owner%", "owner%2", "owner%GG", "%FF"] {
        assert!(percent_decode_path_segment(value).is_err(), "{value}");
    }
}

#[test]
fn percent_decoding_reports_each_kind_of_failure() {
    assert_eq!(percent_decode_path_segment("owner%2"), Err(DecodeError::IncompleteEscape));
    assert_eq!(percent_decode_path_segment("owner%GG"), Err(DecodeError::InvalidEscape));
    assert_eq!(percent_decode_path_segment("%FF"), Err(DecodeError::NotUtf8));
    assert_eq!(
        DecodeError::NotUtf8.message(),
        "owner is not valid UTF-8"
    );
    assert_eq!(percent_decode_path_segment("%41%62"), Ok("Ab".to_owned()));
}

#[test]
fn hex_digits_have_their_values() {
    assert_eq!(hex_value(b'0'), Some(0));
    assert_eq!(hex_value(b'9'), Some(9));
    assert_eq!(hex_value(b'a'), Some(10));
    assert_eq!(hex_value(b'F'), Some(15));
    assert_eq!(hex_value(b'g'), None);
}

#[test]
fn extracts_close_routes_without_overlapping_prefix_and_suffix() {
    assert_eq!(
        close_path_segment("/api/owners/Codex%20A/close", "/api/owners/").as_deref(),
        Some("Codex%20A")
    );
    assert_eq!(
        close_path_segment("/api/owners//close", "/api/owners/").as_deref(),
        Some("")
    );
    assert_eq!(close_path_segment("/api/owners/close", "/api/owners/"), None);
    assert_eq!(close_path_segment("/api/owners/a/b/close", "/api/owners/"), None);
    assert_eq!(close_path_segment("/api/sessions/close", "/api/sessions/"), None);
    assert_eq!(
        close_path_segment("/api/sessions/session-1/close", "/api/sessions/").as_deref(),
        Some("session-1")
    );
}

#[test]
fn web_origin_requires_matching_loopback_host() {
    assert!(web_origin_allowed(Some("http://127.0.0.1:47653"), Some("127.0.0.1:47653")));
    assert!(web_origin_allowed(Some("http://localhost:47653"), Some("localhost:47653")));
    assert!(!web_origin_allowed(Some("http://evil.example:47653"), Some("127.0.0.1:47653")));
    assert!(!web_origin_allowed(Some("http://127.0.0.1:47653"), Some("127.0.0.1:9")));
    assert!(!web_origin_allowed(None, Some("127.0.0.1:47653")));
    assert!(!web_origin_allowed(Some("https://127.0.0.1:47653"), Some("127.0.0.1:47653")));
}

#[test]
fn loopback_origins_are_trimmed_and_need_a_lower_case_loopback_name() {
    assert!(web_origin_allowed(Some(" http://localhost:47653 "), Some(" localhost:47653")));
    assert!(!web_origin_allowed(Some("http://LOCALHOST:47653"), Some("localhost:47653")));
    assert!(web_origin_allowed(Some("http://[::1]:47653"), Some("[::1]:47653")));
    assert!(!web_origin_allowed(Some("http://127.0.0.1:47653/path"), Some("127.0.0.1:47653")));
    assert!(!web_origin_allowed(Some("http://127.0.0.1:47653"), Some("   ")));
}

fn handshake(key: &str) -> ParsedHttpRequest {
    ParsedHttpRequest {
        method: "GET".to_owned(),
        path: "/api/events".to_owned(),
        bridge_header: false,
        host: Some("127.0.0.1:47653".to_owned()),
        origin: Some("http://127.0.0.1:47653".to_owned()),
        upgrade_websocket: true,
        connection_upgrade: true,
        sec_websocket_key: Some(key.to_owned()),
        sec_websocket_version: Some("13".to_owned()),
    }
}

#[test]
fn events_websocket_handshake_rejects_bad_origin_and_path() {
    let missing_upgrade = ParsedHttpRequest {
        upgrade_websocket: false,
        connection_upgrade: false,
        ..handshake("dGhlIHNhbXBsZSBub25jZQ==")
    };
    assert!(validate_events_websocket_request(&missing_upgrade).is_err());

    let bad_origin = ParsedHttpRequest {
        upgrade_websocket: true,
        connection_upgrade: true,
        origin: Some("http://evil.example".to_owned()),
        ..missing_upgrade.clone()
    };
    assert_eq!(
        validate_events_websocket_request(&bad_origin).unwrap_err().message(),
        "origin not allowed"
    );

    let bad_path = ParsedHttpRequest {
        path: "/api/sessions".to_owned(),
        upgrade_websocket: true,
        connection_upgrade: true,
        origin: Some("http://127.0.0.1:47653".to_owned()),
        ..missing_upgrade
    };
    assert!(validate_events_websocket_request(&bad_path).is_err());
}

#[test]
fn events_websocket_handshake_accepts_same_origin_loopback() {
    assert!(validate_events_websocket_request(&handshake("dGhlIHNhbXBsZSBub25jZQ==")).is_ok());
}

#[test]
fn handshake_checks_come_in_order() {
    let post = ParsedHttpRequest { method: "POST".to_owned(), ..handshake("YWJj") };
    assert_eq!(validate_events_websocket_request(&post), Err(HandshakeError::NotGet));
    let old = ParsedHttpRequest {
        sec_websocket_version: Some("8".to_owned()),
        ..handshake("dGhlIHNhbXBsZSBub25jZQ==")
    };
    assert_eq!(validate_events_websocket_request(&old), Err(HandshakeError::UnsupportedVersion));
    let keyless = ParsedHttpRequest { sec_websocket_key: None, ..handshake("") };
    assert_eq!(validate_events_websocket_request(&keyless), Err(HandshakeError::MissingKey));
}

#[test]
fn sec_websocket_key_must_be_rfc6455_16_byte_base64() {
    assert!(sec_websocket_key_valid("dGhlIHNhbXBsZSBub25jZQ=="));
    assert!(!sec_websocket_key_valid(""));
    assert!(!sec_websocket_key_valid("   "));
    assert!(!sec_websocket_key_valid("not-base64!!!"));
    assert!(!sec_websocket_key_valid("YWJj"));
    assert!(!sec_websocket_key_valid("AAAAAAAAAAAAAAAAAAAA"));
    assert!(!sec_websocket_key_valid("AQIDBAUGBwgJCgsMDQ4PEBE="));

    let mut request = handshake("YWJj");
    assert_eq!(
        validate_events_websocket_request(&request).unwrap_err().message(),
        "invalid Sec-WebSocket-Key"
    );
    request.sec_websocket_key = Some("dGhlIHNhbXBsZSBub25jZQ==".to_owned());
    assert!(validate_events_websocket_request(&request).is_ok());
}

#[test]
fn connection_caps_and_http_limits_are_bounded() {
    assert!(WEB_HTTP_MAX_HEADER_LINE_BYTES <= WEB_HTTP_MAX_HEADER_BYTES);
    assert!(WEB_HTTP_MAX_REQUEST_LINE_BYTES >= 256);
    assert_eq!(WEB_HTTP_MAX_HEADER_COUNT, 64);
}

#[test]
fn http_head_reads_method_path_and_known_headers() {
    let mut head = begin_http_request(b"GET /api/events HTTP/1.1".to_vec()).unwrap();
    assert_eq!(head.request.method, "GET");
    assert_eq!(head.request.path, "/api/events");
    for line in [
        &b"Host: 127.0.0.1:47653"[..],
        b"Origin:  http://127.0.0.1:47653 ",
        b"upgrade: WebSocket",
        b"Connection: keep-alive, Upgrade",
        b"Sec-WebSocket-Key: dGhlIHNhbXBsZSBub25jZQ==",
        b"Sec-WebSocket-Version: 13",
        b"X-Grok-Bridge-WebUI: 1",
        b"no colon here",
    ] {
        assert_eq!(add_http_header(&mut head, line.to_vec()), Ok(false));
    }
    assert_eq!(add_http_header(&mut head, Vec::new()), Ok(true));
    assert_eq!(head.request.host.as_deref(), Some("127.0.0.1:47653"));
    assert_eq!(head.request.origin.as_deref(), Some("http://127.0.0.1:47653"));
    assert!(head.request.upgrade_websocket);
    assert!(head.request.connection_upgrade);
    assert!(head.request.bridge_header);
    assert_eq!(head.header_count, 8);
    assert!(validate_events_websocket_request(&head.request).is_ok());
}

#[test]
fn http_request_line_needs_method_and_path() {
    assert_eq!(begin_http_request(b"   ".to_vec()).unwrap_err(), HttpHeadError::MissingMethod);
    assert_eq!(begin_http_request(b"GET".to_vec()).unwrap_err(), HttpHeadError::MissingPath);
    assert_eq!(begin_http_request(vec![0xff, b' ', b'/']).unwrap_err(), HttpHeadError::RequestLineNotUtf8);
}

#[test]
fn too_many_headers_are_rejected_with_400() {
    let mut head = begin_http_request(b"GET / HTTP/1.1".to_vec()).unwrap();
    assert_eq!(add_http_header(&mut head, b"Host: localhost".to_vec()), Ok(false));
    let mut result = Ok(false);
    for _ in 0..(WEB_HTTP_MAX_HEADER_COUNT + 1) {
        result = add_http_header(&mut head, b"X-Pad: 1".to_vec());
        if result.is_err() {
            break;
        }
    }
    let error = result.unwrap_err();
    assert_eq!(error, HttpHeadError::TooManyHeaders);
    assert!(error.message().contains("headers"));
}

#[test]
fn oversized_total_header_bytes_are_rejected_with_400() {
    let mut head = begin_http_request(b"GET / HTTP/1.1".to_vec()).unwrap();
    assert_eq!(add_http_header(&mut head, b"Host: localhost".to_vec()), Ok(false));
    let mut result = Ok(false);
    for index in 0..5 {
        let line = format!("X-Pad-{index}: {}", "x".repeat(7000));
        result = add_http_header(&mut head, line.into_bytes());
        if result.is_err() {
            break;
        }
    }
    let error = result.unwrap_err();
    assert_eq!(error, HttpHeadError::HeadersTooLarge);
    assert!(error.message().contains("size limit"));
}

#[test]
fn parse_terminal_input_and_resize_commands() {
    let input = parse_web_events_client_command(
        r#"{"type":"terminal_input","id":"r1","session":"gbt-1","data_base64":"YQ=="}"#,
    )
    .unwrap()
    .unwrap();
    assert_eq!(
        input,
        WebEventsClientCommand::TerminalInput {
            id: "r1".to_owned(),
            session: "gbt-1".to_owned(),
            data_base64: "YQ==".to_owned(),
        }
    );

    let resize = parse_web_events_client_command(
        r#"{"type":"terminal_resize","id":"r2","session":"gbt-1","cols":120,"rows":40}"#,
    )
    .unwrap()
    .unwrap();
    assert_eq!(
        resize,
        WebEventsClientCommand::TerminalResize {
            id: "r2".to_owned(),
            session: "gbt-1".to_owned(),
            cols: 120,
            rows: 40,
        }
    );

    assert!(parse_web_events_client_command(r#"{"type":"sessions","sessions":[]}"#)
        .unwrap()
        .is_none());
}

#[test]
fn parse_rejects_missing_empty_or_oversized_request_ids() {
    let missing = r#"{"type":"terminal_input","session":"gbt-1","data_base64":"YQ=="}"#;
    assert!(parse_web_events_client_command(missing).is_err());
    let empty = r#"{"type":"terminal_resize","id":"","session":"gbt-1","cols":80,"rows":24}"#;
    assert!(parse_web_events_client_command(empty).is_err());
    let numeric = r#"{"type":"terminal_input","id":7,"session":"gbt-1","data_base64":"YQ=="}"#;
    assert!(parse_web_events_client_command(numeric).is_err());
    let long_id = format!(
        r#"{{"type":"terminal_input","id":{id},"session":"gbt-1","data_base64":"YQ=="}}"#,
        id = serde_json::to_string(&"x".repeat(WEB_EVENTS_MAX_REQUEST_ID_BYTES + 1)).unwrap()
    );
    assert!(parse_web_events_client_command(&long_id).is_err());
}

#[test]
fn parse_rejects_malformed_and_oversized_input_without_command() {
    assert!(parse_web_events_client_command("not-json").is_err());
    assert!(parse_web_events_client_command(
        r#"{"type":"terminal_input","id":"r1","session":"","data_base64":"YQ=="}"#
    )
    .is_err());
    assert!(parse_web_events_client_command(r#"{"type":"terminal_input","id":"r1","session":"gbt-1"}"#).is_err());
    let cmd = parse_web_events_client_command(
        r#"{"type":"terminal_resize","id":"r1","session":"gbt-1","cols":1,"rows":40}"#,
    )
    .unwrap()
    .unwrap();
    assert_eq!(
        cmd,
        WebEventsClientCommand::TerminalResize {
            id: "r1".to_owned(),
            session: "gbt-1".to_owned(),
            cols: 1,
            rows: 40,
        }
    );
    assert!(grok_bridge::protocol::validate_terminal_size(1, 40).is_err());
}

#[test]
fn oversized_messages_and_out_of_range_sizes_are_refused() {
    let huge = format!(
        r#"{{"type":"terminal_input","id":"r1","session":"gbt-1","data_base64":"{}"}}"#,
        "A".repeat(WEB_EVENTS_MAX_MESSAGE_BYTES)
    );
    let error = parse_web_events_client_command(&huge).unwrap_err();
    assert_eq!(error.failure, WebParseFailure::TooLarge);
    assert_eq!(error.message, "message exceeds size limit");
    let wide = r#"{"type":"terminal_resize","id":"r1","session":"gbt-1","cols":70000,"rows":40}"#;
    let error = parse_web_events_client_command(wide).unwrap_err();
    assert_eq!(error.failure, WebParseFailure::ColsOutOfRange);
    assert_eq!(error.result_type, "resize_result");
    let invalid = parse_web_events_client_command("{").unwrap_err();
    assert_eq!(invalid.failure, WebParseFailure::InvalidJson);
    assert!(invalid.message.starts_with("invalid JSON: "));
}

#[test]
fn command_result_json_is_not_sessions_type() {
    let payload = build_web_events_command_result("input_result", Some("r1"), Some("gbt-1"), false, Some("nope"), false);
    let value: serde_json::Value = serde_json::from_str(&payload).unwrap();
    assert_eq!(value["type"], "input_result");
    assert_eq!(value["ok"], false);
    assert_eq!(value["id"], "r1");
    assert_eq!(value["session"], "gbt-1");
    assert_eq!(value["error"], "nope");
    assert!(value.get("reconnect").is_none());
    assert!(value.get("sessions").is_none());
    assert!(value.get("terminals").is_none());

    let rotate = build_web_events_command_result(
        "input_result",
        Some("r2"),
        Some("gbt-1"),
        false,
        Some("request id window exhausted; reconnect required"),
        true,
    );
    let rotate: serde_json::Value = serde_json::from_str(&rotate).unwrap();
    assert_eq!(rotate["reconnect"], true);
}

#[test]
fn web_events_command_plan_rejects_duplicate_ids_and_acks_input_success() {
    let command = WebEventsClientCommand::TerminalInput {
        id: "k1".to_owned(),
        session: "missing-session".to_owned(),
        data_base64: "YQ==".to_owned(),
    };
    let mut seen = RequestIdWindow::new();
    let outcome = plan(&command, &mut seen, Err("session not found: missing-session".to_owned()));
    assert_eq!(outcome.result_type, "input_result");
    assert_eq!(outcome.id.as_deref(), Some("k1"));
    assert!(!outcome.ok);
    assert!(outcome.error.is_some());

    let duplicate = plan(&command, &mut seen, Ok(()));
    assert_eq!(duplicate.id.as_deref(), Some("k1"));
    assert!(!duplicate.ok);
    assert!(duplicate.error.as_deref().is_some_and(|error| error.contains("duplicate request id")));

    let other = WebEventsClientCommand::TerminalInput {
        id: "k2".to_owned(),
        session: "missing-session".to_owned(),
        data_base64: "YQ==".to_owned(),
    };
    let second = plan(&other, &mut seen, Err("session not found: missing-session".to_owned()));
    assert_eq!(second.id.as_deref(), Some("k2"));
    assert!(!second.ok);

    let resize = WebEventsClientCommand::TerminalResize {
        id: "k3".to_owned(),
        session: "missing-session".to_owned(),
        cols: 80,
        rows: 24,
    };
    let resize_outcome = plan(&resize, &mut seen, Err("session not found: missing-session".to_owned()));
    assert_eq!(resize_outcome.result_type, "resize_result");
    assert_eq!(resize_outcome.id.as_deref(), Some("k3"));
    assert!(!resize_outcome.ok);

    let fresh = WebEventsClientCommand::TerminalInput {
        id: "k4".to_owned(),
        session: "gbt-1".to_owned(),
        data_base64: "YQ==".to_owned(),
    };
    let acked = plan(&fresh, &mut seen, Ok(()));
    assert!(acked.ok);
    assert_eq!(acked.error, None);
    assert_eq!(acked.session.as_deref(), Some("gbt-1"));
}

#[test]
fn request_id_window_rotates_connection_when_full_without_evicting_old_ids() {
    let mut seen = RequestIdWindow::new();
    for index in 0..WEB_EVENTS_MAX_TRACKED_REQUEST_IDS {
        let command = WebEventsClientCommand::TerminalInput {
            id: format!("bulk-{index}"),
            session: "missing-session".to_owned(),
            data_base64: "YQ==".to_owned(),
        };
        let outcome = plan(&command, &mut seen, Err("session not found".to_owned()));
        assert!(!outcome.error.as_deref().is_some_and(|error| error.contains("duplicate request id")));
    }
    assert_eq!(seen.len(), WEB_EVENTS_MAX_TRACKED_REQUEST_IDS);

    let extra = WebEventsClientCommand::TerminalInput {
        id: "bulk-overflow".to_owned(),
        session: "missing-session".to_owned(),
        data_base64: "YQ==".to_owned(),
    };
    let overflow = plan(&extra, &mut seen, Ok(()));
    assert!(!overflow.ok);
    assert_eq!(overflow.error.as_deref(), Some("request id window exhausted; reconnect required"));
    assert!(overflow.reconnect);
    assert_eq!(seen.len(), WEB_EVENTS_MAX_TRACKED_REQUEST_IDS);

    let replay = WebEventsClientCommand::TerminalInput {
        id: "bulk-0".to_owned(),
        session: "missing-session".to_owned(),
        data_base64: "YQ==".to_owned(),
    };
    let replay_outcome = plan(&replay, &mut seen, Ok(()));
    assert!(!replay_outcome.ok);
    assert_eq!(replay_outcome.error.as_deref(), Some("duplicate request id"));
}

#[test]
fn parse_rejects_invalid_session_handles_before_host_touch() {
    let long = "x".repeat(200);
    let bad_cases = ["", "has space", "bad/id", long.as_str(), "ctrl\n", "unicode-\u{4e2d}"];
    for bad in bad_cases {
        let payload = format!(
            r#"{{"type":"terminal_input","id":"r1","session":{session},"data_base64":"YQ=="}}"#,
            session = serde_json::to_string(bad).unwrap()
        );
        let err = parse_web_events_client_command(&payload).unwrap_err();
        assert!(
            err.message.contains("session handle") || err.message.contains("session"),
            "bad={bad:?} err={:?}",
            err.message
        );
        let resize = format!(
            r#"{{"type":"terminal_resize","id":"r1","session":{session},"cols":80,"rows":24}}"#,
            session = serde_json::to_string(bad).unwrap()
        );
        assert!(parse_web_events_client_command(&resize).is_err());
    }
    assert!(parse_web_events_client_command(
        r#"{"type":"terminal_input","id":"r1","session":"gbt-1","data_base64":"YQ=="}"#
    )
    .unwrap()
    .is_some());
}

#[test]
fn parse_errors_keep_recognized_id_session_and_result_type() {
    let err = parse_web_events_client_command(r#"{"type":"terminal_input","id":"r1","session":"gbt-1"}"#).unwrap_err();
    assert_eq!(err.id.as_deref(), Some("r1"));
    assert_eq!(err.session.as_deref(), Some("gbt-1"));
    assert_eq!(err.result_type, "input_result");
    assert!(err.message.contains("data_base64"));

    let err = parse_web_events_client_command(
        r#"{"type":"terminal_input","id":"r2","session":"bad id","data_base64":"YQ=="}"#,
    )
    .unwrap_err();
    assert_eq!(err.id.as_deref(), Some("r2"));
    assert_eq!(err.result_type, "input_result");
    assert_eq!(err.session.as_deref(), Some("bad id"));

    let err = parse_web_events_client_command(r#"{"type":"terminal_resize","id":"r3","session":"gbt-1"}"#).unwrap_err();
    assert_eq!(err.id.as_deref(), Some("r3"));
    assert_eq!(err.result_type, "resize_result");
    assert!(err.message.contains("cols"));

    let err = parse_web_events_client_command(r#"{"type":"terminal_input","session":"gbt-1","data_base64":"YQ=="}"#).unwrap_err();
    assert_eq!(err.id, None);
    assert_eq!(err.session.as_deref(), Some("gbt-1"));
    assert_eq!(err.result_type, "input_result");
}

#[test]
fn generic_parse_errors_stay_id_less_with_input_result_type() {
    for payload in ["not-json", r#"[]"#, r#""plain string""#] {
        let err = parse_web_events_client_command(payload).unwrap_err();
        assert_eq!(err.id, None);
        assert_eq!(err.result_type, "input_result");
    }
    assert!(parse_web_events_client_command(r#"{"type":7}"#).unwrap().is_none());
    let err = parse_web_events_client_command(
        r#"{"type":"terminal_input","id":7,"session":"gbt-1","data_base64":"YQ=="}"#,
    )
    .unwrap_err();
    assert_eq!(err.id, None);
    assert_eq!(err.result_type, "input_result");
}

#[test]
fn apply_terminal_input_uses_decode_write_data_and_rejects_unknown_session() {
    assert_eq!(decode_write_data("QQ=="), Ok(vec![0x41]));
    assert!(parse_web_events_client_command(
        r#"{"type":"terminal_input","id":"r1","session":"s","data_base64":""}"#
    )
    .is_err());
    let oversize = base64::engine::general_purpose::STANDARD.encode(vec![0x5a; MAX_WRITE_BYTES + 1]);
    assert_eq!(decode_write_data(&oversize), Err(ProtocolError::WriteDataTooLarge));
    assert_eq!(decode_write_data(""), Err(ProtocolError::EmptyWriteData));
}

#[test]
fn header_line_endings_count_toward_the_header_byte_cap() {
    let mut head = begin_http_request(b"GET / HTTP/1.1".to_vec()).unwrap();
    let line = |index: usize| {
        let mut text = format!("X-Pad-{index}: ");
        text.push_str(&"x".repeat(8191 - text.len()));
        text.into_bytes()
    };
    for index in 0..3 {
        assert_eq!(add_http_header(&mut head, line(index)), Ok(false));
    }
    // 4 * 8191 bytes of names and values fit 32768 only without their CRLFs.
    assert_eq!(add_http_header(&mut head, line(3)), Err(HttpHeadError::HeadersTooLarge));
}

#[test]
fn connection_admission_is_bounded_and_releases_slots() {
    let mut active = 0;
    for _ in 0..3 {
        assert!(connection_admitted(active, 3));
        active += 1;
    }
    assert!(!connection_admitted(active, 3));
    active -= 1;
    assert!(connection_admitted(active, 3));
    assert_eq!(grok_bridge::web::WEB_MAX_ACTIVE_CONNECTIONS, 64);
    assert_eq!(grok_bridge::web::IPC_MAX_ACTIVE_CONNECTIONS, 64);
}

fn member(key: &str, value: grok_bridge::json::Json) -> grok_bridge::json::Member {
    grok_bridge::json::Member { key: key.to_owned(), value }
}

fn text(value: &str) -> grok_bridge::json::Json {
    grok_bridge::json::Json::Str(value.to_owned())
}

#[test]
fn parsed_client_messages_become_commands() {
    let input = grok_bridge::json::Json::Object(vec![
        member("type", text("terminal_input")),
        member("id", text("r1")),
        member("session", text("gbt-1")),
        member("data_base64", text("YQ==")),
    ]);
    assert_eq!(
        grok_bridge::web::web_events_command_from_document(&input).unwrap(),
        Some(WebEventsClientCommand::TerminalInput {
            id: "r1".to_owned(),
            session: "gbt-1".to_owned(),
            data_base64: "YQ==".to_owned(),
        })
    );
    let resize = grok_bridge::json::Json::Object(vec![
        member("type", text("terminal_resize")),
        member("id", text("r2")),
        member("session", text("gbt-1")),
        member("cols", grok_bridge::json::Json::Number("120".to_owned(), Some(120))),
        member("rows", grok_bridge::json::Json::Number("40".to_owned(), Some(40))),
    ]);
    assert_eq!(
        grok_bridge::web::web_events_command_from_document(&resize).unwrap(),
        Some(WebEventsClientCommand::TerminalResize {
            id: "r2".to_owned(),
            session: "gbt-1".to_owned(),
            cols: 120,
            rows: 40,
        })
    );
    let unknown = grok_bridge::json::Json::Object(vec![member("type", text("ping")), member("id", text("r3"))]);
    assert_eq!(grok_bridge::web::web_events_command_from_document(&unknown).unwrap(), None);
    let error = grok_bridge::web::web_events_command_from_document(&grok_bridge::json::Json::Array(Vec::new())).unwrap_err();
    assert_eq!(error.failure, WebParseFailure::NotObject);
}
