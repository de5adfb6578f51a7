use grok_bridge::hook_config::{
    install_config, status_config, uninstall_config, HookConfigError, MANAGED_ENV_NAME,
    MANAGED_ENV_VALUE, PROTOCOL_ENV_NAME, PROTOCOL_ENV_VALUE,
};
use grok_bridge::hooks::{
    hook_command, hook_events, hook_file_path_from, parse_event, parse_event_kind, sanitize_text,
    LimitedInput, MAX_STDIN_BYTES,
};
use grok_bridge::protocol::HookEventKind;
use serde_json::Value;

const UUID: &str = "019e37f4-5135-7b63-a4ab-6d13aa6bf528";

fn object(entries: Vec<(&str, Value)>) -> Value {
    let mut map = serde_json::Map::new();
    for (key, value) in entries {
        map.insert(key.to_owned(), value);
    }
    Value::Object(map)
}

fn text(value: &str) -> Value {
    Value::String(value.to_owned())
}

fn bytes_of(value: &Value) -> Vec<u8> {
    serde_json::to_vec(value).unwrap()
}

fn handler(command: &str, env: Option<Value>) -> Value {
    let mut entries = vec![("type", text("command")), ("command", text(command))];
    if let Some(env) = env {
        entries.push(("env", env));
    }
    object(entries)
}

fn group(matcher: Option<&str>, handlers: Vec<Value>) -> Value {
    let mut entries = Vec::new();
    if let Some(matcher) = matcher {
        entries.push(("matcher", text(matcher)));
    }
    entries.push(("hooks", Value::Array(handlers)));
    object(entries)
}

#[test]
fn drains_oversized_input_without_retaining_more_than_the_limit() {
    let data = vec![b'x'; MAX_STDIN_BYTES + 137];
    let mut input = LimitedInput::new();
    let mut consumed = 0usize;
    for chunk in data.chunks(8192) {
        input.absorb(chunk);
        consumed += chunk.len();
    }
    assert_eq!(input.bytes.len(), MAX_STDIN_BYTES);
    assert!(input.overflowed);
    assert_eq!(consumed as u64, (MAX_STDIN_BYTES + 137) as u64);
}

#[test]
fn parses_all_supported_event_names() {
    let cases = [
        ("SessionStart", HookEventKind::SessionStart),
        ("UserPromptSubmit", HookEventKind::UserPromptSubmit),
        ("Stop", HookEventKind::Stop),
        ("StopFailure", HookEventKind::StopFailure),
        ("SessionEnd", HookEventKind::SessionEnd),
        ("PreToolUse", HookEventKind::PreToolUse),
        ("PostToolUse", HookEventKind::PostToolUse),
        ("PostToolUseFailure", HookEventKind::PostToolUseFailure),
        ("Notification", HookEventKind::Notification),
    ];
    for (name, expected) in cases {
        let payload = bytes_of(&object(vec![
            ("hookEventName", text(name)),
            ("sessionId", text(UUID)),
        ]));
        assert_eq!(parse_event(&payload, None).unwrap().1.kind, expected);
    }
    assert!(parse_event(br#"{"hookEventName":"SubagentStart"}"#, None).is_none());
    assert!(parse_event(br#"{"hookEventName":"Stop"}"#, None).is_none());
}

#[test]
fn accepts_snake_case_fields_and_prefers_provider_session_environment() {
    let payload = bytes_of(&object(vec![
        ("hook_event_name", text("notification")),
        ("session_id", text("json-session")),
        ("cwd", text("repo\nroot")),
        ("tool_name", text("read\u{0}file")),
        ("message", text("message\r\nbody")),
        ("notification_type", text("permission\trequest")),
        ("level", text("warn\n")),
    ]));
    let (provider_session_id, event) =
        parse_event(&payload, Some("019e37f4-5135-7b63-a4ab-6d13aa6bf528\n")).unwrap();
    assert_eq!(provider_session_id, "019e37f4-5135-7b63-a4ab-6d13aa6bf528");
    assert_eq!(event.cwd.as_deref(), Some("reporoot"));
    assert_eq!(event.tool_name.as_deref(), Some("readfile"));
    assert_eq!(event.message.as_deref(), Some("messagebody"));
    assert_eq!(event.notification_type.as_deref(), Some("permissionrequest"));
    assert_eq!(event.level.as_deref(), Some("warn"));
}

#[test]
fn resolves_grok_home_before_platform_home() {
    let path = hook_file_path_from(Some("custom-grok-home"), Some("home"), Some("profile"), false)
        .unwrap();
    assert_eq!(path, "custom-grok-home/hooks/grok-bridge.json");
}

#[test]
fn installation_preserves_foreign_hooks_and_is_idempotent() {
    let path = "grok/hooks/grok-bridge.json";
    let command = r#""C:\Program Files\grok-bridge.exe" __hook"#;
    let foreign = object(vec![
        ("metadata", object(vec![("owner", text("user"))])),
        (
            "hooks",
            object(vec![
                (
                    "PreToolUse",
                    Value::Array(vec![group(
                        Some("Bash"),
                        vec![object(vec![
                            ("type", text("command")),
                            ("command", text("foreign-command")),
                            ("timeout", Value::from(5)),
                        ])],
                    )]),
                ),
                (
                    "CustomEvent",
                    Value::Array(vec![group(None, vec![handler("custom-command", None)])]),
                ),
            ]),
        ),
    ]);
    let existing = bytes_of(&foreign);

    let first = install_config(Some(&existing), path, command).unwrap();
    assert!(first.status.installed);
    assert!(first.status.changed);
    assert_eq!(first.status.events_found, hook_events().len());
    let first_bytes = first.contents.unwrap();

    let second = install_config(Some(&first_bytes), path, command).unwrap();
    assert!(second.status.installed);
    assert!(!second.status.changed);
    assert!(second.contents.is_none());

    let document: Value = serde_json::from_slice(&first_bytes).unwrap();
    assert_eq!(document["metadata"]["owner"], "user");
    assert_eq!(
        document["hooks"]["CustomEvent"][0]["hooks"][0]["command"],
        "custom-command"
    );
    let pre_tool_groups = document["hooks"]["PreToolUse"].as_array().unwrap();
    assert!(pre_tool_groups.iter().any(|group| group["matcher"] == "Bash"));
    assert!(pre_tool_groups.iter().any(|group| {
        group["matcher"] == ".*"
            && group["hooks"][0]["env"][MANAGED_ENV_NAME] == MANAGED_ENV_VALUE
            && group["hooks"][0]["env"][PROTOCOL_ENV_NAME] == PROTOCOL_ENV_VALUE
    }));
}

#[test]
fn uninstall_removes_only_managed_hooks_and_is_idempotent() {
    let path = "grok/hooks/grok-bridge.json";
    let command = "'/opt/grok bridge/grok-bridge' __hook";
    let foreign = object(vec![(
        "hooks",
        object(vec![
            (
                "Stop",
                Value::Array(vec![group(None, vec![handler("foreign", None)])]),
            ),
            (
                "OldEvent",
                Value::Array(vec![group(
                    None,
                    vec![handler(
                        "old-managed-command",
                        Some(object(vec![(MANAGED_ENV_NAME, text(MANAGED_ENV_VALUE))])),
                    )],
                )]),
            ),
        ]),
    )]);
    let existing = bytes_of(&foreign);
    let installed = install_config(Some(&existing), path, command)
        .unwrap()
        .contents
        .unwrap();

    let first = uninstall_config(Some(&installed), path, command).unwrap();
    assert!(!first.status.installed);
    assert!(first.status.changed);
    assert_eq!(first.status.events_found, 0);
    let removed = first.contents.unwrap();
    let document: Value = serde_json::from_slice(&removed).unwrap();
    assert_eq!(document["hooks"]["Stop"][0]["hooks"][0]["command"], "foreign");
    assert!(document["hooks"].get("OldEvent").is_none());

    let second = uninstall_config(Some(&removed), path, command).unwrap();
    assert!(!second.status.installed);
    assert!(!second.status.changed);
    assert!(second.contents.is_none());
}

#[test]
fn missing_hook_file_installs_into_an_empty_document() {
    let command = "/usr/bin/grok-bridge __hook";
    let update = install_config(None, "h.json", command).unwrap();
    assert!(update.status.installed);
    assert!(update.status.changed);
    assert_eq!(update.status.events_found, 9);
    assert_eq!(update.status.events_expected, 9);
    let bytes = update.contents.unwrap();
    assert_eq!(bytes.last(), Some(&b'\n'));
    let status = status_config(Some(&bytes), "h.json", command).unwrap();
    assert!(status.installed);
    assert!(!status.changed);
}

#[test]
fn status_of_a_missing_file_reports_nothing_installed() {
    let status = status_config(None, "h.json", "x __hook").unwrap();
    assert_eq!(status.path, "h.json");
    assert!(!status.installed);
    assert_eq!(status.events_found, 0);
    assert_eq!(status.events_expected, 9);
    let update = uninstall_config(None, "h.json", "x __hook").unwrap();
    assert!(update.contents.is_none());
    assert!(!update.status.changed);
}

#[test]
fn malformed_hook_documents_are_refused() {
    assert!(matches!(
        install_config(Some(b"{not json"), "h.json", "x"),
        Err(HookConfigError::Parse(_))
    ));
    assert!(matches!(
        install_config(Some(b"[1, 2]"), "h.json", "x"),
        Err(HookConfigError::RootNotObject)
    ));
    assert!(matches!(
        install_config(Some(br#"{"hooks": 3}"#), "h.json", "x"),
        Err(HookConfigError::HooksNotObject)
    ));
    let status = status_config(Some(br#"{"hooks": {"Stop": {}}}"#), "h.json", "x").unwrap();
    assert!(!status.installed);
    assert!(matches!(
        install_config(Some(br#"{"hooks": {"Stop": {}}}"#), "h.json", "x"),
        Err(HookConfigError::EventNotArray(_))
    ));
}

#[test]
fn a_changed_command_is_reinstalled() {
    let first = install_config(None, "h.json", "/old/grok-bridge __hook")
        .unwrap()
        .contents
        .unwrap();
    let status = status_config(Some(&first), "h.json", "/new/grok-bridge __hook").unwrap();
    assert!(!status.installed);
    let second = install_config(Some(&first), "h.json", "/new/grok-bridge __hook").unwrap();
    assert!(second.status.changed);
    assert!(second.status.installed);
    let document: Value = serde_json::from_slice(&second.contents.unwrap()).unwrap();
    assert_eq!(document["hooks"]["Stop"].as_array().unwrap().len(), 1);
    assert_eq!(
        document["hooks"]["Stop"][0]["hooks"][0]["command"],
        "/new/grok-bridge __hook"
    );
}

#[test]
fn parses_event_kind_names_in_either_case_style() {
    assert_eq!(parse_event_kind("PreToolUse"), Some(HookEventKind::PreToolUse));
    assert_eq!(parse_event_kind("pre_tool_use"), Some(HookEventKind::PreToolUse));
    assert_eq!(parse_event_kind("SubagentStart"), None);
}

#[test]
fn sanitizing_drops_control_characters_and_rejects_blank_text() {
    assert_eq!(sanitize_text("  a\u{7}b  ", 16).as_deref(), Some("  ab  "));
    assert_eq!(sanitize_text("\n\t\r", 16), None);
    assert_eq!(sanitize_text("abcdef", 3).as_deref(), Some("abc"));
}

#[test]
fn unix_hook_command_single_quotes_the_executable() {
    assert_eq!(
        hook_command("/usr/local/bin/grok-bridge").unwrap(),
        "'/usr/local/bin/grok-bridge' __hook"
    );
    assert_eq!(
        hook_command("/opt/grok bridge/grok-bridge").unwrap(),
        "'/opt/grok bridge/grok-bridge' __hook"
    );
    assert_eq!(
        hook_command("/opt/it's/grok-bridge").unwrap(),
        "'/opt/it'\"'\"'s/grok-bridge' __hook"
    );
    assert!(hook_command("/opt/bad\npath").is_err());
}

#[test]
fn hook_file_written_once_reads_back_unchanged_for_both_edits() {
    let path = "h.json";
    let command = "/usr/bin/grok-bridge __hook";
    let existing = br#"{"zeta": [1.5, -3, 18446744073709551615, {"b\n": "\u00e9", "a": null}],
        "hooks": {"Stop": [{"hooks": [{"type": "command", "command": "foreign", "timeout": 2.5}]}]},
        "alpha": {"nested": [[[true]]]}}"#;
    let first = install_config(Some(&existing[..]), path, command).unwrap();
    assert!(first.status.changed);
    let written = first.contents.unwrap();
    let second = install_config(Some(&written), path, command).unwrap();
    assert!(second.status.installed);
    assert!(!second.status.changed);
    assert!(second.contents.is_none());

    let removed = uninstall_config(Some(&written), path, command).unwrap();
    assert!(removed.status.changed);
    let cleared = removed.contents.unwrap();
    let again = uninstall_config(Some(&cleared), path, command).unwrap();
    assert!(!again.status.changed);
    assert!(again.contents.is_none());
    let document: Value = serde_json::from_slice(&cleared).unwrap();
    assert_eq!(document["zeta"][2], Value::from(18446744073709551615u64));
    assert_eq!(document["hooks"]["Stop"][0]["hooks"][0]["timeout"], Value::from(2.5));
}

#[test]
fn deeply_nested_foreign_settings_survive_a_second_install() {
    let path = "h.json";
    let command = "/usr/bin/grok-bridge __hook";
    // The root object and 126 arrays: as deep as serde_json reads.
    let existing = format!("{{\"deep\": {}{}}}", "[".repeat(126), "]".repeat(126));
    let first = install_config(Some(existing.as_bytes()), path, command).unwrap();
    assert!(first.status.changed);
    let written = first.contents.unwrap();
    let second = install_config(Some(&written), path, command).unwrap();
    assert!(second.status.installed);
    assert!(!second.status.changed);
    // One level more is refused when the file is read.
    let too_deep = format!("{{\"deep\": {}{}}}", "[".repeat(127), "]".repeat(127));
    assert!(install_config(Some(too_deep.as_bytes()), path, command).is_err());
}
