use grok_bridge::hooks::{sanitize_text, MAX_SHORT_TEXT_BYTES};
use grok_bridge::protocol::{
    single_frame_payload, validate_request_envelope, HookActivity, HookEvent, HookEventKind,
    Request, RequestEnvelope, SessionPhase,
};
use grok_bridge::session::{
    blocked_reason, completed_phase, hook_effect, normalize_verbatim_path, phase_after_output,
    phase_from_title, raw_input_starts_turn, resolve_state_dir_from_cwd,
    stable_process_group_scan_result, HookEffect, ScopeAlive,
};
use grok_bridge::version::{is_outdated, normalize_tag, parse_semver, VersionChecker};

fn hook_event(kind: HookEventKind) -> HookEvent {
    HookEvent {
        kind,
        cwd: None,
        tool_name: None,
        message: None,
        notification_type: None,
        level: None,
    }
}

#[test]
fn truncates_text_on_utf8_boundaries() {
    let sanitized = sanitize_text(&"中".repeat(100), MAX_SHORT_TEXT_BYTES).unwrap();
    assert!(sanitized.len() <= MAX_SHORT_TEXT_BYTES);
    assert!(sanitized.is_char_boundary(sanitized.len()));
    assert_eq!(sanitized.chars().count(), MAX_SHORT_TEXT_BYTES / 3);
}

#[test]
fn accepts_one_optional_line_ending_and_rejects_multiple_frames() {
    let json = br#"{"id":"r1","request":{"method":"server_status"}}"#;
    assert!(single_frame_payload(json).is_ok());

    let mut crlf = json.to_vec();
    crlf.extend_from_slice(b"\r\n");
    assert_eq!(single_frame_payload(&crlf).unwrap(), &json[..]);

    let mut multiple = json.to_vec();
    multiple.push(b'\n');
    multiple.extend_from_slice(json);
    multiple.push(b'\n');
    assert!(single_frame_payload(&multiple).is_err());
}

#[test]
fn rejects_invalid_request_ids_and_session_handles() {
    let invalid_id = RequestEnvelope {
        id: "bad id".to_owned(),
        request: Request::ServerStatus,
    };
    assert!(validate_request_envelope(&invalid_id).is_err());

    let invalid_handle = RequestEnvelope {
        id: "r1".to_owned(),
        request: Request::Show {
            session: "../bad".to_owned(),
        },
    };
    assert!(validate_request_envelope(&invalid_handle).is_err());
}

#[test]
fn resolves_relative_grok_home_against_session_working_directory() {
    let cwd = "/workspace/project";
    assert_eq!(
        resolve_state_dir_from_cwd(cwd, ".grok-state"),
        "/workspace/project/.grok-state"
    );
    assert_eq!(
        resolve_state_dir_from_cwd(cwd, "/custom/grok"),
        "/custom/grok"
    );
}

#[test]
fn detects_grok_working_and_idle_titles() {
    assert_eq!(
        phase_from_title(Some("⠋ - Waiting for response… - grok")),
        Some(SessionPhase::Running)
    );
    assert_eq!(
        phase_from_title(Some("Fix the auth bug - grok")),
        Some(SessionPhase::Idle)
    );
    assert_eq!(phase_from_title(Some("grok")), Some(SessionPhase::Idle));
    assert_eq!(phase_from_title(Some("PowerShell")), None);
}

#[test]
fn publishes_terminal_phase_only_after_process_and_reader_finish() {
    assert_eq!(
        completed_phase(SessionPhase::Running, true, false, false, false, Some(0)),
        None
    );
    assert_eq!(
        completed_phase(SessionPhase::Running, true, true, false, false, Some(0)),
        Some(SessionPhase::Exited)
    );
    assert_eq!(
        completed_phase(SessionPhase::Running, true, true, true, false, Some(1)),
        Some(SessionPhase::Stopped)
    );
    assert_eq!(
        completed_phase(SessionPhase::Running, true, false, true, false, None),
        Some(SessionPhase::Stopped)
    );
    assert_eq!(
        completed_phase(SessionPhase::Running, true, false, false, true, None),
        None
    );
}

#[test]
fn maps_hook_lifecycle_and_tool_events_to_activity() {
    let mut event = hook_event(HookEventKind::PreToolUse);
    event.tool_name = Some("read_file".to_owned());
    assert_eq!(
        hook_effect(&event),
        HookEffect::Working {
            tool_name: Some("read_file".to_owned())
        }
    );

    event.tool_name = Some("ASK_USER_QUESTION".to_owned());
    event.message = Some("请选择目标".to_owned());
    assert_eq!(
        hook_effect(&event),
        HookEffect::Waiting {
            tool_name: Some("ASK_USER_QUESTION".to_owned()),
            reason: "请选择目标".to_owned(),
        }
    );

    for kind in [
        HookEventKind::UserPromptSubmit,
        HookEventKind::PostToolUse,
        HookEventKind::PostToolUseFailure,
        HookEventKind::PermissionDenied,
        HookEventKind::PreCompact,
        HookEventKind::PostCompact,
    ] {
        assert!(matches!(
            hook_effect(&hook_event(kind)),
            HookEffect::Working { .. }
        ));
    }
    for kind in [
        HookEventKind::Stop,
        HookEventKind::StopFailure,
        HookEventKind::SessionEnd,
    ] {
        assert_eq!(hook_effect(&hook_event(kind)), HookEffect::Done);
    }
    assert_eq!(
        hook_effect(&hook_event(HookEventKind::SessionStart)),
        HookEffect::Reset
    );
    for kind in [HookEventKind::SubagentStart, HookEventKind::SubagentStop] {
        assert_eq!(hook_effect(&hook_event(kind)), HookEffect::RecordOnly);
    }
}

#[test]
fn classifies_notification_events_without_treating_permission_prompt_as_blocked() {
    let mut event = hook_event(HookEventKind::Notification);
    event.notification_type = Some("permission_prompt".to_owned());
    event.message = Some("Approval required".to_owned());
    assert_eq!(hook_effect(&event), HookEffect::RecordOnly);

    event.notification_type = Some("question".to_owned());
    event.message = Some("请选择".to_owned());
    assert_eq!(
        hook_effect(&event),
        HookEffect::Waiting {
            tool_name: None,
            reason: "请选择".to_owned(),
        }
    );

    event.notification_type = Some("input_required".to_owned());
    event.message = None;
    assert_eq!(hook_effect(&event), HookEffect::Done);

    event.notification_type = Some("status".to_owned());
    event.level = Some("info".to_owned());
    assert_eq!(hook_effect(&event), HookEffect::RecordOnly);
}

#[test]
fn hook_done_and_waiting_survive_output_without_an_explicit_grok_title() {
    assert_eq!(
        phase_after_output(SessionPhase::Running, None, false, HookActivity::Done, false, false, false),
        SessionPhase::Idle
    );
    assert_eq!(
        phase_after_output(SessionPhase::Running, None, false, HookActivity::Waiting, false, false, false),
        SessionPhase::Running
    );
    assert_eq!(
        phase_after_output(
            SessionPhase::Idle,
            Some("⠋ - Waiting for response… - grok"),
            true,
            HookActivity::Done,
            false,
            false,
            false,
        ),
        SessionPhase::Running
    );
    assert_eq!(
        phase_after_output(SessionPhase::Running, Some("grok"), true, HookActivity::Waiting, false, false, false),
        SessionPhase::Idle
    );
}

#[test]
fn late_output_does_not_revive_a_finished_process() {
    assert_eq!(
        phase_after_output(SessionPhase::Exited, Some("grok"), true, HookActivity::Done, true, false, false),
        SessionPhase::Exited
    );
    assert_eq!(
        phase_after_output(SessionPhase::Running, Some("grok"), false, HookActivity::Unknown, false, false, false),
        SessionPhase::Running
    );
    assert_eq!(
        phase_after_output(SessionPhase::Running, Some("grok"), true, HookActivity::Unknown, false, false, false),
        SessionPhase::Idle
    );
}

#[test]
fn normalizes_windows_verbatim_paths_for_child_processes() {
    assert_eq!(
        normalize_verbatim_path(r"\\?\D:\repo\project"),
        r"D:\repo\project"
    );
    assert_eq!(
        normalize_verbatim_path(r"\\?\UNC\server\share\repo"),
        r"\\server\share\repo"
    );
}

#[test]
fn detects_interactive_grok_prompts_as_blocked() {
    assert_eq!(
        blocked_reason("Run Grok Build in a project directory?"),
        Some("grok-project-directory")
    );
    assert_eq!(
        blocked_reason("Type your answer here  Enter:submit"),
        Some("grok-interactive-prompt")
    );
    assert_eq!(blocked_reason("中文通讯正常"), None);
}

#[test]
fn raw_navigation_does_not_mark_a_turn_running() {
    assert!(!raw_input_starts_turn(b"hello"));
    assert!(!raw_input_starts_turn(b"\x1b[A"));
    assert!(raw_input_starts_turn(b"hello\r"));
    assert!(!raw_input_starts_turn(&[0x03]));
}

#[test]
fn all_zombie_scope_requires_stable_membership() {
    assert_eq!(
        stable_process_group_scan_result((ScopeAlive::Gone, vec![41]), (ScopeAlive::Gone, vec![41])),
        ScopeAlive::Gone
    );
    assert_eq!(
        stable_process_group_scan_result((ScopeAlive::Gone, vec![41]), (ScopeAlive::Gone, vec![41, 42])),
        ScopeAlive::Unknown
    );
    assert_eq!(
        stable_process_group_scan_result((ScopeAlive::Gone, vec![41]), (ScopeAlive::Alive, vec![41, 42])),
        ScopeAlive::Alive
    );
}

#[test]
fn normalizes_and_compares_semver_tags() {
    assert_eq!(normalize_tag("v0.6.2"), "0.6.2");
    assert_eq!(parse_semver("v1.2.3"), Some((1, 2, 3)));
    assert!(is_outdated("0.6.1", "0.6.2"));
    assert!(is_outdated("0.6.1", "v0.7.0"));
    assert!(!is_outdated("0.6.2", "0.6.2"));
    assert!(!is_outdated("0.6.2", "0.6.1"));
    assert!(!is_outdated("v0.6.2", "0.6.2"));
}

#[test]
fn status_reports_update_when_seeded_newer() {
    let mut checker = VersionChecker::with_current("0.6.1");
    assert!(!checker.status().update_available);
    checker.seed_latest(
        "0.6.2",
        "https://github.com/luodaoyi/grok-bridge-rs/releases/tag/v0.6.2",
    );
    let status = checker.status();
    assert!(status.update_available);
    assert_eq!(status.current, "0.6.1");
    assert_eq!(status.latest.as_deref(), Some("0.6.2"));
    assert!(status.release_url.contains("v0.6.2"));
}
