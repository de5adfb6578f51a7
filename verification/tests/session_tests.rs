use grok_bridge::protocol::{
    validate_provider_session_id, ClientLeaseState, HookActivity, HookEvent, HookEventKind,
    SessionPhase, WaitCondition,
};
use grok_bridge::session::{
    client_lifecycle, csi_response, format_provider_session_id, generate_provider_session_id,
    orphan_cleanup_due, projected_activity, session_handle, OrphanPolicy, SessionStatus,
};

fn hook_event(kind: HookEventKind) -> HookEvent {
    HookEvent {
        kind,
        cwd: None,
        tool_name: None,
        message: None,
        notification_type: None,
        level: None,
    }
}

fn status(phase: SessionPhase) -> SessionStatus {
    let mut status = SessionStatus::started(Some(42), 1);
    status.set_phase(phase, 1);
    status
}

#[test]
fn generates_random_uuid_v4_provider_session_ids() {
    let first = generate_provider_session_id().unwrap();
    let second = generate_provider_session_id().unwrap();
    assert_eq!(first.len(), 36);
    assert_eq!(&first[8..9], "-");
    assert_eq!(&first[13..14], "-");
    assert_eq!(&first[18..19], "-");
    assert_eq!(&first[23..24], "-");
    assert_eq!(&first[14..15], "4");
    assert!(matches!(&first[19..20], "8" | "9" | "a" | "b"));
    assert!(first
        .bytes()
        .all(|byte| byte.is_ascii_digit() || matches!(byte, b'a'..=b'f' | b'-')));
    assert_ne!(first, second);
    assert!(validate_provider_session_id(&first).is_ok());
}

#[test]
fn provider_session_ids_set_the_version_and_variant_bits() {
    let id = format_provider_session_id(&[0xff; 16]);
    assert_eq!(id, "ffffffff-ffff-4fff-bfff-ffffffffffff");
    let id = format_provider_session_id(&[0; 16]);
    assert_eq!(id, "00000000-0000-4000-8000-000000000000");
}

#[test]
fn completed_turn_ignores_late_tool_events_until_the_next_prompt() {
    let mut session = status(SessionPhase::Running);
    session.apply_hook_event(&hook_event(HookEventKind::Stop), 10);
    assert_eq!(session.phase, SessionPhase::Idle);
    assert_eq!(projected_activity(session.phase, session.hook.activity), HookActivity::Done);

    let mut late = hook_event(HookEventKind::PostToolUse);
    late.tool_name = Some("edit_file".to_owned());
    session.apply_hook_event(&late, 11);
    assert_eq!(session.phase, SessionPhase::Idle);
    assert_eq!(projected_activity(session.phase, session.hook.activity), HookActivity::Done);
    assert_eq!(session.hook.tool_name, None);

    session.apply_hook_event(&hook_event(HookEventKind::UserPromptSubmit), 12);
    assert_eq!(session.phase, SessionPhase::Running);
    assert_eq!(projected_activity(session.phase, session.hook.activity), HookActivity::Working);
}

#[test]
fn lease_cleanup_only_targets_idle_or_terminal_sessions_after_grace() {
    let policy = OrphanPolicy { lease_ms: 100, grace_ms: 200 };
    let last_seen = Some(1_000);
    assert_eq!(
        client_lifecycle(last_seen, policy, SessionPhase::Idle, 900, 1_050, false).state,
        ClientLeaseState::Connected
    );
    let lifecycle = client_lifecycle(last_seen, policy, SessionPhase::Idle, 900, 1_101, false);
    assert_eq!(lifecycle.state, ClientLeaseState::Orphaned);
    assert_eq!(lifecycle.orphaned_at_ms, Some(1_100));
    assert_eq!(lifecycle.auto_close_at_ms, Some(1_300));
    assert!(!orphan_cleanup_due(last_seen, policy, SessionPhase::Idle, 900, 1_299));
    assert!(orphan_cleanup_due(last_seen, policy, SessionPhase::Idle, 900, 1_300));

    let running = client_lifecycle(last_seen, policy, SessionPhase::Running, 1_200, 2_000, false);
    assert_eq!(running.state, ClientLeaseState::Disconnected);
    assert_eq!(running.auto_close_at_ms, None);
    assert!(!orphan_cleanup_due(last_seen, policy, SessionPhase::Running, 1_200, 10_000));
}

#[test]
fn ignores_late_terminal_hook_events() {
    let mut terminal = status(SessionPhase::Exited);
    let mut late = hook_event(HookEventKind::PreToolUse);
    late.cwd = Some("path-that-does-not-exist".to_owned());
    late.tool_name = Some("ask_user_question".to_owned());
    terminal.apply_hook_event(&late, 20);
    assert_eq!(terminal.phase, SessionPhase::Exited);
    assert_eq!(projected_activity(terminal.phase, terminal.hook.activity), HookActivity::Unknown);
    assert_eq!(terminal.hook.last_event, None);
}

#[test]
fn quiet_fallback_recovers_from_a_missing_completion_hook() {
    let now = 100_000;
    let mut session = status(SessionPhase::Running);
    session.updated_at_ms = now - 3_001;
    session.hook.activity = HookActivity::Working;
    assert!(session.wait_satisfied(WaitCondition::TuiIdle, now));
    assert_eq!(session.phase, SessionPhase::Idle);

    session.phase = SessionPhase::Running;
    session.updated_at_ms = now - 3_001;
    session.hook.activity = HookActivity::Waiting;
    assert!(!session.wait_satisfied(WaitCondition::TuiIdle, now));
    assert_eq!(session.phase, SessionPhase::Running);
}

#[test]
fn idle_phase_projects_stale_working_activity_as_done() {
    assert_eq!(projected_activity(SessionPhase::Running, HookActivity::Working), HookActivity::Working);
    assert_eq!(projected_activity(SessionPhase::Idle, HookActivity::Working), HookActivity::Done);
    assert_eq!(projected_activity(SessionPhase::Starting, HookActivity::Working), HookActivity::Working);
}

#[test]
fn terminal_phases_override_a_stale_hook_activity() {
    for phase in [SessionPhase::Failed, SessionPhase::Exited, SessionPhase::Stopped] {
        assert_eq!(projected_activity(phase, HookActivity::Working), HookActivity::Unknown);
    }
    assert_eq!(projected_activity(SessionPhase::Exited, HookActivity::Waiting), HookActivity::Unknown);
    assert_eq!(projected_activity(SessionPhase::Exited, HookActivity::Done), HookActivity::Done);
}

#[test]
fn title_callbacks_reply_to_conpty_cursor_position_report() {
    assert_eq!(csi_response('n', None, None, Some(6), 0, 0), Some(b"\x1b[1;1R".to_vec()));
    assert_eq!(csi_response('n', None, None, Some(5), 0, 0), Some(b"\x1b[0n".to_vec()));
    assert_eq!(csi_response('n', None, None, Some(6), 11, 79), Some(b"\x1b[12;80R".to_vec()));
    assert_eq!(csi_response('n', Some(b'?'), None, Some(6), 0, 0), None);
}

#[test]
fn finished_sessions_stay_finished() {
    let mut session = status(SessionPhase::Running);
    session.process_done = true;
    session.reader_done = true;
    session.exit_code = Some(0);
    assert!(session.finalize(false, 50));
    assert_eq!(session.phase, SessionPhase::Exited);
    assert_eq!(session.process_id, None);
    session.apply_hook_event(&hook_event(HookEventKind::UserPromptSubmit), 60);
    assert_eq!(session.phase, SessionPhase::Exited);
}

#[test]
fn session_handles_name_the_process_time_and_counter() {
    let handle = session_handle(255, 4096, 7);
    assert_eq!(handle, "gbt-ff-1000-7");
    assert!(grok_bridge::protocol::validate_identifier(
        &handle,
        grok_bridge::protocol::IdentifierField::SessionHandle
    )
    .is_ok());
}
