use grok_bridge::hooks::grok_state_dir_from;
use grok_bridge::protocol::{
    ClientLeaseState, HookActivity, HookEvent, HookEventKind, SessionPhase, WaitCondition,
    MAX_WRITE_BYTES,
};
use grok_bridge::session::{
    admit_input, check_raw_input, client_lifecycle, frame_text_input, grok_arguments,
    next_lifecycle_deadline_ms, raw_input_starts_turn, resolve_state_dir_from_cwd,
    escalation_milestones, orphan_cleanup_due, summarize_close_group, CleanupStage, CloseError, CloseGroupResult, CloseOutcome, DurationError, InputError,
    HookRefusal, OrphanPolicy, PolicyError, PolicySetting, SessionStatus, WaitStep, WRITER_QUEUE_CAPACITY,
    WRITER_QUEUE_MAX_BYTES, writer_queue_has_room,
};
use grok_bridge::transcript::Transcript;
use grok_bridge::writer_queue::WriterQueue;
use grok_bridge::web::{add_http_header, begin_http_request, validate_events_websocket_request, HandshakeError};

const TEST_PROVIDER_SESSION_ID: &str = "123e4567-e89b-42d3-a456-426614174000";

fn hook_event(kind: HookEventKind) -> HookEvent {
    HookEvent {
        kind,
        cwd: None,
        tool_name: None,
        message: None,
        notification_type: None,
        level: None,
    }
}

fn status(phase: SessionPhase) -> SessionStatus {
    let mut status = SessionStatus::started(Some(42), 1);
    status.set_phase(phase, 1);
    status
}

#[test]
fn resolves_grok_state_directory_with_platform_precedence() {
    assert_eq!(
        grok_state_dir_from(Some("/custom/grok"), Some("/home/test"), Some(r"C:\Users\test"), false),
        Some("/custom/grok".to_owned())
    );
    assert_eq!(
        grok_state_dir_from(None, Some("/home/test"), Some(r"C:\Users\test"), false),
        Some("/home/test/.grok".to_owned())
    );
    assert_eq!(
        grok_state_dir_from(None, Some("/home/test"), Some(r"C:\Users\test"), true),
        Some(r"C:\Users\test/.grok".to_owned())
    );
    assert_eq!(grok_state_dir_from(Some(""), None, None, false), None);
}

#[test]
fn empty_home_variables_fall_back_to_the_other_platform_home() {
    assert_eq!(
        grok_state_dir_from(Some(""), Some(""), Some("/profile"), false),
        Some("/profile/.grok".to_owned())
    );
    assert_eq!(
        grok_state_dir_from(None, Some("/home/test"), Some(""), true),
        Some("/home/test/.grok".to_owned())
    );
}

#[test]
fn relative_grok_home_joins_the_working_directory() {
    assert_eq!(
        resolve_state_dir_from_cwd("/workspace/project", ".grok-state"),
        "/workspace/project/.grok-state"
    );
    assert_eq!(resolve_state_dir_from_cwd("/workspace/project", "/custom/grok"), "/custom/grok");
}

#[test]
fn builds_only_interactive_grok_arguments() {
    let argv = grok_arguments(TEST_PROVIDER_SESSION_ID, true, Some("grok-4"), Some("修复中文"));
    assert_eq!(
        argv,
        [
            "--session-id",
            TEST_PROVIDER_SESSION_ID,
            "--always-approve",
            "--model",
            "grok-4",
            "修复中文"
        ]
    );
    assert!(!argv.iter().any(|value| value == "-p"));
    assert!(!argv.iter().any(|value| value == "--output-format"));
}

#[test]
fn grok_arguments_leave_out_what_was_not_asked_for() {
    assert_eq!(
        grok_arguments(TEST_PROVIDER_SESSION_ID, false, None, None),
        ["--session-id", TEST_PROVIDER_SESSION_ID]
    );
}

#[test]
fn writer_admission_rejects_whole_input_once_byte_budget_is_full() {
    let session = status(SessionPhase::Idle);
    let mut pending = 0usize;
    for _ in 0..4 {
        assert_eq!(admit_input(false, false, &session, true, pending, 0, MAX_WRITE_BYTES), Ok(()));
        pending += MAX_WRITE_BYTES;
    }
    assert_eq!(pending, 4 * MAX_WRITE_BYTES);
    assert_eq!(WRITER_QUEUE_MAX_BYTES, 4 * MAX_WRITE_BYTES);
    let error = admit_input(false, false, &session, true, pending, 0, MAX_WRITE_BYTES).unwrap_err();
    assert_eq!(error, InputError::QueueFull);
    assert!(error.message().contains("queue is full"));
    assert_eq!(admit_input(false, false, &session, true, 0, 0, 1), Ok(()));
    // The queue also holds at most 64 writes, however small.
    assert_eq!(WRITER_QUEUE_CAPACITY, 64);
    assert_eq!(admit_input(false, false, &session, true, 0, 63, 1), Ok(()));
    assert_eq!(admit_input(false, false, &session, true, 0, 64, 1), Err(InputError::QueueFull));
    assert!(writer_queue_has_room(63));
    assert!(!writer_queue_has_room(64));

    // The same series against the session's queue: four whole writes are
    // queued, the fifth is refused and changes nothing.
    let mut queue = WriterQueue::new();
    for _ in 0..4 {
        assert_eq!(queue.enqueue_input(false, false, &session, true, MAX_WRITE_BYTES), Ok(()));
    }
    assert_eq!(queue.pending_bytes(), 262144);
    assert_eq!(queue.pending_items(), 4);
    let error = queue.enqueue_input(false, false, &session, true, MAX_WRITE_BYTES).unwrap_err();
    assert!(error.message().contains("queue is full"));
    assert_eq!(queue.pending_bytes(), 262144);
    assert_eq!(queue.pending_items(), 4);
}

#[test]
fn writer_queue_releases_budget_as_writes_reach_the_terminal() {
    let session = status(SessionPhase::Idle);
    let mut queue = WriterQueue::new();
    assert_eq!(queue.release(), None);
    assert_eq!(queue.enqueue_input(false, false, &session, true, 65536), Ok(()));
    assert!(queue.queue_reply());
    assert_eq!(queue.enqueue_input(false, false, &session, true, 10), Ok(()));
    assert_eq!(queue.pending_bytes(), 65546);
    assert_eq!(queue.pending_items(), 3);
    // Oldest first: the big write, then the reply (no budget), then the small one.
    assert_eq!(queue.release(), Some(65536));
    assert_eq!(queue.pending_bytes(), 10);
    assert_eq!(queue.release(), Some(0));
    assert_eq!(queue.release(), Some(10));
    assert_eq!(queue.pending_bytes(), 0);
    assert_eq!(queue.pending_items(), 0);
    // A refused write leaves the queue as it was.
    assert_eq!(
        queue.enqueue_input(false, false, &session, false, 1),
        Err(InputError::ChannelClosed)
    );
    assert_eq!(queue.pending_items(), 0);
    // Replies hold no bytes but count toward the 64 waiting writes.
    for _ in 0..64 {
        assert!(queue.queue_reply());
    }
    assert_eq!(queue.pending_bytes(), 0);
    assert!(!queue.queue_reply());
    assert_eq!(
        queue.enqueue_input(false, false, &session, true, 1),
        Err(InputError::QueueFull)
    );
    assert_eq!(queue.release(), Some(0));
    assert_eq!(queue.enqueue_input(false, false, &session, true, 1), Ok(()));
}

#[test]
fn input_admission_reports_each_refusal_in_order() {
    let idle = status(SessionPhase::Idle);
    assert_eq!(
        admit_input(true, true, &idle, false, 0, 0, 1).unwrap_err().message(),
        "session has already stopped"
    );
    assert_eq!(
        admit_input(false, true, &idle, false, 0, 0, 1).unwrap_err().message(),
        "session cleanup has started"
    );
    let exited = status(SessionPhase::Exited);
    assert_eq!(
        admit_input(false, false, &exited, false, 0, 0, 1).unwrap_err().message(),
        "session is not writable"
    );
    assert_eq!(
        admit_input(false, false, &idle, false, 0, 0, 1).unwrap_err().message(),
        "session input channel is closed"
    );
}

#[test]
fn raw_write_passes_ctrl_c_through_without_starting_a_turn() {
    assert_eq!(check_raw_input(b"\x03"), Ok(false));
    let mut session = status(SessionPhase::Idle);
    session.accept_input(false, 5);
    assert_eq!(session.phase, SessionPhase::Idle);
    assert_eq!(session.hook.activity, HookActivity::Unknown);

    assert!(raw_input_starts_turn(b"\r"));
    assert!(raw_input_starts_turn(b"\n"));
    assert!(raw_input_starts_turn(b"new task\r"));
    assert!(!raw_input_starts_turn(b"\x03"));

    assert_eq!(check_raw_input(b""), Err(InputError::EmptyData));
    assert_eq!(check_raw_input(&vec![b'a'; MAX_WRITE_BYTES + 1]), Err(InputError::DataTooLarge));
    assert_eq!(
        InputError::DataTooLarge.message(),
        "terminal data exceeds the 64 KiB limit"
    );
}

#[test]
fn ctrl_c_send_preserves_bytes_and_does_not_start_or_finish_a_turn() {
    let mut session = status(SessionPhase::Running);
    session.apply_hook_event(&hook_event(HookEventKind::PreToolUse), 2);
    let (data, starts_turn) = frame_text_input("\u{3}").unwrap();
    assert_eq!(data, b"\x03");
    assert!(!starts_turn);
    session.accept_input(starts_turn, 3);
    assert_eq!(session.phase, SessionPhase::Running);
    assert_eq!(session.hook.activity, HookActivity::Working);

    let mut idle = status(SessionPhase::Idle);
    idle.accept_input(starts_turn, 3);
    assert_eq!(idle.phase, SessionPhase::Idle);
    assert_eq!(idle.hook.activity, HookActivity::Unknown);

    let (data, starts_turn) = frame_text_input("next task").unwrap();
    assert_eq!(data, b"\x1b[200~next task\x1b[201~\r");
    assert!(starts_turn);

    assert_eq!(frame_text_input(""), Err(InputError::EmptyInput));
    assert_eq!(InputError::EmptyInput.message(), "input must not be empty");
}

#[test]
fn applies_hook_state_without_advancing_the_read_cursor() {
    let mut session = status(SessionPhase::Running);
    let transcript = Transcript::new();
    let mut event = hook_event(HookEventKind::PreToolUse);
    event.cwd = Some("/workspace".to_owned());
    event.tool_name = Some("ask_user_question".to_owned());
    event.message = Some("需要选择".to_owned());
    assert_eq!(session.apply_hook_event_from(&event, Some("/workspace"), "/workspace", 10), Ok(()));

    assert_eq!(session.phase, SessionPhase::Running);
    assert_eq!(session.hook.activity, HookActivity::Waiting);
    assert_eq!(session.hook.tool_name.as_deref(), Some("ask_user_question"));
    assert_eq!(session.hook.waiting_reason.as_deref(), Some("需要选择"));
    assert_eq!(transcript.next_cursor(), 0);
    let read = transcript.read(0, 1).unwrap();
    assert_eq!(read.cursor, 0);
    assert_eq!(read.next_cursor, 0);

    let step = session.wait_step(WaitCondition::TuiIdle, "", 11, true);
    assert_eq!(step, WaitStep::Blocked("需要选择".to_owned()));
}

#[test]
fn wait_steps_follow_the_prompt_the_condition_and_the_deadline() {
    let mut prompted = status(SessionPhase::Running);
    assert_eq!(
        prompted.wait_step(WaitCondition::TuiIdle, "Run Grok Build in a project directory?", 5, false),
        WaitStep::Blocked("grok-project-directory".to_owned())
    );

    let mut idle = status(SessionPhase::Idle);
    assert_eq!(idle.wait_step(WaitCondition::TuiIdle, "", 5, false), WaitStep::Satisfied);

    let mut exited = status(SessionPhase::Exited);
    assert_eq!(exited.wait_step(WaitCondition::TuiIdle, "", 5, false), WaitStep::Unsatisfiable);

    let mut running = status(SessionPhase::Running);
    running.hook.activity = HookActivity::Working;
    running.updated_at_ms = 5;
    assert_eq!(running.wait_step(WaitCondition::TuiIdle, "", 6, false), WaitStep::Pending);
    assert_eq!(running.wait_step(WaitCondition::TuiIdle, "", 6, true), WaitStep::TimedOut);
}

#[test]
fn lease_deadline_and_client_state_transition_at_expiry() {
    let policy = OrphanPolicy {
        lease_ms: 100,
        grace_ms: 200,
    };
    let connected = client_lifecycle(Some(1_000), policy, SessionPhase::Idle, 900, 1_050, false);
    assert_eq!(connected.state, ClientLeaseState::Connected);
    assert_eq!(
        client_lifecycle(Some(1_000), policy, SessionPhase::Idle, 900, 1_099, false).state,
        ClientLeaseState::Connected
    );
    assert_eq!(next_lifecycle_deadline_ms(Some(1_000), policy, 1_099, false), Some(1_100));
    assert_eq!(
        client_lifecycle(Some(1_000), policy, SessionPhase::Idle, 900, 1_100, false).state,
        ClientLeaseState::Orphaned
    );
    assert_eq!(next_lifecycle_deadline_ms(Some(1_000), policy, 1_100, false), None);
    assert_eq!(
        client_lifecycle(Some(1_000), policy, SessionPhase::Idle, 900, 1_101, false).state,
        ClientLeaseState::Orphaned
    );
    assert_eq!(next_lifecycle_deadline_ms(Some(1_000), policy, 1_101, false), None);

    let scheduled = next_lifecycle_deadline_ms(Some(1_000), policy, 1_050, false);
    assert_eq!(scheduled, Some(1_100));
    let due_now = scheduled.unwrap();
    assert_eq!(
        client_lifecycle(Some(1_000), policy, SessionPhase::Idle, 900, due_now, false).state,
        ClientLeaseState::Orphaned
    );
    assert_eq!(next_lifecycle_deadline_ms(Some(1_000), policy, due_now, false), None);
}

#[test]
fn events_api_without_upgrade_stays_http_error() {
    let mut head = begin_http_request(b"GET /api/events HTTP/1.1".to_vec()).unwrap();
    assert_eq!(add_http_header(&mut head, b"Host: 127.0.0.1:47653".to_vec()), Ok(false));
    assert_eq!(
        add_http_header(&mut head, b"Origin: http://127.0.0.1:47653".to_vec()),
        Ok(false)
    );
    assert_eq!(add_http_header(&mut head, Vec::new()), Ok(true));
    assert_eq!(
        validate_events_websocket_request(&head.request),
        Err(HandshakeError::MissingUpgrade)
    );
}

#[test]
fn group_close_reports_each_timeout_and_failure_in_order() {
    let outcomes = vec![
        ("gbt-1".to_owned(), CloseOutcome::Closed),
        ("gbt-2".to_owned(), CloseOutcome::Timeout),
        ("gbt-3".to_owned(), CloseOutcome::Failed("signal refused".to_owned())),
        ("gbt-4".to_owned(), CloseOutcome::Closed),
    ];
    assert_eq!(
        summarize_close_group(&outcomes),
        CloseGroupResult {
            matched: 4,
            closed: 2,
            timed_out: vec![
                "gbt-2: close timed out after the shared group deadline; retry close to continue termination"
                    .to_owned()
            ],
            failures: vec!["gbt-3: signal refused".to_owned()],
        }
    );
}

#[test]
fn client_close_api_reports_an_exact_empty_group() {
    assert_eq!(
        summarize_close_group(&Vec::new()),
        CloseGroupResult { matched: 0, closed: 0, timed_out: Vec::new(), failures: Vec::new() }
    );
}

#[test]
fn close_api_distinguishes_missing_timeout_and_internal_failures() {
    let missing = CloseError::NotFound("missing".to_owned());
    assert_eq!(missing.http_status(), "404 Not Found");
    assert!(missing.message().contains("session not found: missing"));
    assert_eq!(CloseError::Timeout.http_status(), "504 Gateway Timeout");
    assert_eq!(
        CloseError::Timeout.message(),
        "close timed out after 5000 ms; the Grok process is still running; retry close to continue termination"
    );
    let failed = CloseError::Failed("kill refused".to_owned());
    assert_eq!(failed.http_status(), "500 Internal Server Error");
    assert_eq!(failed.message(), "kill refused");
}

#[test]
fn orphan_policy_settings_default_and_refuse_out_of_range_values() {
    assert_eq!(
        OrphanPolicy::from_settings(None, None),
        Ok(OrphanPolicy { lease_ms: 120_000, grace_ms: 600_000 })
    );
    assert_eq!(
        OrphanPolicy::from_settings(Some("30"), Some("604800")),
        Ok(OrphanPolicy { lease_ms: 30_000, grace_ms: 604_800_000 })
    );
    let short = OrphanPolicy::from_settings(Some("29"), None).unwrap_err();
    assert_eq!(short, PolicyError { setting: PolicySetting::Lease, error: DurationError::OutOfRange });
    assert_eq!(short.message(), "GROK_BRIDGE_CODEX_LEASE_SECONDS must be between 30 and 86400 seconds");
    let words = OrphanPolicy::from_settings(None, Some("ten")).unwrap_err();
    assert_eq!(words.setting, PolicySetting::Grace);
    assert_eq!(words.message(), "GROK_BRIDGE_ORPHAN_GRACE_SECONDS must be an integer number of seconds");
    assert_eq!(
        OrphanPolicy::from_settings(None, Some("604801")).unwrap_err().message(),
        "GROK_BRIDGE_ORPHAN_GRACE_SECONDS must be between 60 and 604800 seconds"
    );
    assert_eq!(PolicySetting::Lease.env_name(), "GROK_BRIDGE_CODEX_LEASE_SECONDS");
}

fn race_policy() -> OrphanPolicy {
    OrphanPolicy { lease_ms: 100, grace_ms: 200 }
}

#[test]
fn final_orphan_commit_rechecks_lease_and_blocks_late_input() {
    let policy = race_policy();
    let mut stage = CleanupStage::Unclaimed;
    assert!(stage.claim(orphan_cleanup_due(Some(1_000), policy, SessionPhase::Idle, 900, 1_300)));
    // The client came back before the commit.
    assert!(!stage.commit(orphan_cleanup_due(Some(1_300), policy, SessionPhase::Idle, 900, 1_300)));
    assert_eq!(stage, CleanupStage::Unclaimed);

    assert!(stage.claim(orphan_cleanup_due(Some(1_300), policy, SessionPhase::Idle, 900, 1_600)));
    assert!(stage.commit(orphan_cleanup_due(Some(1_300), policy, SessionPhase::Idle, 900, 1_600)));
    let session = status(SessionPhase::Idle);
    let error = admit_input(false, stage.started(), &session, true, 0, 0, b"new task\r".len()).unwrap_err();
    assert!(error.message().contains("session cleanup has started"));
}

#[test]
fn web_keepalive_refreshes_leases_and_cancels_pending_cleanup() {
    let policy = race_policy();
    let mut stage = CleanupStage::Unclaimed;
    assert!(stage.claim(orphan_cleanup_due(Some(1_000), policy, SessionPhase::Idle, 900, 1_300)));
    assert!(stage.started());
    assert!(stage.cancel());
    assert_eq!(stage, CleanupStage::Unclaimed);
    assert_eq!(
        client_lifecycle(Some(1_350), policy, SessionPhase::Idle, 900, 1_400, stage.started()).state,
        ClientLeaseState::Connected
    );
}

#[test]
fn client_heartbeat_cancels_claim_before_input_is_accepted() {
    let policy = race_policy();
    let mut stage = CleanupStage::Unclaimed;
    assert!(stage.claim(orphan_cleanup_due(Some(1_000), policy, SessionPhase::Idle, 900, 1_300)));
    stage.cancel();
    let mut session = status(SessionPhase::Idle);
    let data = b"resume\r".to_vec();
    let starts_turn = check_raw_input(&data).unwrap();
    assert_eq!(admit_input(false, stage.started(), &session, true, 0, 0, data.len()), Ok(()));
    session.accept_input(starts_turn, 1_300);
    assert_eq!(session.phase, SessionPhase::Running);
}

#[test]
fn a_committed_cleanup_survives_keepalives_and_a_failed_close_is_given_back() {
    let mut stage = CleanupStage::Unclaimed;
    assert!(!stage.claim(false));
    assert!(!stage.commit(true));
    assert!(stage.claim(true));
    assert!(!stage.claim(true));
    assert!(stage.commit(true));
    assert!(!stage.cancel());
    assert_eq!(stage, CleanupStage::Committed);
    stage.reset();
    assert!(!stage.started());
}

#[test]
fn termination_signals_follow_thirds_of_the_budget_with_a_minimum_grace() {
    assert_eq!(escalation_milestones(5_000), (1_666, 3_333));
    assert_eq!(escalation_milestones(600), (500, 1_000));
    assert_eq!(escalation_milestones(0), (500, 1_000));
    assert_eq!(escalation_milestones(1_800), (600, 1_200));
}

#[test]
fn hooks_from_another_directory_are_refused_and_change_nothing() {
    let mut session = status(SessionPhase::Running);
    let before = session.clone();
    let mut event = hook_event(HookEventKind::PreToolUse);
    event.cwd = Some("/elsewhere".to_owned());
    event.tool_name = Some("ask_user_question".to_owned());
    let refusal = session.apply_hook_event_from(&event, Some("/elsewhere"), "/workspace", 10).unwrap_err();
    assert_eq!(refusal, HookRefusal::DirectoryMismatch);
    assert_eq!(refusal.message(), "hook working directory does not match the session");
    assert_eq!(session, before);

    // A hook that names no directory is applied.
    let mut plain = hook_event(HookEventKind::PreToolUse);
    plain.tool_name = Some("ask_user_question".to_owned());
    assert_eq!(session.apply_hook_event_from(&plain, None, "/workspace", 11), Ok(()));
    assert_eq!(session.hook.activity, HookActivity::Waiting);

    // A finished session ignores late hooks, wherever they come from.
    let mut exited = status(SessionPhase::Exited);
    let finished = exited.clone();
    assert_eq!(exited.apply_hook_event_from(&event, Some("/elsewhere"), "/workspace", 12), Ok(()));
    assert_eq!(exited, finished);
}

#[test]
fn a_read_carries_the_transcript_bytes_in_base64() {
    let mut transcript = Transcript::new();
    transcript.append(b"abc".to_vec());
    let read = transcript.read(1, 10).unwrap();
    let result = grok_bridge::transcript::read_result("gbt-1".to_owned(), read, "screen".to_owned(), SessionPhase::Exited);
    assert_eq!(result.session, "gbt-1");
    assert_eq!((result.cursor, result.next_cursor), (1, 3));
    assert_eq!(result.data_base64, "YmM=");
    assert_eq!(result.screen.as_deref(), Some("screen"));
    assert!(result.eof);
    assert!(!result.truncated);
    assert_eq!(result.plain_text, None);
}

#[test]
fn termination_milestones_hold_for_the_largest_budget() {
    let (term, kill) = escalation_milestones(u64::MAX);
    assert_eq!(term, u64::MAX / 3);
    assert_eq!(kill, (u64::MAX as u128 * 2 / 3) as u64);
}

#[test]
fn a_group_close_is_complete_only_without_timeouts_or_failures() {
    let done = CloseGroupResult { matched: 2, closed: 2, timed_out: vec![], failures: vec![] };
    assert!(done.fully_closed());
    let slow = CloseGroupResult {
        matched: 2,
        closed: 1,
        timed_out: vec!["gbt-a".to_string()],
        failures: vec![],
    };
    assert!(!slow.fully_closed());
    let failed = CloseGroupResult {
        matched: 1,
        closed: 0,
        timed_out: vec![],
        failures: vec!["gbt-b: busy".to_string()],
    };
    assert!(!failed.fully_closed());
}
