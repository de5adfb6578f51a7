use base64::engine::general_purpose::STANDARD as BASE64;
use base64::Engine;
use grok_bridge::events::{
    closed_cursor_sessions, frame_string, pack_web_events_frames, plan_session_entries,
    split_terminal_entry_to_fit, PackError, TerminalStreamEntry, WebEventsFramePlan,
};
use grok_bridge::transcript::{Transcript, MAX_READ_BYTES, MAX_TRANSCRIPT_BYTES};
use std::collections::HashMap;

const SESSIONS: &str = r#"[{"session":"gbt-test","phase":"running"}]"#;

fn transcript_with(data: Vec<u8>) -> Transcript {
    let mut transcript = Transcript::new();
    transcript.append(data);
    transcript
}

fn apply_frame_commits(cursors: &mut HashMap<String, u64>, frames: &[WebEventsFramePlan]) {
    for frame in frames {
        for (session, cursor) in &frame.cursor_commits {
            cursors.insert(session.clone(), *cursor);
        }
        for session in &frame.cursor_drops {
            cursors.remove(session);
        }
    }
}

#[test]
fn web_events_initial_reset_uses_ansi_snapshot_and_last_cursor() {
    let transcript = transcript_with(b"abc".to_vec());
    let full_ansi = BASE64.encode(b"\x1b[Habc");
    let entries = plan_session_entries("gbt-test", &full_ansi, None, true, &transcript);
    let frames = pack_web_events_frames(SESSIONS, entries, Vec::new(), 1024 * 1024).unwrap();
    assert_eq!(frames.len(), 1);
    let message: serde_json::Value = serde_json::from_str(&frames[0].message).unwrap();
    assert_eq!(message["type"], "sessions");
    assert_eq!(message["sessions"].as_array().unwrap().len(), 1);
    assert_eq!(frames[0].terminals.len(), 1);
    let entry = &frames[0].terminals[0];
    assert!(entry.reset);
    assert_eq!(entry.cursor, 0);
    assert_eq!(entry.next_cursor, 3);
    assert_eq!(entry.data_base64, full_ansi);
    assert_eq!(message["terminals"][0]["next_cursor"], 3);
    assert_eq!(frames[0].cursor_commits, vec![("gbt-test".to_owned(), 3)]);
}

#[test]
fn web_events_drains_past_64kib_across_bounded_frames() {
    let payload = vec![b'x'; MAX_READ_BYTES + 1_024];
    let transcript = transcript_with(payload.clone());
    let cursors = HashMap::from([("gbt-test".to_owned(), 0_u64)]);
    let entries = plan_session_entries("gbt-test", "", cursors.get("gbt-test").copied(), false, &transcript);
    let max_frame = 50_000;
    let frames = pack_web_events_frames(SESSIONS, entries, Vec::new(), max_frame).unwrap();
    assert!(frames.len() >= 2, "expected multi-frame drain, got {}", frames.len());
    for frame in &frames {
        assert!(frame.message.len() <= max_frame, "frame len {} exceeds bound", frame.message.len());
        assert_eq!(frame.message, frame_string(SESSIONS, &frame.terminals));
    }
    let mut decoded = Vec::new();
    for frame in &frames {
        for entry in &frame.terminals {
            assert!(!entry.reset);
            decoded.extend(BASE64.decode(&entry.data_base64).expect("terminal delta must be valid base64"));
        }
    }
    assert_eq!(decoded, payload);
    let mut committed = cursors.clone();
    apply_frame_commits(&mut committed, &frames);
    assert_eq!(committed.get("gbt-test").copied(), Some(payload.len() as u64));
}

#[test]
fn web_events_splits_large_reset_snapshot_with_final_commit_only() {
    let transcript = transcript_with(vec![b'R'; 12_000]);
    let full_ansi = vec![b'R'; 12_000];
    let entries =
        plan_session_entries("gbt-test", &BASE64.encode(&full_ansi), None, true, &transcript);
    let max_frame = 2_500;
    let frames = pack_web_events_frames(SESSIONS, entries, Vec::new(), max_frame).unwrap();
    assert!(frames.len() >= 2, "expected split reset, got {}", frames.len());
    let mut reconstructed = Vec::new();
    let mut saw_reset = false;
    let mut commit_frames = 0_usize;
    for (index, frame) in frames.iter().enumerate() {
        assert!(frame.message.len() <= max_frame, "frame {index} exceeds bound");
        if !frame.cursor_commits.is_empty() {
            commit_frames += 1;
        }
        for entry in &frame.terminals {
            if entry.reset {
                assert!(!saw_reset, "reset must appear only on the first chunk");
                assert_eq!(index, 0);
                saw_reset = true;
            } else {
                assert!(saw_reset, "continuation before reset");
            }
            reconstructed.extend(BASE64.decode(&entry.data_base64).unwrap());
        }
    }
    assert!(saw_reset);
    assert_eq!(reconstructed, full_ansi);
    assert_eq!(commit_frames, 1, "PTY cursor commits only on the final chunk");
    assert_eq!(
        frames.last().unwrap().cursor_commits,
        vec![("gbt-test".to_owned(), 12_000)]
    );
    let mut durable = HashMap::new();
    apply_frame_commits(&mut durable, &frames[..frames.len() - 1]);
    assert!(!durable.contains_key("gbt-test"), "partial send must not commit the PTY cursor");
    apply_frame_commits(&mut durable, &frames[frames.len() - 1..]);
    assert_eq!(durable.get("gbt-test").copied(), Some(12_000));
}

#[test]
fn web_events_sessions_only_oversize_is_a_planning_error() {
    let error = pack_web_events_frames(SESSIONS, Vec::new(), Vec::new(), 8).unwrap_err();
    assert_eq!(error, PackError::SessionsTooLarge);
    let message = error.message(SESSIONS, 8);
    assert!(message.contains("sessions metadata exceeds"));
    let frame_len = frame_string(SESSIONS, &Vec::new()).len();
    assert_eq!(
        message,
        format!("web events sessions metadata exceeds max_message_bytes ({frame_len} > 8)")
    );
    assert_eq!(
        PackError::NoBytesFit.message(SESSIONS, 40),
        "web events cannot fit any terminal payload bytes within max_message_bytes (40)"
    );
}

#[test]
fn web_events_resets_when_client_cursor_is_truncated() {
    let transcript = transcript_with(vec![b'y'; MAX_TRANSCRIPT_BYTES + 4_096]);
    let last_cursor = transcript.next_cursor();
    let entries = plan_session_entries("gbt-test", "", Some(0), false, &transcript);
    let frames = pack_web_events_frames(SESSIONS, entries, Vec::new(), 1024 * 1024).unwrap();
    assert_eq!(frames.len(), 1);
    assert_eq!(frames[0].terminals.len(), 1);
    assert!(frames[0].terminals[0].reset);
    assert_eq!(frames[0].terminals[0].next_cursor, last_cursor);
    assert_eq!(frames[0].cursor_commits, vec![("gbt-test".to_owned(), last_cursor)]);
}

#[test]
fn web_events_resets_for_new_sessions_and_drops_closed_cursors() {
    let transcript = transcript_with(b"hello".to_vec());
    let cursors = HashMap::from([("stale-session".to_owned(), 9_u64)]);
    let keys: Vec<String> = cursors.keys().cloned().collect();
    let drops = closed_cursor_sessions(&keys, &vec!["gbt-test".to_owned()]);
    let entries = plan_session_entries("gbt-test", "", cursors.get("gbt-test").copied(), false, &transcript);
    let frames = pack_web_events_frames(SESSIONS, entries, drops, 1024 * 1024).unwrap();
    assert_eq!(frames[0].terminals.len(), 1);
    assert!(frames[0].terminals[0].reset);
    assert!(frames[0].cursor_drops.iter().any(|session| session == "stale-session"));
    assert!(frames[0].cursor_commits.iter().any(|(session, _)| session == "gbt-test"));
    assert_eq!(cursors.get("stale-session").copied(), Some(9));
}

#[test]
fn up_to_date_clients_get_no_terminal_entries() {
    let transcript = transcript_with(b"hello".to_vec());
    let entries = plan_session_entries("gbt-test", "", Some(5), false, &transcript);
    assert!(entries.is_empty());
    let frames = pack_web_events_frames(SESSIONS, entries, Vec::new(), 4096).unwrap();
    assert_eq!(frames.len(), 1);
    assert!(frames[0].terminals.is_empty());
    let beyond = plan_session_entries("gbt-test", "", Some(6), false, &transcript);
    assert_eq!(beyond.len(), 1);
    assert!(beyond[0].0.reset);
}

#[test]
fn deltas_resume_from_the_client_cursor() {
    let transcript = transcript_with(b"hello world".to_vec());
    let entries = plan_session_entries("s", "", Some(6), false, &transcript);
    assert_eq!(entries.len(), 1);
    let (entry, commit) = &entries[0];
    assert_eq!(entry.cursor, 6);
    assert_eq!(entry.next_cursor, 11);
    assert_eq!(BASE64.decode(&entry.data_base64).unwrap(), b"world");
    assert_eq!(commit, &Some(("s".to_owned(), 11)));
}

#[test]
fn oversized_entries_are_split_and_keep_their_bytes() {
    let data = vec![b'q'; 3_000];
    let entry = TerminalStreamEntry {
        session: "s".to_owned(),
        reset: false,
        cursor: 100,
        next_cursor: 3_100,
        data_base64: BASE64.encode(&data),
    };
    let pieces =
        split_terminal_entry_to_fit(entry, Some(("s".to_owned(), 3_100)), SESSIONS, 1_000).unwrap();
    assert!(pieces.len() >= 3);
    let mut joined = Vec::new();
    let mut expected_cursor = 100;
    for (index, (piece, commit)) in pieces.iter().enumerate() {
        assert_eq!(piece.cursor, expected_cursor);
        expected_cursor = piece.next_cursor;
        joined.extend(BASE64.decode(&piece.data_base64).unwrap());
        if index + 1 == pieces.len() {
            assert_eq!(commit, &Some(("s".to_owned(), 3_100)));
        } else {
            assert!(commit.is_none());
        }
    }
    assert_eq!(expected_cursor, 3_100);
    assert_eq!(joined, data);
}

#[test]
fn split_errors_name_why_an_entry_cannot_fit() {
    let entry = |data: &str| TerminalStreamEntry {
        session: "s".to_owned(),
        reset: false,
        cursor: 0,
        next_cursor: 1,
        data_base64: data.to_owned(),
    };
    let long = "A".repeat(400);
    assert_eq!(
        split_terminal_entry_to_fit(entry("@@@"), None, &long, 300).unwrap_err(),
        PackError::InvalidData
    );
    assert_eq!(
        split_terminal_entry_to_fit(entry(""), None, &long, 300).unwrap_err(),
        PackError::EmptyPayload
    );
    assert_eq!(
        split_terminal_entry_to_fit(entry("QUJD"), None, &long, 300).unwrap_err(),
        PackError::NoBytesFit
    );
    let fitting = split_terminal_entry_to_fit(entry("QUJD"), None, "[]", 300).unwrap();
    assert_eq!(fitting.len(), 1);
    assert_eq!(fitting[0].0.data_base64, "QUJD");
}

#[test]
fn every_piece_of_a_split_fits_even_with_a_long_end_cursor() {
    // The entry's end cursor has far more digits than its start, so the final
    // piece, which keeps it, is longer than the cursor arithmetic suggests.
    let raw = vec![b'z'; 300];
    let entry = TerminalStreamEntry {
        session: "gbt-test".to_owned(),
        reset: false,
        cursor: 0,
        next_cursor: u64::MAX,
        data_base64: BASE64.encode(&raw),
    };
    let max = frame_string(SESSIONS, &vec![TerminalStreamEntry { data_base64: String::new(), ..entry.clone() }]).len() + 120;
    let pieces = split_terminal_entry_to_fit(entry.clone(), Some(("gbt-test".to_owned(), 300)), SESSIONS, max).unwrap();
    assert!(pieces.len() > 1);
    let mut joined = Vec::new();
    for (piece, _) in &pieces {
        assert!(frame_string(SESSIONS, &vec![piece.clone()]).len() <= max);
        joined.extend(BASE64.decode(&piece.data_base64).unwrap());
    }
    assert_eq!(joined, raw);
    assert_eq!(pieces.last().unwrap().0.next_cursor, u64::MAX);
    assert_eq!(pieces.last().unwrap().1, Some(("gbt-test".to_owned(), 300)));
}

#[test]
fn terminal_entries_print_their_fields_in_declaration_order() {
    let entry = TerminalStreamEntry {
        session: "gbt-\"a\"\\\n\u{1}\u{7f}".to_owned(),
        reset: true,
        cursor: 7,
        next_cursor: 12,
        data_base64: "YWJj".to_owned(),
    };
    let text = frame_string("[]", &vec![entry.clone()]);
    assert_eq!(
        text,
        r#"{"type":"sessions","sessions":[],"terminals":[{"session":"gbt-\"a\"\\\n\u0001"#.to_owned()
            + "\u{7f}"
            + r#"","reset":true,"cursor":7,"next_cursor":12,"data_base64":"YWJj"}]}"#
    );
    let parsed: serde_json::Value = serde_json::from_str(&text).unwrap();
    assert_eq!(parsed["terminals"][0]["session"], entry.session);
    assert!(text.contains(&serde_json::to_string(&entry.session).unwrap()));
}
