use grok_bridge::tombstone::{ClosedHandles, CLOSED_TOMBSTONE_CAP, CLOSED_TOMBSTONE_TTL_MS};

const NOW: u64 = 5_000_000_000;

#[test]
fn tombstone_eviction_keeps_recent_handles() {
    let mut closed = ClosedHandles::new();
    for index in 0..CLOSED_TOMBSTONE_CAP {
        closed.remember(&format!("old-{index}"), NOW - (CLOSED_TOMBSTONE_TTL_MS + 1));
    }
    closed.remember("recent", NOW);
    closed.remember("newest", NOW);
    assert!(closed.was_closed("recent", NOW));
    assert!(closed.was_closed("newest", NOW));
    assert!(!closed.was_closed("old-0", NOW));
}

#[test]
fn a_full_record_keeps_exactly_the_newer_half() {
    let mut closed = ClosedHandles::new();
    for index in 0..CLOSED_TOMBSTONE_CAP as u64 {
        closed.remember(&format!("h-{index}"), 1_000 + index);
    }
    assert_eq!(closed.len(), CLOSED_TOMBSTONE_CAP);
    closed.remember("last", 1_000 + CLOSED_TOMBSTONE_CAP as u64);
    assert_eq!(closed.len(), CLOSED_TOMBSTONE_CAP / 2 + 1);
    let half = (CLOSED_TOMBSTONE_CAP / 2) as u64;
    assert!(!closed.was_closed(&format!("h-{}", half - 1), 2_000));
    assert!(closed.was_closed(&format!("h-{half}"), 2_000));
    assert!(closed.was_closed(&format!("h-{}", CLOSED_TOMBSTONE_CAP - 1), 2_000));
    assert!(closed.was_closed("last", 2_000));
}

#[test]
fn a_closed_handle_is_remembered_for_the_time_to_live() {
    let mut closed = ClosedHandles::new();
    assert!(!closed.was_closed("gbt-1", NOW));
    closed.remember("gbt-1", NOW);
    assert!(closed.was_closed("gbt-1", NOW));
    assert!(closed.was_closed("gbt-1", NOW + CLOSED_TOMBSTONE_TTL_MS));
    assert!(!closed.was_closed("gbt-1", NOW + CLOSED_TOMBSTONE_TTL_MS + 1));
    assert!(!closed.was_closed("gbt-2", NOW));
    assert!(closed.was_closed("gbt-1", NOW - 10));
}

#[test]
fn closing_a_handle_again_replaces_its_entry() {
    let mut closed = ClosedHandles::new();
    closed.remember("gbt-1", NOW);
    closed.remember("gbt-1", NOW + CLOSED_TOMBSTONE_TTL_MS);
    assert_eq!(closed.len(), 1);
    assert!(closed.was_closed("gbt-1", NOW + 2 * CLOSED_TOMBSTONE_TTL_MS));
}
