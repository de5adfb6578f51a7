use grok_bridge::proc_scan::{scan_process_group, stat_fields, ProcRecord, StatRead};
use grok_bridge::session::{stable_process_group_scan_result, ScopeAlive};

fn stat(pid: u32, state: &str, group: u32) -> ProcRecord {
    ProcRecord::Process(pid, StatRead::Text(format!("{pid} (grok) {state} 1 {group} {group} 0 -1 4194560")))
}

#[test]
fn reads_state_and_process_group_after_the_command_name() {
    assert_eq!(
        stat_fields("1234 (grok) S 1 1234 1234 0 -1 4194560"),
        Some((Some("S".to_owned()), Some(1234)))
    );
    assert_eq!(
        stat_fields("99 (odd) R 5 6) Z 1 42 42 0"),
        Some((Some("Z".to_owned()), Some(42)))
    );
    assert_eq!(stat_fields("99 (cut) R"), Some((Some("R".to_owned()), None)));
    assert_eq!(stat_fields("99 (cut) R 1 x"), Some((Some("R".to_owned()), None)));
    assert_eq!(stat_fields("99 (none) "), Some((None, None)));
    assert_eq!(stat_fields("no command name"), None);
}

#[test]
fn a_group_of_zombies_is_gone_and_a_living_member_keeps_it_alive() {
    let zombies = vec![stat(7, "Z", 42), stat(8, "S", 99), ProcRecord::Process(9, StatRead::Missing), stat(10, "X", 42)];
    assert_eq!(scan_process_group(42, &zombies), (ScopeAlive::Gone, vec![7, 10]));

    let living = vec![stat(7, "Z", 42), stat(11, "S", 42), ProcRecord::Unreadable];
    assert_eq!(scan_process_group(42, &living), (ScopeAlive::Alive, vec![7, 11]));
}

#[test]
fn anything_unreadable_leaves_the_verdict_unknown() {
    assert_eq!(scan_process_group(42, &vec![ProcRecord::Unreadable]).0, ScopeAlive::Unknown);
    assert_eq!(scan_process_group(42, &vec![ProcRecord::Process(3, StatRead::Failed)]).0, ScopeAlive::Unknown);
    assert_eq!(
        scan_process_group(42, &vec![ProcRecord::Process(3, StatRead::Text("garbage".to_owned()))]).0,
        ScopeAlive::Unknown
    );
    assert_eq!(scan_process_group(42, &Vec::new()), (ScopeAlive::Gone, Vec::new()));
}

#[test]
fn scans_list_members_in_increasing_order() {
    let out_of_order = vec![stat(10, "Z", 42), stat(7, "Z", 42), stat(3, "S", 5)];
    assert_eq!(scan_process_group(42, &out_of_order), (ScopeAlive::Gone, vec![7, 10]));
}

#[test]
fn two_zombie_scans_must_report_identical_member_lists() {
    assert_eq!(
        stable_process_group_scan_result((ScopeAlive::Gone, vec![7, 10]), (ScopeAlive::Gone, vec![7, 10])),
        ScopeAlive::Gone
    );
    assert_eq!(
        stable_process_group_scan_result((ScopeAlive::Gone, vec![41, 42]), (ScopeAlive::Gone, vec![42, 41])),
        ScopeAlive::Unknown
    );
    assert_eq!(
        stable_process_group_scan_result((ScopeAlive::Gone, vec![41]), (ScopeAlive::Gone, vec![41, 41])),
        ScopeAlive::Unknown
    );
}
