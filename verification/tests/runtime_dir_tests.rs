use grok_bridge::runtime_dir::{
    ancestor_chain_trusted, bound_socket_verdict, mode_is, private_dir_verdict, runtime_identity,
    runtime_socket_path, select_runtime_dir, stale_socket_verdict, startup_lock_acceptable,
    trusted_runtime_base, windows_runtime_identity, EntryKind, EntryMeta, EntryRefusal, RUNTIME_DIR_MODE, RUNTIME_SOCKET_MODE,
    UNIX_SOCKET_PATH_MAX_BYTES,
};

const UID: u32 = 1000;

fn dir(uid: u32, mode: u32) -> Option<EntryMeta> {
    Some(EntryMeta { kind: EntryKind::Directory, uid, mode: 0o040000 | mode })
}

fn entry(kind: EntryKind, uid: u32, mode: u32) -> Option<EntryMeta> {
    Some(EntryMeta { kind, uid, mode })
}

/// `/`, `/run`, `/run/user` owned by root, then the entries given.
fn chain_under_root(own: &[Option<EntryMeta>]) -> Vec<Option<EntryMeta>> {
    let mut chain = own.to_vec();
    chain.push(dir(0, 0o755));
    chain.push(dir(0, 0o755));
    chain
}

#[test]
fn runtime_identity_is_namespaced_and_stable() {
    let first = runtime_identity(UID);
    let second = runtime_identity(UID);
    assert_eq!(first, second);
    assert!(first.starts_with("grok-bridge-runtime-v1-"));
    assert_eq!(first, "grok-bridge-runtime-v1-u1000");
    assert_eq!(runtime_identity(0), "grok-bridge-runtime-v1-u0");
}

#[test]
fn runtime_socket_path_lives_inside_the_runtime_dir() {
    assert_eq!(
        runtime_socket_path("/run/user/1000", "grok-bridge-runtime-v1-u1000"),
        "/run/user/1000/grok-bridge-runtime-v1-u1000/runtime.sock"
    );
    assert_eq!(runtime_socket_path("/tmp/", "id"), "/tmp/id/runtime.sock");
}

#[test]
fn fresh_dir_is_created_owner_only() {
    assert_eq!(private_dir_verdict(None, UID), Ok(false));
    assert_eq!(private_dir_verdict(dir(UID, 0o755), UID), Ok(true));
    assert_eq!(RUNTIME_DIR_MODE, 0o700);
    assert!(mode_is(0o040700, RUNTIME_DIR_MODE));
    assert!(!mode_is(0o040755, RUNTIME_DIR_MODE));
}

#[test]
fn symlink_dir_is_rejected_without_being_followed() {
    assert_eq!(
        private_dir_verdict(entry(EntryKind::Symlink, UID, 0o777), UID),
        Err(EntryRefusal::Symlink)
    );
}

#[test]
fn regular_file_dir_is_rejected_without_deletion() {
    assert_eq!(
        private_dir_verdict(entry(EntryKind::File, UID, 0o600), UID),
        Err(EntryRefusal::WrongKind(EntryKind::File))
    );
}

#[test]
fn foreign_owner_dir_is_rejected() {
    assert_eq!(
        private_dir_verdict(dir(UID + 1, 0o700), UID),
        Err(EntryRefusal::ForeignOwner(UID + 1))
    );
}

#[test]
fn stale_socket_symlink_is_refused_without_being_followed() {
    assert_eq!(
        stale_socket_verdict(entry(EntryKind::Symlink, UID, 0o777), UID),
        Err(EntryRefusal::Symlink)
    );
}

#[test]
fn stale_socket_wrong_file_type_is_refused_without_deletion() {
    assert_eq!(
        stale_socket_verdict(entry(EntryKind::File, UID, 0o600), UID),
        Err(EntryRefusal::WrongKind(EntryKind::File))
    );
}

#[test]
fn stale_socket_foreign_owner_is_refused() {
    assert_eq!(
        stale_socket_verdict(entry(EntryKind::Socket, UID + 1, 0o600), UID),
        Err(EntryRefusal::ForeignOwner(UID + 1))
    );
}

#[test]
fn owned_stale_socket_is_removed() {
    assert_eq!(stale_socket_verdict(entry(EntryKind::Socket, UID, 0o140600), UID), Ok(true));
}

#[test]
fn missing_stale_socket_is_not_an_error() {
    assert_eq!(stale_socket_verdict(None, UID), Ok(false));
}

#[test]
fn bound_socket_is_owner_only_socket_for_current_user() {
    assert_eq!(RUNTIME_SOCKET_MODE, 0o600);
    assert_eq!(bound_socket_verdict(EntryMeta { kind: EntryKind::Socket, uid: UID, mode: 0o140600 }, UID), Ok(false));
    assert_eq!(bound_socket_verdict(EntryMeta { kind: EntryKind::Socket, uid: UID, mode: 0o140755 }, UID), Ok(true));
    assert_eq!(
        bound_socket_verdict(EntryMeta { kind: EntryKind::Directory, uid: UID, mode: 0o040700 }, UID),
        Err(EntryRefusal::WrongKind(EntryKind::Directory))
    );
    assert!(startup_lock_acceptable(EntryMeta { kind: EntryKind::File, uid: UID, mode: 0o100600 }, UID));
    assert!(!startup_lock_acceptable(EntryMeta { kind: EntryKind::File, uid: UID + 1, mode: 0o100600 }, UID));
}

#[test]
fn runtime_dir_uses_only_absolute_owner_only_xdg_bases() {
    let chain = chain_under_root(&[dir(UID, 0o700), dir(0, 0o755)]);
    let trusted = trusted_runtime_base(
        "/run/user/1000",
        dir(UID, 0o700),
        Some("/run/user/1000".to_owned()),
        &chain,
        &chain,
        UID,
        true,
    );
    assert_eq!(trusted.as_deref(), Some("/run/user/1000"));
    assert_eq!(
        trusted_runtime_base("relative/runtime", dir(UID, 0o700), Some("/x/relative/runtime".to_owned()), &chain, &chain, UID, true),
        None
    );
    assert_eq!(
        trusted_runtime_base("/run/user/1000", dir(UID, 0o700), Some("/run/user/1000".to_owned()), &chain, &chain, UID + 1, true),
        None
    );
    let open = chain_under_root(&[dir(UID, 0o755), dir(0, 0o755)]);
    assert_eq!(
        trusted_runtime_base("/run/user/1000", dir(UID, 0o755), Some("/run/user/1000".to_owned()), &open, &open, UID, true),
        None
    );
    // A fallback base need not be owner-only.
    assert_eq!(
        trusted_runtime_base("/run/user/1000", dir(UID, 0o755), Some("/run/user/1000".to_owned()), &open, &open, UID, false)
            .as_deref(),
        Some("/run/user/1000")
    );
    let bases = vec![None, trusted.clone()];
    assert_eq!(
        select_runtime_dir(&bases, "grok-bridge-runtime-v1-u1000", usize::MAX).as_deref(),
        Some("/run/user/1000/grok-bridge-runtime-v1-u1000")
    );
}

#[test]
fn runtime_base_rejects_replaceable_parent_and_accepts_sticky_parent() {
    let shared_open = chain_under_root(&[dir(UID, 0o700), dir(UID, 0o777)]);
    assert!(!ancestor_chain_trusted(&shared_open, UID, false));
    let shared_sticky = chain_under_root(&[dir(UID, 0o700), dir(UID, 0o1777)]);
    assert!(ancestor_chain_trusted(&shared_sticky, UID, false));
    let foreign_parent = chain_under_root(&[dir(UID, 0o700), dir(UID + 1, 0o755)]);
    assert!(!ancestor_chain_trusted(&foreign_parent, UID, false));
    let missing = vec![dir(UID, 0o700), None];
    assert!(!ancestor_chain_trusted(&missing, UID, false));
}

#[test]
fn symlinks_are_trusted_only_on_the_configured_path_and_with_a_trusted_owner() {
    let linked = chain_under_root(&[dir(UID, 0o700), entry(EntryKind::Symlink, 0, 0o777)]);
    assert!(ancestor_chain_trusted(&linked, UID, true));
    assert!(!ancestor_chain_trusted(&linked, UID, false));
    let foreign_link = chain_under_root(&[dir(UID, 0o700), entry(EntryKind::Symlink, UID + 1, 0o777)]);
    assert!(!ancestor_chain_trusted(&foreign_link, UID, true));
}

#[test]
fn runtime_dir_prefers_a_short_trusted_xdg_base() {
    let bases = vec![Some("/run/user/1000".to_owned()), Some("/tmp".to_owned()), Some("/tmp".to_owned())];
    let chosen = select_runtime_dir(&bases, "grok-bridge-runtime-v1-u1000", UNIX_SOCKET_PATH_MAX_BYTES).unwrap();
    assert_eq!(chosen, "/run/user/1000/grok-bridge-runtime-v1-u1000");
    assert!(format!("{chosen}/runtime.sock").len() <= UNIX_SOCKET_PATH_MAX_BYTES);
}

#[test]
fn runtime_dir_rejects_an_overlong_xdg_base_and_falls_back() {
    let long = format!("/home/test/{}", "a".repeat(150));
    let bases = vec![Some(long.clone()), Some("/var/tmp".to_owned()), Some("/tmp".to_owned())];
    let chosen = select_runtime_dir(&bases, "grok-bridge-runtime-v1-u1000", UNIX_SOCKET_PATH_MAX_BYTES).unwrap();
    assert_eq!(chosen, "/var/tmp/grok-bridge-runtime-v1-u1000");
    assert!(!chosen.starts_with(&long));
    assert_eq!(
        select_runtime_dir(&vec![Some(long), None, None], "grok-bridge-runtime-v1-u1000", UNIX_SOCKET_PATH_MAX_BYTES),
        None
    );
}

#[test]
fn runtime_dir_selection_is_deterministic_for_identical_inputs() {
    let bases = vec![None, Some("/var/tmp".to_owned()), Some("/tmp".to_owned())];
    assert_eq!(
        select_runtime_dir(&bases, "grok-bridge-runtime-v1-u1000", UNIX_SOCKET_PATH_MAX_BYTES),
        select_runtime_dir(&bases, "grok-bridge-runtime-v1-u1000", UNIX_SOCKET_PATH_MAX_BYTES)
    );
}

#[test]
fn the_socket_path_budget_counts_bytes_not_characters() {
    // 28 three-byte characters: 84 bytes of base, which with the identity and
    // file name no longer fit the budget.
    let wide = format!("/{}", "界".repeat(28));
    let bases = vec![Some(wide), Some("/tmp".to_owned())];
    assert_eq!(
        select_runtime_dir(&bases, "grok-bridge-runtime-v1-u1000", UNIX_SOCKET_PATH_MAX_BYTES).as_deref(),
        Some("/tmp/grok-bridge-runtime-v1-u1000")
    );
}

#[test]
fn windows_runtime_names_are_lower_case_domain_and_user() {
    assert_eq!(windows_runtime_identity(Some("Alice"), Some("CORP")), "grok-bridge-runtime-v1-corp-alice");
    assert_eq!(windows_runtime_identity(None, None), "grok-bridge-runtime-v1--default");
    assert_eq!(
        windows_runtime_identity(Some("Jörg Ü"), Some("my.domain")),
        "grok-bridge-runtime-v1-my-domain-j-rg--"
    );
}
