use grok_bridge::hook_config::HookConfigError;
use grok_bridge::install::{
    apply_hooks, binary_name, platform_dir, status, uninstall, ApplyResult, InstallError,
    InstallationStatus, Paths, PathsError,
};

fn paths() -> Paths {
    Paths::from_locations(Some("/a"), Some("/g"), Some("/home/u"), "linux-x86_64", false).unwrap()
}

#[test]
fn is_idempotent() {
    let paths = paths();
    let (first, result) = apply_hooks(None, &paths).unwrap();
    let first_hooks = first.contents.unwrap();
    assert_eq!(result.binary, paths.installed_binary);
    assert_eq!(result.hooks, paths.hooks_file);
    let (second, _) = apply_hooks(Some(&first_hooks), &paths).unwrap();
    assert!(!second.status.changed);
    assert!(second.contents.is_none());
}

#[test]
fn installs_binary_and_configures_hooks() {
    let paths = paths();
    let (update, _) = apply_hooks(None, &paths).unwrap();
    let hooks = update.contents.unwrap();
    let found = status(Some(&hooks), &paths, true, true).unwrap();
    assert!(found.binary_installed);
    assert!(found.hooks_configured);
    assert_eq!(found.display(), "已安装且为最新版本");
}

#[test]
fn layout_follows_the_environment() {
    let paths = paths();
    assert_eq!(paths.skill_root, "/a/skills/grok-build");
    assert_eq!(paths.installed_binary, "/a/skills/grok-build/bin/linux-x86_64/grok-bridge");
    assert_eq!(paths.hooks_file, "/g/hooks/grok-bridge.json");
    let fallback = Paths::from_locations(None, Some(""), Some("/home/u"), "macos-arm64", false).unwrap();
    assert_eq!(fallback.skill_root, "/home/u/.agents/skills/grok-build");
    assert_eq!(fallback.hooks_file, "/home/u/.grok/hooks/grok-bridge.json");
    assert_eq!(
        Paths::from_locations(None, Some("/g"), None, "x", false).unwrap_err(),
        PathsError::NoAgentsDir
    );
    assert_eq!(
        Paths::from_locations(Some("/a"), None, None, "x", false).unwrap_err(),
        PathsError::NoGrokHome
    );
}

#[test]
fn platform_and_binary_names() {
    assert_eq!(platform_dir("linux", "x86_64"), Some("linux-x86_64"));
    assert_eq!(platform_dir("macos", "aarch64"), Some("macos-arm64"));
    assert_eq!(platform_dir("windows", "x86_64"), Some("windows-x86_64"));
    assert_eq!(platform_dir("plan9", "mips"), None);
    assert_eq!(binary_name(true), "grok-bridge.exe");
    assert_eq!(binary_name(false), "grok-bridge");
}

#[test]
fn status_texts_cover_every_state() {
    let status_of = |binary_installed, binary_current, hooks_configured| InstallationStatus {
        binary_installed,
        binary_current,
        hooks_configured,
    };
    assert_eq!(status_of(true, true, true).display(), "已安装且为最新版本");
    assert_eq!(status_of(true, false, true).display(), "已安装但需要更新");
    assert_eq!(status_of(true, false, false).display(), "二进制已安装，但 Hooks 未配置");
    assert_eq!(status_of(false, false, false).display(), "未安装");
    let result = ApplyResult {
        binary: "b".to_owned(),
        hooks: "h".to_owned(),
    };
    assert_eq!(result.display(), "二进制 b，Hooks h");
}

#[test]
fn uninstall_after_install_leaves_no_hooks() {
    let paths = paths();
    let (update, _) = apply_hooks(None, &paths).unwrap();
    let hooks = update.contents.unwrap();
    let removed = uninstall(Some(&hooks), &paths).unwrap();
    assert!(removed.status.changed);
    let remaining = removed.contents.unwrap();
    let found = status(Some(&remaining), &paths, true, false).unwrap();
    assert!(!found.hooks_configured);
    assert_eq!(found.display(), "二进制已安装，但 Hooks 未配置");
}

#[test]
fn broken_hook_files_are_reported() {
    let paths = paths();
    let error = apply_hooks(Some(b"{oops"), &paths).unwrap_err();
    assert!(matches!(error, InstallError::Config(HookConfigError::Parse(_))));
    let error = status(Some(b"[]"), &paths, false, false).unwrap_err();
    assert_eq!(error, InstallError::Config(HookConfigError::RootNotObject));
    assert!(error.message().len() > 0);
}
