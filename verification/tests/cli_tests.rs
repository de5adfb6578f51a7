use grok_bridge::cli::{parse_args, Action, CliEnv, CliErrorKind, HooksAction, TerminalOptions};
use grok_bridge::protocol::{Request, WaitCondition};

fn args(values: &[&str]) -> Vec<Option<String>> {
    values.iter().map(|value| Some((*value).to_owned())).collect()
}

fn env() -> CliEnv {
    CliEnv {
        current_dir: Some("/work".to_owned()),
        codex_thread_id: None,
        codex_session_id: None,
    }
}

fn parse(values: &[&str]) -> Result<Action, grok_bridge::cli::CliError> {
    parse_args(&args(values), &env())
}

#[test]
fn parses_wait_and_interrupt_commands() {
    assert!(matches!(
        parse(&["heartbeat"]).unwrap(),
        Action::Rpc {
            request: Request::Heartbeat,
            ..
        }
    ));
    assert!(matches!(
        parse(&["close-codex"]).unwrap(),
        Action::Rpc {
            request: Request::CloseCodex,
            ..
        }
    ));
    let action = parse(&["wait", "--session", "gbt-1", "--for", "tui-idle"]).unwrap();
    assert!(matches!(
        action,
        Action::Rpc {
            request: Request::Wait {
                for_condition: WaitCondition::TuiIdle,
                ..
            },
            ..
        }
    ));

    let action = parse(&["send", "--session", "gbt-1", "--interrupt"]).unwrap();
    assert!(matches!(
        action,
        Action::Rpc {
            request: Request::Send { input, .. },
            ..
        } if input == "\u{3}"
    ));
}

#[test]
fn parses_hook_management_and_hidden_ingress_commands() {
    assert!(matches!(
        parse(&["hooks", "install"]).unwrap(),
        Action::Hooks(HooksAction::Install)
    ));
    assert!(matches!(
        parse(&["hooks", "status"]).unwrap(),
        Action::Hooks(HooksAction::Status)
    ));
    assert!(matches!(
        parse(&["hooks", "uninstall"]).unwrap(),
        Action::Hooks(HooksAction::Uninstall)
    ));
    assert!(matches!(parse(&["__hook"]).unwrap(), Action::InternalHook));
    assert!(parse(&["__hook", "extra"]).is_err());
}

#[test]
fn rejects_duplicate_and_conflicting_options() {
    assert!(parse(&["show", "--session", "one", "--session", "two"]).is_err());
    assert!(parse(&["send", "--session", "one", "--text", "hello", "--interrupt"]).is_err());
    assert!(parse(&["terminal", "--session", "one", "--prompt", "new task"]).is_err());
}

#[test]
fn parses_terminal_attach_and_create_modes() {
    let attach = parse(&["terminal", "--session", "gbt-1"]).unwrap();
    assert!(matches!(
        attach,
        Action::Terminal(TerminalOptions {
            session: Some(session),
            ..
        }) if session == "gbt-1"
    ));

    let create = parse(&["terminal", "--prompt", "修复中文", "--always-approve"]).unwrap();
    assert!(matches!(
        create,
        Action::Terminal(TerminalOptions {
            session: None,
            prompt: Some(prompt),
            always_approve: true,
            ..
        }) if prompt == "修复中文"
    ));
}

#[test]
fn create_defaults_to_the_current_directory_and_codex_owner() {
    let env = CliEnv {
        current_dir: Some("/work".to_owned()),
        codex_thread_id: Some("thread-7".to_owned()),
        codex_session_id: Some("session-9".to_owned()),
    };
    let action = parse_args(&args(&["create", "--prompt", "hi"]), &env).unwrap();
    assert_eq!(
        action,
        Action::Rpc {
            request: Request::Create {
                cwd: "/work".to_owned(),
                prompt: Some("hi".to_owned()),
                model: None,
                owner: Some("thread-7".to_owned()),
                always_approve: false,
            },
            auto_start: true,
        }
    );
    let no_dir = CliEnv {
        current_dir: None,
        codex_thread_id: None,
        codex_session_id: None,
    };
    let error = parse_args(&args(&["create"]), &no_dir).unwrap_err();
    assert_eq!(error.kind, CliErrorKind::NoCurrentDir);
}

#[test]
fn reads_numeric_options_and_reports_bad_numbers() {
    let action = parse(&[
        "read", "--session", "gbt-1", "--cursor", "10", "--limit", "4096", "--wait-ms", "250",
    ])
    .unwrap();
    assert_eq!(
        action,
        Action::Rpc {
            request: Request::Read {
                session: "gbt-1".to_owned(),
                cursor: Some(10),
                limit: Some(4096),
                wait_ms: Some(250),
            },
            auto_start: true,
        }
    );
    let error = parse(&["read", "--session", "gbt-1", "--cursor", "ten"]).unwrap_err();
    assert_eq!(error.kind, CliErrorKind::InvalidDigit);
    assert_eq!(
        error.message(),
        "invalid value for --cursor: ten: invalid digit found in string"
    );
    let error = parse(&["resize", "--session", "s", "--cols", "70000", "--rows", "5"]).unwrap_err();
    assert_eq!(error.kind, CliErrorKind::NumberTooLarge);
}

#[test]
fn server_commands_choose_whether_to_start_the_runtime() {
    assert_eq!(
        parse(&["server", "start"]).unwrap(),
        Action::Rpc {
            request: Request::ServerStatus,
            auto_start: true
        }
    );
    assert_eq!(
        parse(&["server", "status"]).unwrap(),
        Action::Rpc {
            request: Request::ServerStatus,
            auto_start: false
        }
    );
    assert_eq!(
        parse(&["server", "stop"]).unwrap(),
        Action::Rpc {
            request: Request::ServerStop,
            auto_start: false
        }
    );
    assert_eq!(parse(&["server", "ui"]).unwrap(), Action::ServerUi);
}

#[test]
fn unknown_commands_and_missing_options_are_named_in_the_error() {
    let error = parse(&["frobnicate"]).unwrap_err();
    assert_eq!(error.message(), "unknown command: frobnicate");
    let error = parse(&["show"]).unwrap_err();
    assert_eq!(error.message(), "missing required option: --session");
    let error = parse(&["show", "--bogus", "x"]).unwrap_err();
    assert_eq!(error.message(), "unknown option: --bogus");
    assert_eq!(parse(&[]).unwrap(), Action::Help);
    assert_eq!(parse(&["--version"]).unwrap(), Action::Version);
}
