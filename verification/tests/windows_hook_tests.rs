use base64::Engine as _;
use grok_bridge::hooks::{windows_hook_command, HookCommandError};

fn decoded_script(command: &str) -> String {
    let encoded = command.split_whitespace().next_back().unwrap();
    let bytes = base64::engine::general_purpose::STANDARD.decode(encoded).unwrap();
    let utf16 = bytes
        .chunks_exact(2)
        .map(|chunk| u16::from_le_bytes([chunk[0], chunk[1]]))
        .collect::<Vec<_>>();
    String::from_utf16(&utf16).unwrap()
}

#[test]
fn builds_fast_and_encoded_windows_hook_commands() {
    assert_eq!(
        windows_hook_command(r"C:\tools\grok-bridge.exe", None).unwrap(),
        "C:/tools/grok-bridge.exe __hook"
    );

    let command = windows_hook_command(r"C:\Program Files\Grok Bridge\grok-bridge.exe", None).unwrap();
    assert!(command.contains(" -NoProfile -ExecutionPolicy Bypass -EncodedCommand "));
    assert!(!command.contains("Program Files"));
    let script = decoded_script(&command);
    assert!(script.contains("& 'C:\\Program Files\\Grok Bridge\\grok-bridge.exe' __hook"));
    assert!(script.contains("[Console]::In.ReadToEnd() | Out-Null"));
}

#[test]
fn powershell_runs_from_the_system_root_with_forward_slashes() {
    let command = windows_hook_command(r"C:\Program Files\grok-bridge.exe", Some(r"D:\Win\")).unwrap();
    assert!(command.starts_with("D:/Win/System32/WindowsPowerShell/v1.0/powershell.exe -NoProfile "));
    let default = windows_hook_command(r"C:\Program Files\grok-bridge.exe", None).unwrap();
    assert!(default.starts_with("C:/Windows/System32/WindowsPowerShell/v1.0/powershell.exe -NoProfile "));
}

#[test]
fn quotes_apostrophes_and_encodes_characters_beyond_the_basic_plane() {
    let command = windows_hook_command("C:\\It's 🦀\\grok-bridge.exe", None).unwrap();
    let script = decoded_script(&command);
    assert!(script.contains("& 'C:\\It''s 🦀\\grok-bridge.exe' __hook"));
    assert!(script.starts_with("if (Test-Path -LiteralPath 'C:\\It''s 🦀\\grok-bridge.exe' -PathType Leaf)"));
}

#[test]
fn refuses_control_characters_and_unusable_powershell_paths() {
    assert_eq!(
        windows_hook_command("C:\\bad\npath.exe", None),
        Err(HookCommandError::ControlCharacter)
    );
    let error = windows_hook_command(r"C:\Program Files\grok-bridge.exe", Some(r"C:\My Windows")).unwrap_err();
    assert_eq!(error, HookCommandError::PowerShellPath);
    assert_eq!(error.message(), "Windows PowerShell path cannot be represented in a hook command");
}
