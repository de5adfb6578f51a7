use grok_bridge::install::ApplyResult;
use grok_bridge::menu::{
    failure_message, handle_key, installed_message, menu_actions, uninstalled_message, MenuCommand,
    MenuFailure, MenuKey, MENU_ACTION_COUNT,
};

#[test]
fn handle_key_quit_on_q() {
    let mut selected = 0;
    let command = handle_key(MenuKey::Char('q'), &mut selected);
    assert_eq!(command, MenuCommand::Exit, "pressing 'q' should exit");
}

#[test]
fn handle_key_quit_on_esc() {
    let mut selected = 0;
    let command = handle_key(MenuKey::Esc, &mut selected);
    assert_eq!(command, MenuCommand::Exit, "pressing Esc should exit");
}

#[test]
fn handle_key_navigation() {
    let mut selected = 1;
    handle_key(MenuKey::Up, &mut selected);
    assert_eq!(selected, 0, "up arrow should decrease selection");
    handle_key(MenuKey::Down, &mut selected);
    assert_eq!(selected, 1, "down arrow should increase selection");
    handle_key(MenuKey::Char('j'), &mut selected);
    assert_eq!(selected, 2, "'j' should increase selection");
    handle_key(MenuKey::Char('k'), &mut selected);
    assert_eq!(selected, 1, "'k' should decrease selection");
}

#[test]
fn handle_key_up_at_zero_stays_at_bound() {
    let mut selected = 0;
    handle_key(MenuKey::Up, &mut selected);
    assert_eq!(selected, 0, "up arrow at index 0 should stay at 0");
    handle_key(MenuKey::Char('k'), &mut selected);
    assert_eq!(selected, 0, "'k' at index 0 should stay at 0");
}

#[test]
fn handle_key_down_at_last_item_stays_at_bound() {
    let mut selected = menu_actions().len() - 1;
    handle_key(MenuKey::Down, &mut selected);
    assert_eq!(selected, MENU_ACTION_COUNT - 1, "down arrow at last item should stay");
    handle_key(MenuKey::Char('j'), &mut selected);
    assert_eq!(selected, MENU_ACTION_COUNT - 1, "'j' at last item should stay");
}

#[test]
fn handle_key_exit_action() {
    let mut selected = 3;
    let command = handle_key(MenuKey::Enter, &mut selected);
    assert_eq!(
        command,
        MenuCommand::Exit,
        "selecting exit action (3) and pressing Enter should exit"
    );
}

#[test]
fn enter_runs_the_selected_action_and_other_keys_do_nothing() {
    let mut selected = 0;
    assert_eq!(handle_key(MenuKey::Enter, &mut selected), MenuCommand::Install);
    selected = 1;
    assert_eq!(handle_key(MenuKey::Enter, &mut selected), MenuCommand::Uninstall);
    selected = 2;
    assert_eq!(handle_key(MenuKey::Enter, &mut selected), MenuCommand::OpenWebUi);
    assert_eq!(handle_key(MenuKey::Char('x'), &mut selected), MenuCommand::Stay);
    assert_eq!(handle_key(MenuKey::Other, &mut selected), MenuCommand::Stay);
    assert_eq!(selected, 2);
}

#[test]
fn every_key_keeps_the_selection_on_the_menu() {
    let keys = [
        MenuKey::Up,
        MenuKey::Down,
        MenuKey::Char('j'),
        MenuKey::Char('k'),
        MenuKey::Enter,
        MenuKey::Esc,
        MenuKey::Other,
    ];
    for start in 0..MENU_ACTION_COUNT {
        for key in keys {
            let mut selected = start;
            handle_key(key, &mut selected);
            assert!(selected < MENU_ACTION_COUNT);
        }
    }
}

#[test]
fn menu_messages_describe_the_outcome() {
    let result = ApplyResult {
        binary: "/s/bin/grok-bridge".to_owned(),
        hooks: "/g/hooks/grok-bridge.json".to_owned(),
    };
    assert_eq!(
        installed_message(&result),
        "配置完成：二进制 /s/bin/grok-bridge，Hooks /g/hooks/grok-bridge.json；请在 Grok 中确认信任 Hooks。"
    );
    assert_eq!(failure_message(MenuFailure::Uninstall, "boom"), "移除失败：boom");
    assert_eq!(uninstalled_message(true), "已移除本工具写入的 Grok Hooks 配置。");
    assert_eq!(uninstalled_message(false), "没有找到本工具写入的 Hooks，未做修改。");
    assert_eq!(menu_actions()[3], "退出");
}
