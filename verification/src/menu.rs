//! The installer menu: moving the selection and choosing an action, and the
//! messages that report what an action did.
use vstd::prelude::*;
use crate::install::ApplyResult;
use crate::text::concat;

verus! {

broadcast use vstd::string::group_string_axioms;

/// The number of menu entries.
pub const MENU_ACTION_COUNT: usize = 4;

/// The labels of the menu entries, in order.
pub fn menu_actions() -> (r: Vec<&'static str>)
    ensures
        r@.len() == MENU_ACTION_COUNT,
        r@[0]@ == "安装 / 更新并自动配置 Grok"@,
        r@[1]@ == "移除本工具的 Grok Hooks 配置"@,
        r@[2]@ == "打开 WebUI"@,
        r@[3]@ == "退出"@,
{
    vec!["安装 / 更新并自动配置 Grok", "移除本工具的 Grok Hooks 配置", "打开 WebUI", "退出"]
}

/// A key press as the menu reads it.
#[derive(Clone, Copy, Debug, PartialEq, Eq, Structural)]
pub enum MenuKey {
    Char(char),
    Esc,
    Up,
    Down,
    Enter,
    Other,
}

/// What a key press asks for.
#[derive(Clone, Copy, Debug, PartialEq, Eq, Structural)]
pub enum MenuCommand {
    /// Nothing to do beyond moving the selection.
    Stay,
    Exit,
    Install,
    Uninstall,
    OpenWebUi,
}

/// A key press on the menu: `q`/Esc leave; up/`k` and down/`j` move the
/// selection within the entries; Enter runs the selected entry.
pub open spec fn menu_step(selected: usize, key: MenuKey) -> (usize, MenuCommand) {
    match key {
        MenuKey::Char('q') | MenuKey::Esc => (selected, MenuCommand::Exit),
        MenuKey::Up | MenuKey::Char('k') => (
            if selected > 0 {
                (selected - 1) as usize
            } else {
                0
            },
            MenuCommand::Stay,
        ),
        MenuKey::Down | MenuKey::Char('j') => (
            if selected + 1 < MENU_ACTION_COUNT - 1 {
                (selected + 1) as usize
            } else {
                (MENU_ACTION_COUNT - 1) as usize
            },
            MenuCommand::Stay,
        ),
        MenuKey::Enter => (
            selected,
            if selected == 0 {
                MenuCommand::Install
            } else if selected == 1 {
                MenuCommand::Uninstall
            } else if selected == 2 {
                MenuCommand::OpenWebUi
            } else {
                MenuCommand::Exit
            },
        ),
        _ => (selected, MenuCommand::Stay),
    }
}

/// Applies a key press to the selection (see `menu_step`).
pub fn handle_key(key: MenuKey, selected: &mut usize) -> (r: MenuCommand)
    ensures
        (*final(selected), r) == menu_step(*old(selected), key),
{
    match key {
        MenuKey::Char('q') | MenuKey::Esc => MenuCommand::Exit,
        MenuKey::Up | MenuKey::Char('k') => {
            *selected = selected.saturating_sub(1);
            MenuCommand::Stay
        },
        MenuKey::Down | MenuKey::Char('j') => {
            let s = *selected;
            *selected = if s < MENU_ACTION_COUNT - 2 {
                s + 1
            } else {
                MENU_ACTION_COUNT - 1
            };
            MenuCommand::Stay
        },
        MenuKey::Enter => {
            if *selected == 0 {
                MenuCommand::Install
            } else if *selected == 1 {
                MenuCommand::Uninstall
            } else if *selected == 2 {
                MenuCommand::OpenWebUi
            } else {
                MenuCommand::Exit
            }
        },
        _ => MenuCommand::Stay,
    }
}

/// Moving never takes the selection off the entries.
pub proof fn lemma_selection_stays_on_the_menu(selected: usize, key: MenuKey)
    requires
        selected < MENU_ACTION_COUNT,
    ensures
        menu_step(selected, key).0 < MENU_ACTION_COUNT,
{
}

/// The message after a successful installation.
pub fn installed_message(result: &ApplyResult) -> (r: String)
    ensures
        r@ == "配置完成："@ + "二进制 "@ + result.binary@ + "，Hooks "@ + result.hooks@
            + "；请在 Grok 中确认信任 Hooks。"@,
{
    let shown = result.display();
    let head = concat("配置完成：", shown.as_str());
    proof {
        assert("配置完成："@ + shown@ =~= "配置完成："@ + "二进制 "@ + result.binary@ + "，Hooks "@
            + result.hooks@);
    }
    concat(head.as_str(), "；请在 Grok 中确认信任 Hooks。")
}

/// Which action failed.
#[derive(Clone, Copy, Debug, PartialEq, Eq, Structural)]
pub enum MenuFailure {
    Install,
    Uninstall,
    OpenWebUi,
}

pub open spec fn failure_prefix(f: MenuFailure) -> Seq<char> {
    match f {
        MenuFailure::Install => "配置失败："@,
        MenuFailure::Uninstall => "移除失败："@,
        MenuFailure::OpenWebUi => "打开 WebUI 失败："@,
    }
}

/// The message after a failed action: its prefix and the error.
pub fn failure_message(f: MenuFailure, error: &str) -> (r: String)
    ensures
        r@ == failure_prefix(f) + error@,
{
    let prefix = match f {
        MenuFailure::Install => "配置失败：",
        MenuFailure::Uninstall => "移除失败：",
        MenuFailure::OpenWebUi => "打开 WebUI 失败：",
    };
    concat(prefix, error)
}

/// The message after an uninstall: whether the hooks were there.
pub fn uninstalled_message(changed: bool) -> (r: &'static str)
    ensures
        r@ == if changed {
            "已移除本工具写入的 Grok Hooks 配置。"@
        } else {
            "没有找到本工具写入的 Hooks，未做修改。"@
        },
{
    if changed {
        "已移除本工具写入的 Grok Hooks 配置。"
    } else {
        "没有找到本工具写入的 Hooks，未做修改。"
    }
}

} // verus!
