//! Where the skill is installed, and how an installation is reported.
use vstd::prelude::*;
use crate::hook_config::{
    bytes_opt, initial_document, install_config, installation, installed, shows_update,
    status_config, uninstall_config, uninstallation, document_error, HookConfigError,
    HookFileUpdate,
};
use crate::hooks::{hook_command, unix_hook_command, HookCommandError};
use crate::json::{json_parsed, JsonView};
use crate::session::{join_path, join_path_chars};
use crate::text::{push_str, string_from_chars};

verus! {

broadcast use vstd::string::group_string_axioms;

pub const SKILL_DIR_NAME: &'static str = "grok-build";

/// The directory of prebuilt binaries for an operating system and CPU
/// architecture, as Rust names them (`std::env::consts::OS` and `ARCH`).
pub open spec fn platform_dir_of(os: Seq<char>, arch: Seq<char>) -> Option<Seq<char>> {
    if os == "windows"@ && arch == "x86_64"@ {
        Some("windows-x86_64"@)
    } else if os == "windows"@ && arch == "aarch64"@ {
        Some("windows-arm64"@)
    } else if os == "linux"@ && arch == "x86_64"@ {
        Some("linux-x86_64"@)
    } else if os == "linux"@ && arch == "aarch64"@ {
        Some("linux-arm64"@)
    } else if os == "macos"@ && arch == "x86_64"@ {
        Some("macos-x86_64"@)
    } else if os == "macos"@ && arch == "aarch64"@ {
        Some("macos-arm64"@)
    } else {
        None
    }
}

pub fn platform_dir(os: &str, arch: &str) -> (r: Option<&'static str>)
    ensures
        match r {
            Some(d) => platform_dir_of(os@, arch@) == Some(d@),
            None => platform_dir_of(os@, arch@) is None,
        },
{
    let windows = crate::text::str_eq(os, "windows");
    let linux = crate::text::str_eq(os, "linux");
    let macos = crate::text::str_eq(os, "macos");
    let x86 = crate::text::str_eq(arch, "x86_64");
    let arm = crate::text::str_eq(arch, "aarch64");
    if windows && x86 {
        Some("windows-x86_64")
    } else if windows && arm {
        Some("windows-arm64")
    } else if linux && x86 {
        Some("linux-x86_64")
    } else if linux && arm {
        Some("linux-arm64")
    } else if macos && x86 {
        Some("macos-x86_64")
    } else if macos && arm {
        Some("macos-arm64")
    } else {
        None
    }
}

pub open spec fn binary_name_of(windows: bool) -> Seq<char> {
    if windows {
        "grok-bridge.exe"@
    } else {
        "grok-bridge"@
    }
}

/// The installed executable's file name.
pub fn binary_name(windows: bool) -> (r: &'static str)
    ensures
        r@ == binary_name_of(windows),
{
    if windows {
        "grok-bridge.exe"
    } else {
        "grok-bridge"
    }
}

/// The places an installation uses.
#[derive(Clone, Debug)]
pub struct Paths {
    pub skill_root: String,
    pub installed_binary: String,
    pub hooks_file: String,
}

#[derive(Clone, Copy, Debug, PartialEq, Eq, Structural)]
pub enum PathsError {
    /// Neither `AGENTS_DIR` nor a home directory is known.
    NoAgentsDir,
    /// Neither `GROK_HOME` nor a home directory is known.
    NoGrokHome,
}

impl PathsError {
    pub fn message(&self) -> (r: &'static str)
        ensures
            r@ == (match *self {
                PathsError::NoAgentsDir => "无法确定 Agent Skills 目录；请设置 AGENTS_DIR 或 HOME"@,
                PathsError::NoGrokHome => "无法确定 Grok 主目录；请设置 GROK_HOME 或 HOME"@,
            }),
    {
        match self {
            PathsError::NoAgentsDir => "无法确定 Agent Skills 目录；请设置 AGENTS_DIR 或 HOME",
            PathsError::NoGrokHome => "无法确定 Grok 主目录；请设置 GROK_HOME 或 HOME",
        }
    }
}

pub open spec fn non_empty_of(v: Option<Seq<char>>) -> Option<Seq<char>> {
    match v {
        Some(s) => if s.len() > 0 {
            Some(s)
        } else {
            None
        },
        None => None,
    }
}

pub open spec fn str_opt(v: Option<&str>) -> Option<Seq<char>> {
    match v {
        Some(s) => Some(s@),
        None => None,
    }
}

/// The base directory named by a variable when it is set and not empty, else
/// `leaf` under the home directory.
pub open spec fn base_dir_of(var: Option<Seq<char>>, home: Option<Seq<char>>, leaf: Seq<char>) -> Option<
    Seq<char>,
> {
    match non_empty_of(var) {
        Some(v) => Some(v),
        None => match home {
            Some(h) => Some(join_path(h, leaf)),
            None => None,
        },
    }
}

/// The installation layout for these environment values: the skill under
/// `<agents>/skills/grok-build`, the binary under
/// `<skill>/bin/<platform>/<binary name>`, and the hook file at
/// `<grok home>/hooks/grok-bridge.json`.
pub open spec fn paths_of(
    agents_dir: Option<Seq<char>>,
    grok_home: Option<Seq<char>>,
    home: Option<Seq<char>>,
    platform: Seq<char>,
    windows: bool,
) -> Result<(Seq<char>, Seq<char>, Seq<char>), PathsError> {
    match base_dir_of(agents_dir, home, ".agents"@) {
        None => Err(PathsError::NoAgentsDir),
        Some(agents) => {
            let skill_root = join_path(join_path(agents, "skills"@), SKILL_DIR_NAME@);
            let binary = join_path(
                join_path(join_path(skill_root, "bin"@), platform),
                binary_name_of(windows),
            );
            match base_dir_of(grok_home, home, ".grok"@) {
                None => Err(PathsError::NoGrokHome),
                Some(g) => Ok(
                    (
                        skill_root,
                        binary,
                        join_path(join_path(g, "hooks"@), "grok-bridge.json"@),
                    ),
                ),
            }
        },
    }
}

pub open spec fn paths_view(r: Result<Paths, PathsError>) -> Result<
    (Seq<char>, Seq<char>, Seq<char>),
    PathsError,
> {
    match r {
        Ok(p) => Ok((p.skill_root@, p.installed_binary@, p.hooks_file@)),
        Err(e) => Err(e),
    }
}

fn base_dir(var: Option<&str>, home: Option<&str>, leaf: &str) -> (r: Option<String>)
    ensures
        match r {
            Some(d) => base_dir_of(str_opt(var), str_opt(home), leaf@) == Some(d@),
            None => base_dir_of(str_opt(var), str_opt(home), leaf@) is None,
        },
{
    if let Some(v) = var {
        if !v.is_empty() {
            return Some(v.to_string());
        }
    }
    match home {
        Some(h) => Some(join_path_chars(h, leaf)),
        None => None,
    }
}

impl Paths {
    /// The layout for the values of `AGENTS_DIR`, `GROK_HOME`, the home
    /// directory, the platform directory and whether the host is Windows.
    pub fn from_locations(
        agents_dir: Option<&str>,
        grok_home: Option<&str>,
        home: Option<&str>,
        platform: &str,
        windows: bool,
    ) -> (r: Result<Paths, PathsError>)
        ensures
            paths_view(r) == paths_of(
                str_opt(agents_dir),
                str_opt(grok_home),
                str_opt(home),
                platform@,
                windows,
            ),
    {
        let agents = match base_dir(agents_dir, home, ".agents") {
            Some(a) => a,
            None => return Err(PathsError::NoAgentsDir),
        };
        let skills = join_path_chars(agents.as_str(), "skills");
        let skill_root = join_path_chars(skills.as_str(), SKILL_DIR_NAME);
        let bin = join_path_chars(skill_root.as_str(), "bin");
        let platform_bin = join_path_chars(bin.as_str(), platform);
        let installed_binary = join_path_chars(platform_bin.as_str(), binary_name(windows));
        let grok = match base_dir(grok_home, home, ".grok") {
            Some(g) => g,
            None => return Err(PathsError::NoGrokHome),
        };
        let hooks = join_path_chars(grok.as_str(), "hooks");
        let hooks_file = join_path_chars(hooks.as_str(), "grok-bridge.json");
        Ok(Paths { skill_root, installed_binary, hooks_file })
    }
}

/// What is installed.
#[derive(Clone, Copy, Debug, PartialEq, Eq)]
pub struct InstallationStatus {
    pub binary_installed: bool,
    pub binary_current: bool,
    pub hooks_configured: bool,
}

/// The user-facing summary of an installation status.
pub open spec fn status_text(s: InstallationStatus) -> Seq<char> {
    if s.hooks_configured && s.binary_current {
        "已安装且为最新版本"@
    } else if s.hooks_configured && s.binary_installed {
        "已安装但需要更新"@
    } else if s.binary_installed {
        "二进制已安装，但 Hooks 未配置"@
    } else {
        "未安装"@
    }
}

impl InstallationStatus {
    pub fn display(&self) -> (r: &'static str)
        ensures
            r@ == status_text(*self),
    {
        if self.hooks_configured && self.binary_current {
            "已安装且为最新版本"
        } else if self.hooks_configured && self.binary_installed {
            "已安装但需要更新"
        } else if self.binary_installed {
            "二进制已安装，但 Hooks 未配置"
        } else {
            "未安装"
        }
    }
}

/// Where an installation put the binary and the hook file.
#[derive(Clone, Debug)]
pub struct ApplyResult {
    pub binary: String,
    pub hooks: String,
}

impl ApplyResult {
    /// `二进制 <binary>，Hooks <hooks>`.
    pub fn display(&self) -> (r: String)
        ensures
            r@ == "二进制 "@ + self.binary@ + "，Hooks "@ + self.hooks@,
    {
        let mut out: Vec<char> = Vec::new();
        push_str(&mut out, "二进制 ");
        push_str(&mut out, self.binary.as_str());
        push_str(&mut out, "，Hooks ");
        push_str(&mut out, self.hooks.as_str());
        assert(out@ =~= "二进制 "@ + self.binary@ + "，Hooks "@ + self.hooks@);
        string_from_chars(&out)
    }
}

/// Why the hooks of an installation cannot be installed, checked or
/// uninstalled.
#[derive(Clone, Debug, PartialEq, Eq)]
pub enum InstallError {
    /// No hook command can name the installed binary.
    Command(HookCommandError),
    /// The hook file cannot be read or changed.
    Config(HookConfigError),
    /// Installing left the hooks incomplete.
    HooksNotInstalled,
}

impl InstallError {
    pub fn message(&self) -> (r: String)
        ensures
            match self {
                InstallError::Command(e) => r@ == crate::hooks::hook_command_error_text(*e),
                InstallError::Config(e) => r@ == crate::hook_config::config_error_text(*e),
                InstallError::HooksNotInstalled => r@ == "Hooks 安装失败"@,
            },
    {
        match self {
            InstallError::Command(e) => e.message().to_string(),
            InstallError::Config(e) => e.message(),
            InstallError::HooksNotInstalled => "Hooks 安装失败".to_string(),
        }
    }
}

/// Takes this tool's hooks out of the installation's hook file, whose current
/// bytes are `existing_hooks` (`None` when there is no file); the update says
/// whether the file changed and what to write.
pub fn uninstall(existing_hooks: Option<&[u8]>, paths: &Paths) -> (r: Result<HookFileUpdate, InstallError>)
    ensures
        unix_hook_command(paths.installed_binary@) matches Err(e) ==> r == Err::<
            HookFileUpdate,
            InstallError,
        >(InstallError::Command(e)),
        unix_hook_command(paths.installed_binary@) matches Ok(c) ==> ((existing_hooks is None ==> (r matches Ok(u) && !u.status.installed
            && !u.status.changed && u.status.path@ == paths.hooks_file@ && u.contents is None)) && (existing_hooks matches Some(b) ==> (
            json_parsed(b@) is None ==> r matches Err(InstallError::Config(HookConfigError::Parse(_))))) && (existing_hooks matches Some(b) ==> (
            json_parsed(b@) matches Some(d) ==> match uninstallation(d) {
                Ok((a, changed)) => (r matches Ok(u) && shows_update(u, paths.hooks_file@, a, c, changed)),
                Err(e) => r == Err::<HookFileUpdate, InstallError>(InstallError::Config(e)),
            }))),
        unix_hook_command(paths.installed_binary@) matches Ok(c) ==> (r matches Ok(u) ==> (
            u.contents matches Some(b) ==> (json_parsed(b@) matches Some(p) && uninstallation(p) == Ok::<
                (JsonView, bool),
                HookConfigError,
            >((p, false))))),
{
    let command = match hook_command(paths.installed_binary.as_str()) {
        Ok(c) => c,
        Err(e) => return Err(InstallError::Command(e)),
    };
    match uninstall_config(existing_hooks, paths.hooks_file.as_str(), command.as_str()) {
        Ok(u) => Ok(u),
        Err(e) => Err(InstallError::Config(e)),
    }
}

/// The installation status: the binary facts as found on disk, and whether
/// the hook file (current bytes `existing_hooks`) has the installed hooks
/// for the installed binary.
pub fn status(
    existing_hooks: Option<&[u8]>,
    paths: &Paths,
    binary_installed: bool,
    binary_current: bool,
) -> (r: Result<InstallationStatus, InstallError>)
    ensures
        unix_hook_command(paths.installed_binary@) matches Err(e) ==> r == Err::<
            InstallationStatus,
            InstallError,
        >(InstallError::Command(e)),
        unix_hook_command(paths.installed_binary@) matches Ok(c) ==> ((existing_hooks is None ==> r
            == Ok::<InstallationStatus, InstallError>(
            InstallationStatus { binary_installed, binary_current, hooks_configured: false },
        )) && (existing_hooks matches Some(b) ==> (json_parsed(b@) is None ==> r matches Err(
            InstallError::Config(HookConfigError::Parse(_)),
        ))) && (existing_hooks matches Some(b) ==> (json_parsed(b@) matches Some(d) ==> match document_error(d) {
            Some(e) => r == Err::<InstallationStatus, InstallError>(InstallError::Config(e)),
            None => r == Ok::<InstallationStatus, InstallError>(
                InstallationStatus {
                    binary_installed,
                    binary_current,
                    hooks_configured: installed(d, c),
                },
            ),
        }))),
{
    let command = match hook_command(paths.installed_binary.as_str()) {
        Ok(c) => c,
        Err(e) => return Err(InstallError::Command(e)),
    };
    match status_config(existing_hooks, paths.hooks_file.as_str(), command.as_str()) {
        Ok(s) => Ok(
            InstallationStatus { binary_installed, binary_current, hooks_configured: s.installed },
        ),
        Err(e) => Err(InstallError::Config(e)),
    }
}

/// Installs the hooks for the installed binary into the hook file (current
/// bytes `existing_hooks`) once the binary and skill files are in place; the
/// update says what to write.
pub fn apply_hooks(existing_hooks: Option<&[u8]>, paths: &Paths) -> (r: Result<
    (HookFileUpdate, ApplyResult),
    InstallError,
>)
    ensures
        unix_hook_command(paths.installed_binary@) matches Err(e) ==> r == Err::<
            (HookFileUpdate, ApplyResult),
            InstallError,
        >(InstallError::Command(e)),
        unix_hook_command(paths.installed_binary@) matches Ok(c) ==> ((initial_document(
            bytes_opt(existing_hooks),
        ) is None ==> r matches Err(InstallError::Config(HookConfigError::Parse(_))))
            && (initial_document(bytes_opt(existing_hooks)) matches Some(d) ==> match installation(
            d,
            c,
        ) {
            Ok((a, changed)) => (r matches Ok((u, res)) && shows_update(
                u,
                paths.hooks_file@,
                a,
                c,
                changed,
            ) && u.status.installed && res.binary@ == paths.installed_binary@ && res.hooks@
                == paths.hooks_file@),
            Err(e) => r == Err::<(HookFileUpdate, ApplyResult), InstallError>(
                InstallError::Config(e),
            ),
        })),
        unix_hook_command(paths.installed_binary@) matches Ok(c) ==> (r matches Ok((u, _)) ==> (
            u.contents matches Some(b) ==> (json_parsed(b@) matches Some(p) && installation(p, c) == Ok::<
                (JsonView, bool),
                HookConfigError,
            >((p, false))))),
{
    let command = match hook_command(paths.installed_binary.as_str()) {
        Ok(c) => c,
        Err(e) => return Err(InstallError::Command(e)),
    };
    let update = match install_config(existing_hooks, paths.hooks_file.as_str(), command.as_str()) {
        Ok(u) => u,
        Err(e) => return Err(InstallError::Config(e)),
    };
    proof {
        if let Some(d) = initial_document(bytes_opt(existing_hooks)) {
            crate::hook_config::lemma_installation_installs(d, command@);
        }
    }
    if !update.status.installed {
        return Err(InstallError::HooksNotInstalled);
    }
    let result = ApplyResult {
        binary: paths.installed_binary.clone(),
        hooks: paths.hooks_file.clone(),
    };
    Ok((update, result))
}

} // verus!
