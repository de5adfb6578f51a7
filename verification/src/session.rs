//! The decisions a runtime session makes: how terminal output, process exit
//! and lifecycle hooks move its phase, how the client lease turns into an
//! orphan cleanup, what the output transcript keeps and reads back, and how
//! terminal input is framed.
use crate::protocol::{HookActivity, HookEvent, HookEventKind, SessionPhase};
use crate::text::{
    ascii_lowercase, chars_contain_str, chars_end_with_str, chars_eq_str, chars_of,
    chars_to_ascii_lower, contains, ends_with, opt_chars, opt_chars_of, str_contains, trim,
    trim_chars,
};
use vstd::prelude::*;

verus! {

broadcast use vstd::string::group_string_axioms;

// ---------------------------------------------------------------------------
// Phases
// ---------------------------------------------------------------------------

pub open spec fn is_active(phase: SessionPhase) -> bool {
    phase == SessionPhase::Starting || phase == SessionPhase::Running || phase
        == SessionPhase::Idle
}

pub open spec fn is_terminal(phase: SessionPhase) -> bool {
    phase == SessionPhase::Exited || phase == SessionPhase::Failed || phase
        == SessionPhase::Stopped
}

pub fn phase_is_active(phase: SessionPhase) -> (r: bool)
    ensures
        r == is_active(phase),
{
    match phase {
        SessionPhase::Starting | SessionPhase::Running | SessionPhase::Idle => true,
        _ => false,
    }
}

pub fn phase_is_terminal(phase: SessionPhase) -> (r: bool)
    ensures
        r == is_terminal(phase),
{
    match phase {
        SessionPhase::Exited | SessionPhase::Failed | SessionPhase::Stopped => true,
        _ => false,
    }
}

/// Orphan cleanup may only close a session that is idle or already over.
pub fn phase_is_safe_for_orphan_cleanup(phase: SessionPhase) -> (r: bool)
    ensures
        r == (phase == SessionPhase::Idle || is_terminal(phase)),
{
    phase == SessionPhase::Idle || phase_is_terminal(phase)
}

pub open spec fn projected(phase: SessionPhase, hook: HookActivity) -> HookActivity {
    if is_terminal(phase) {
        if hook == HookActivity::Working || hook == HookActivity::Waiting {
            HookActivity::Unknown
        } else {
            hook
        }
    } else if phase == SessionPhase::Idle && hook == HookActivity::Working {
        HookActivity::Done
    } else {
        hook
    }
}

/// The hook activity that clients observe: a terminal phase overrides a stale
/// in-flight hook, and an idle TUI resolves a stale working hook to done.
pub fn projected_activity(phase: SessionPhase, hook_activity: HookActivity) -> (r: HookActivity)
    ensures
        r == projected(phase, hook_activity),
{
    if phase_is_terminal(phase) {
        if hook_activity == HookActivity::Working || hook_activity == HookActivity::Waiting {
            HookActivity::Unknown
        } else {
            hook_activity
        }
    } else if phase == SessionPhase::Idle && hook_activity == HookActivity::Working {
        HookActivity::Done
    } else {
        hook_activity
    }
}

pub open spec fn completed(
    current: SessionPhase,
    process_done: bool,
    reader_done: bool,
    shutdown: bool,
    failed: bool,
    exit_code: Option<u32>,
) -> Option<SessionPhase> {
    if is_terminal(current) || !process_done {
        None
    } else if shutdown {
        Some(SessionPhase::Stopped)
    } else if !reader_done {
        None
    } else if failed || exit_code != Some(0u32) {
        Some(SessionPhase::Failed)
    } else {
        Some(SessionPhase::Exited)
    }
}

/// The terminal phase a session enters once its process is done: `Stopped`
/// after an explicit close, otherwise (once the reader reached EOF) `Exited`
/// for a clean zero exit and `Failed` for anything else.
pub fn completed_phase(
    current: SessionPhase,
    process_done: bool,
    reader_done: bool,
    shutdown: bool,
    failed: bool,
    exit_code: Option<u32>,
) -> (r: Option<SessionPhase>)
    ensures
        r == completed(current, process_done, reader_done, shutdown, failed, exit_code),
{
    if phase_is_terminal(current) {
        return None;
    }
    if !process_done {
        return None;
    }
    if shutdown {
        Some(SessionPhase::Stopped)
    } else if !reader_done {
        None
    } else if failed || exit_code != Some(0u32) {
        Some(SessionPhase::Failed)
    } else {
        Some(SessionPhase::Exited)
    }
}

/// How a session that is still live finishes once its process is done: an
/// explicit close stops it; otherwise, once its output has ended, it exits
/// cleanly exactly when nothing failed and the process exit code is 0, and
/// fails for every other exit code (or none); before the output has ended it
/// does not finish yet. A session already exited, failed or stopped, or whose
/// process is still running, does not change.
pub proof fn lemma_completed_phase_outcome(
    current: SessionPhase,
    process_done: bool,
    reader_done: bool,
    shutdown: bool,
    failed: bool,
    exit_code: Option<u32>,
)
    ensures
        (current == SessionPhase::Exited || current == SessionPhase::Failed || current
            == SessionPhase::Stopped || !process_done) ==> completed(
            current,
            process_done,
            reader_done,
            shutdown,
            failed,
            exit_code,
        ) is None,
        (current == SessionPhase::Starting || current == SessionPhase::Running || current
            == SessionPhase::Idle) && process_done ==> {
            let r = completed(current, process_done, reader_done, shutdown, failed, exit_code);
            &&& shutdown ==> r == Some(SessionPhase::Stopped)
            &&& !shutdown && !reader_done ==> r is None
            &&& !shutdown && reader_done && !failed && exit_code == Some(0u32) ==> r == Some(
                SessionPhase::Exited,
            )
            &&& !shutdown && reader_done && failed ==> r == Some(SessionPhase::Failed)
            &&& !shutdown && reader_done && exit_code != Some(0u32) ==> r == Some(
                SessionPhase::Failed,
            )
        },
{
}

pub open spec fn is_braille(c: char) -> bool {
    0x2800 <= (c as u32) <= 0x28ff
}

pub open spec fn braille_spinner(title: Seq<char>) -> bool {
    title.len() > 0 && is_braille(title[0])
}

pub fn title_has_braille_spinner(title: &str) -> (r: bool)
    ensures
        r == braille_spinner(title@),
{
    let v = chars_of(title);
    v.len() > 0 && {
        let u = v[0] as u32;
        0x2800 <= u && u <= 0x28ff
    }
}

pub open spec fn title_phase(title: Option<Seq<char>>) -> Option<SessionPhase> {
    match title {
        None => None,
        Some(t) => {
            let title = trim(t);
            let lower = ascii_lowercase(title);
            if braille_spinner(title) && (ends_with(lower, "grok"@) || contains(
                lower,
                " - grok"@,
            )) {
                Some(SessionPhase::Running)
            } else if lower == "grok"@ || ends_with(lower, " - grok"@) {
                Some(SessionPhase::Idle)
            } else {
                None
            }
        },
    }
}

/// Grok's window title: a braille spinner in front of `... - grok` while a
/// turn runs, plain `grok` or `... - grok` when it is idle.
pub fn phase_from_title(title: Option<&str>) -> (r: Option<SessionPhase>)
    ensures
        r == title_phase(match title {
            Some(t) => Some(t@),
            None => None,
        }),
{
    let t = match title {
        Some(t) => t,
        None => return None,
    };
    let raw = chars_of(t);
    let title = trim_chars(&raw);
    let lower = chars_to_ascii_lower(&title);
    let trimmed = crate::text::string_from_chars(&title);
    let spinner = title_has_braille_spinner(trimmed.as_str());
    if spinner && (chars_end_with_str(&lower, "grok") || chars_contain_str(&lower, " - grok")) {
        return Some(SessionPhase::Running);
    }
    if chars_eq_str(&lower, "grok") || chars_end_with_str(&lower, " - grok") {
        return Some(SessionPhase::Idle);
    }
    None
}

pub open spec fn after_output(
    current: SessionPhase,
    title: Option<Seq<char>>,
    title_updated: bool,
    hook: HookActivity,
    process_done: bool,
    failed: bool,
    shutdown: bool,
) -> SessionPhase {
    if is_terminal(current) || process_done || failed || shutdown {
        current
    } else if title_updated && title_phase(title) is Some {
        title_phase(title)->0
    } else if hook == HookActivity::Done {
        SessionPhase::Idle
    } else if hook == HookActivity::Waiting || current == SessionPhase::Starting {
        SessionPhase::Running
    } else {
        current
    }
}

/// The phase after new terminal output: a freshly set Grok title decides;
/// otherwise a finished hook makes the session idle, and a hook that waits on
/// the user, or a session still starting, makes it running.
pub fn phase_after_output(
    current: SessionPhase,
    title: Option<&str>,
    title_updated: bool,
    hook_activity: HookActivity,
    process_done: bool,
    failed: bool,
    shutdown: bool,
) -> (r: SessionPhase)
    ensures
        r == after_output(
            current,
            match title {
                Some(t) => Some(t@),
                None => None,
            },
            title_updated,
            hook_activity,
            process_done,
            failed,
            shutdown,
        ),
{
    if phase_is_terminal(current) || process_done || failed || shutdown {
        return current;
    }
    if title_updated {
        if let Some(phase) = phase_from_title(title) {
            return phase;
        }
    }
    if hook_activity == HookActivity::Done {
        SessionPhase::Idle
    } else if hook_activity == HookActivity::Waiting || current == SessionPhase::Starting {
        SessionPhase::Running
    } else {
        current
    }
}

pub open spec fn screen_blocked_reason(screen: Seq<char>) -> Option<Seq<char>> {
    if contains(screen, "Run Grok Build in a project directory?"@) {
        Some("grok-project-directory"@)
    } else if contains(screen, "Type your answer here"@) || contains(screen, "Enter:submit"@) {
        Some("grok-interactive-prompt"@)
    } else {
        None
    }
}

/// An interactive Grok prompt on the screen that a waiting client must answer.
pub fn blocked_reason(screen: &str) -> (r: Option<&'static str>)
    ensures
        match r {
            Some(reason) => screen_blocked_reason(screen@) == Some(reason@),
            None => screen_blocked_reason(screen@) is None,
        },
{
    if str_contains(screen, "Run Grok Build in a project directory?") {
        Some("grok-project-directory")
    } else if str_contains(screen, "Type your answer here") || str_contains(
        screen,
        "Enter:submit",
    ) {
        Some("grok-interactive-prompt")
    } else {
        None
    }
}

/// Raw terminal bytes start a turn when they submit a line.
pub fn raw_input_starts_turn(data: &[u8]) -> (r: bool)
    ensures
        r == exists|i: int| 0 <= i < data@.len() && (data@[i] == 0x0d || data@[i] == 0x0a),
{
    let mut i: usize = 0;
    while i < data.len()
        invariant
            i <= data@.len(),
            forall|k: int| 0 <= k < i ==> data@[k] != 0x0d && data@[k] != 0x0a,
        decreases data.len() - i,
    {
        if data[i] == 0x0d || data[i] == 0x0a {
            return true;
        }
        i = i + 1;
    }
    false
}


// ---------------------------------------------------------------------------
// Lifecycle hooks
// ---------------------------------------------------------------------------

/// What one lifecycle hook does to the session's hook activity.
#[derive(Clone, Debug, PartialEq, Eq)]
pub enum HookEffect {
    Reset,
    Working { tool_name: Option<String> },
    Waiting { tool_name: Option<String>, reason: String },
    Done,
    RecordOnly,
}

pub enum HookEffectView {
    Reset,
    Working(Option<Seq<char>>),
    Waiting(Option<Seq<char>>, Seq<char>),
    Done,
    RecordOnly,
}

pub open spec fn opt_view(value: Option<String>) -> Option<Seq<char>> {
    match value {
        Some(v) => Some(v@),
        None => None,
    }
}

impl View for HookEffect {
    type V = HookEffectView;

    open spec fn view(&self) -> HookEffectView {
        match self {
            HookEffect::Reset => HookEffectView::Reset,
            HookEffect::Working { tool_name } => HookEffectView::Working(opt_view(*tool_name)),
            HookEffect::Waiting { tool_name, reason } => HookEffectView::Waiting(
                opt_view(*tool_name),
                reason@,
            ),
            HookEffect::Done => HookEffectView::Done,
            HookEffect::RecordOnly => HookEffectView::RecordOnly,
        }
    }
}

pub open spec fn ask_user_question(tool_name: Option<Seq<char>>) -> bool {
    tool_name matches Some(n) && ascii_lowercase(n) == "ask_user_question"@
}

pub fn is_ask_user_question(tool_name: Option<&str>) -> (r: bool)
    ensures
        r == ask_user_question(match tool_name {
            Some(t) => Some(t@),
            None => None,
        }),
{
    match tool_name {
        Some(name) => {
            let v = chars_of(name);
            let lower = chars_to_ascii_lower(&v);
            chars_eq_str(&lower, "ask_user_question")
        },
        None => false,
    }
}

/// A notification type or level that asks the user something.
pub open spec fn waiting_word(x: Seq<char>) -> bool {
    x == "permission"@ || x == "question"@ || x == "ask_user_question"@ || x == "elicitation"@
        || x == "elicitation_dialog"@
}

/// A notification type or level that waits for the next user prompt.
pub open spec fn input_word(x: Seq<char>) -> bool {
    x == "idle_prompt"@ || x == "input_prompt"@ || x == "input_required"@ || x == "user_input"@
        || x == "waiting_for_input"@
}

pub open spec fn waiting_message(message: Seq<char>) -> bool {
    let lower = ascii_lowercase(message);
    ||| contains(lower, "permission"@)
    ||| contains(lower, "approval"@)
    ||| contains(lower, "approve"@)
    ||| contains(lower, "question"@)
    ||| contains(message, "权限"@)
    ||| contains(message, "授权"@)
    ||| contains(message, "批准"@)
    ||| contains(message, "问题"@)
    ||| contains(message, "确认"@)
}

pub open spec fn input_message(message: Seq<char>) -> bool {
    let lower = ascii_lowercase(message);
    ||| contains(lower, "waiting for input"@)
    ||| contains(lower, "waiting for your input"@)
    ||| contains(message, "请输入"@)
    ||| contains(message, "等待输入"@)
    ||| contains(message, "需要输入"@)
}

pub open spec fn notification_effect_of(event: HookEvent) -> HookEffectView {
    let kind = ascii_lowercase(trim(opt_chars(event.notification_type)));
    let level = ascii_lowercase(trim(opt_chars(event.level)));
    let message = opt_chars(event.message);
    if kind == "permission_prompt"@ {
        HookEffectView::RecordOnly
    } else if waiting_word(kind) || waiting_word(level) || waiting_message(message) {
        HookEffectView::Waiting(
            opt_view(event.tool_name),
            match event.message {
                Some(m) => m@,
                None => match event.notification_type {
                    Some(t) => t@,
                    None => "grok-hook-waiting"@,
                },
            },
        )
    } else if input_word(kind) || input_word(level) || input_message(message) {
        HookEffectView::Done
    } else {
        HookEffectView::RecordOnly
    }
}

fn is_waiting_word(x: &Vec<char>) -> (r: bool)
    ensures
        r == waiting_word(x@),
{
    chars_eq_str(x, "permission") || chars_eq_str(x, "question") || chars_eq_str(
        x,
        "ask_user_question",
    ) || chars_eq_str(x, "elicitation") || chars_eq_str(x, "elicitation_dialog")
}

fn is_input_word(x: &Vec<char>) -> (r: bool)
    ensures
        r == input_word(x@),
{
    chars_eq_str(x, "idle_prompt") || chars_eq_str(x, "input_prompt") || chars_eq_str(
        x,
        "input_required",
    ) || chars_eq_str(x, "user_input") || chars_eq_str(x, "waiting_for_input")
}

fn is_waiting_message(message: &Vec<char>) -> (r: bool)
    ensures
        r == waiting_message(message@),
{
    let lower = chars_to_ascii_lower(message);
    chars_contain_str(&lower, "permission") || chars_contain_str(&lower, "approval")
        || chars_contain_str(&lower, "approve") || chars_contain_str(&lower, "question")
        || chars_contain_str(message, "权限") || chars_contain_str(message, "授权")
        || chars_contain_str(message, "批准") || chars_contain_str(message, "问题")
        || chars_contain_str(message, "确认")
}

fn is_input_message(message: &Vec<char>) -> (r: bool)
    ensures
        r == input_message(message@),
{
    let lower = chars_to_ascii_lower(message);
    chars_contain_str(&lower, "waiting for input") || chars_contain_str(
        &lower,
        "waiting for your input",
    ) || chars_contain_str(message, "请输入") || chars_contain_str(message, "等待输入")
        || chars_contain_str(message, "需要输入")
}

/// Classifies a `Notification` hook. A permission prompt is only recorded;
/// questions and permission requests wait for the user; input prompts mean
/// the turn is done.
pub fn notification_effect(event: &HookEvent) -> (r: HookEffect)
    ensures
        r@ == notification_effect_of(*event),
{
    let raw_kind = opt_chars_of(&event.notification_type);
    let trimmed_kind = trim_chars(&raw_kind);
    let kind = chars_to_ascii_lower(&trimmed_kind);
    if chars_eq_str(&kind, "permission_prompt") {
        return HookEffect::RecordOnly;
    }
    let raw_level = opt_chars_of(&event.level);
    let trimmed_level = trim_chars(&raw_level);
    let level = chars_to_ascii_lower(&trimmed_level);
    let message = opt_chars_of(&event.message);
    if is_waiting_word(&kind) || is_waiting_word(&level) || is_waiting_message(&message) {
        let reason = match &event.message {
            Some(m) => m.clone(),
            None => match &event.notification_type {
                Some(t) => t.clone(),
                None => "grok-hook-waiting".to_owned(),
            },
        };
        return HookEffect::Waiting { tool_name: event.tool_name.clone(), reason };
    }
    if is_input_word(&kind) || is_input_word(&level) || is_input_message(&message) {
        HookEffect::Done
    } else {
        HookEffect::RecordOnly
    }
}

pub open spec fn hook_effect_of(event: HookEvent) -> HookEffectView {
    match event.kind {
        HookEventKind::SessionStart => HookEffectView::Reset,
        HookEventKind::UserPromptSubmit => HookEffectView::Working(opt_view(event.tool_name)),
        HookEventKind::PostToolUse | HookEventKind::PostToolUseFailure
        | HookEventKind::PermissionDenied | HookEventKind::PreCompact
        | HookEventKind::PostCompact => HookEffectView::Working(None),
        HookEventKind::PreToolUse => if ask_user_question(opt_view(event.tool_name)) {
            HookEffectView::Waiting(
                opt_view(event.tool_name),
                match event.message {
                    Some(m) => m@,
                    None => "ask_user_question"@,
                },
            )
        } else {
            HookEffectView::Working(opt_view(event.tool_name))
        },
        HookEventKind::Stop | HookEventKind::StopFailure | HookEventKind::SessionEnd =>
            HookEffectView::Done,
        HookEventKind::Notification => notification_effect_of(event),
        HookEventKind::SubagentStart | HookEventKind::SubagentStop => HookEffectView::RecordOnly,
    }
}

/// A notification whose type, trimmed and lower-cased, is one of
/// `idle_prompt`, `input_prompt`, `input_required`, `user_input` or
/// `waiting_for_input` means the turn is done, unless its level or its
/// message asks the user something.
pub proof fn lemma_input_prompt_notification_is_done(event: HookEvent)
    requires
        event.kind == HookEventKind::Notification,
        ({
            let kind = ascii_lowercase(trim(opt_chars(event.notification_type)));
            kind == "idle_prompt"@ || kind == "input_prompt"@ || kind == "input_required"@ || kind
                == "user_input"@ || kind == "waiting_for_input"@
        }),
        !waiting_word(ascii_lowercase(trim(opt_chars(event.level)))),
        !waiting_message(opt_chars(event.message)),
    ensures
        hook_effect_of(event) == HookEffectView::Done,
{
    reveal_strlit("idle_prompt");
    reveal_strlit("input_prompt");
    reveal_strlit("input_required");
    reveal_strlit("user_input");
    reveal_strlit("waiting_for_input");
    reveal_strlit("permission_prompt");
    reveal_strlit("permission");
    reveal_strlit("question");
    reveal_strlit("ask_user_question");
    reveal_strlit("elicitation");
    reveal_strlit("elicitation_dialog");
    let kind = ascii_lowercase(trim(opt_chars(event.notification_type)));
    assert(kind != "permission_prompt"@ && !waiting_word(kind)) by {
        if kind == "waiting_for_input"@ {
            assert(kind[0] != "permission_prompt"@[0]);
            assert(kind[0] != "ask_user_question"@[0]);
        } else if kind == "user_input"@ {
            assert(kind[0] != "permission"@[0]);
        } else if kind == "idle_prompt"@ {
            assert(kind[0] != "elicitation"@[0]);
        }
    }
}

/// A permission prompt notification is only recorded. Otherwise a
/// notification whose type or level, trimmed and lower-cased, is one of
/// `permission`, `question`, `ask_user_question`, `elicitation` or
/// `elicitation_dialog` waits for the user, with the message (else the type)
/// as the reason.
pub proof fn lemma_question_notification_waits(event: HookEvent)
    requires
        event.kind == HookEventKind::Notification,
    ensures
        ({
            let kind = ascii_lowercase(trim(opt_chars(event.notification_type)));
            let level = ascii_lowercase(trim(opt_chars(event.level)));
            let asks = |x: Seq<char>|
                x == "permission"@ || x == "question"@ || x == "ask_user_question"@ || x
                    == "elicitation"@ || x == "elicitation_dialog"@;
            &&& kind == "permission_prompt"@ ==> hook_effect_of(event) == HookEffectView::RecordOnly
            &&& kind != "permission_prompt"@ && (asks(kind) || asks(level)) ==> hook_effect_of(event)
                == HookEffectView::Waiting(
                opt_view(event.tool_name),
                match event.message {
                    Some(m) => m@,
                    None => match event.notification_type {
                        Some(t) => t@,
                        None => "grok-hook-waiting"@,
                    },
                },
            )
        }),
{
}

/// What a lifecycle hook means for the session's activity.
pub fn hook_effect(event: &HookEvent) -> (r: HookEffect)
    ensures
        r@ == hook_effect_of(*event),
{
    match event.kind {
        HookEventKind::SessionStart => HookEffect::Reset,
        HookEventKind::UserPromptSubmit => HookEffect::Working {
            tool_name: event.tool_name.clone(),
        },
        HookEventKind::PostToolUse | HookEventKind::PostToolUseFailure
        | HookEventKind::PermissionDenied | HookEventKind::PreCompact
        | HookEventKind::PostCompact => HookEffect::Working { tool_name: None },
        HookEventKind::PreToolUse => {
            let tool = match &event.tool_name {
                Some(t) => Some(t.as_str()),
                None => None,
            };
            if is_ask_user_question(tool) {
                let reason = match &event.message {
                    Some(m) => m.clone(),
                    None => "ask_user_question".to_owned(),
                };
                HookEffect::Waiting { tool_name: event.tool_name.clone(), reason }
            } else {
                HookEffect::Working { tool_name: event.tool_name.clone() }
            }
        },
        HookEventKind::Stop | HookEventKind::StopFailure | HookEventKind::SessionEnd =>
            HookEffect::Done,
        HookEventKind::Notification => notification_effect(event),
        HookEventKind::SubagentStart | HookEventKind::SubagentStop => HookEffect::RecordOnly,
    }
}


// ---------------------------------------------------------------------------
// Session status
// ---------------------------------------------------------------------------

/// What the lifecycle hooks last reported for a session.
#[derive(Clone, Debug, PartialEq, Eq)]
pub struct HookState {
    pub activity: HookActivity,
    pub last_event: Option<HookEventKind>,
    pub last_event_at_ms: Option<u64>,
    pub tool_name: Option<String>,
    pub waiting_reason: Option<String>,
    pub turn_done: bool,
}

pub struct HookStateView {
    pub activity: HookActivity,
    pub last_event: Option<HookEventKind>,
    pub last_event_at_ms: Option<u64>,
    pub tool_name: Option<Seq<char>>,
    pub waiting_reason: Option<Seq<char>>,
    pub turn_done: bool,
}

impl View for HookState {
    type V = HookStateView;

    open spec fn view(&self) -> HookStateView {
        HookStateView {
            activity: self.activity,
            last_event: self.last_event,
            last_event_at_ms: self.last_event_at_ms,
            tool_name: opt_view(self.tool_name),
            waiting_reason: opt_view(self.waiting_reason),
            turn_done: self.turn_done,
        }
    }
}

impl HookState {
    pub fn new() -> (r: Self)
        ensures
            r@ == (HookStateView {
                activity: HookActivity::Unknown,
                last_event: None,
                last_event_at_ms: None,
                tool_name: None,
                waiting_reason: None,
                turn_done: false,
            }),
    {
        HookState {
            activity: HookActivity::Unknown,
            last_event: None,
            last_event_at_ms: None,
            tool_name: None,
            waiting_reason: None,
            turn_done: false,
        }
    }
}

/// Why a hook event was not applied.
#[derive(Clone, Copy, Debug, PartialEq, Eq, Structural)]
pub enum HookRefusal {
    /// The hook ran in another directory than the session.
    DirectoryMismatch,
}

impl HookRefusal {
    pub fn message(&self) -> (r: &'static str)
        ensures
            r@ == "hook working directory does not match the session"@,
    {
        "hook working directory does not match the session"
    }
}

/// A live session refuses a hook that names a directory other than its own.
pub open spec fn hook_dir_refused(phase: SessionPhase, hook_dir: Option<Seq<char>>, session_dir: Seq<char>) -> bool {
    !is_terminal(phase) && (hook_dir matches Some(d) && d != session_dir)
}

/// The mutable record of one session: its phase, process and reader state,
/// error, title and hook state.
#[derive(Clone, Debug, PartialEq, Eq)]
pub struct SessionStatus {
    pub phase: SessionPhase,
    pub phase_changed_at_ms: u64,
    pub process_id: Option<u32>,
    pub updated_at_ms: u64,
    pub exit_code: Option<u32>,
    pub error: Option<String>,
    pub title: Option<String>,
    pub last_output_at_ms: Option<u64>,
    pub process_done: bool,
    pub reader_done: bool,
    pub hook: HookState,
}

pub struct StatusView {
    pub phase: SessionPhase,
    pub phase_changed_at_ms: u64,
    pub process_id: Option<u32>,
    pub updated_at_ms: u64,
    pub exit_code: Option<u32>,
    pub error: Option<Seq<char>>,
    pub title: Option<Seq<char>>,
    pub last_output_at_ms: Option<u64>,
    pub process_done: bool,
    pub reader_done: bool,
    pub hook: HookStateView,
}

impl View for SessionStatus {
    type V = StatusView;

    open spec fn view(&self) -> StatusView {
        StatusView {
            phase: self.phase,
            phase_changed_at_ms: self.phase_changed_at_ms,
            process_id: self.process_id,
            updated_at_ms: self.updated_at_ms,
            exit_code: self.exit_code,
            error: opt_view(self.error),
            title: opt_view(self.title),
            last_output_at_ms: self.last_output_at_ms,
            process_done: self.process_done,
            reader_done: self.reader_done,
            hook: self.hook@,
        }
    }
}

/// Hooks that still change a session whose turn is already done.
pub open spec fn turn_boundary(kind: HookEventKind) -> bool {
    kind == HookEventKind::SessionStart || kind == HookEventKind::UserPromptSubmit || kind
        == HookEventKind::Stop || kind == HookEventKind::StopFailure || kind
        == HookEventKind::SessionEnd
}

pub open spec fn quiet_idle_ms() -> u64 {
    3000
}

impl StatusView {
    pub open spec fn started(process_id: Option<u32>, now: u64) -> StatusView {
        StatusView {
            phase: SessionPhase::Starting,
            phase_changed_at_ms: now,
            process_id,
            updated_at_ms: now,
            exit_code: None,
            error: None,
            title: None,
            last_output_at_ms: None,
            process_done: false,
            reader_done: false,
            hook: HookStateView {
                activity: HookActivity::Unknown,
                last_event: None,
                last_event_at_ms: None,
                tool_name: None,
                waiting_reason: None,
                turn_done: false,
            },
        }
    }

    pub open spec fn with_phase(self, phase: SessionPhase, now: u64) -> StatusView {
        if self.phase != phase {
            StatusView { phase, phase_changed_at_ms: now, ..self }
        } else {
            self
        }
    }

    pub open spec fn with_hook(self, hook: HookStateView) -> StatusView {
        StatusView { hook, ..self }
    }

    pub open spec fn hook_applied(self, event: HookEvent, now: u64) -> StatusView {
        if is_terminal(self.phase) {
            self
        } else {
            let h = self.hook;
            let effect = if h.turn_done && !turn_boundary(event.kind) {
                HookEffectView::RecordOnly
            } else {
                hook_effect_of(event)
            };
            let s = match effect {
                HookEffectView::Reset => self.with_hook(
                    HookStateView {
                        activity: HookActivity::Unknown,
                        tool_name: None,
                        waiting_reason: None,
                        turn_done: false,
                        ..h
                    },
                ),
                HookEffectView::Working(tool) => self.with_hook(
                    HookStateView {
                        activity: HookActivity::Working,
                        tool_name: tool,
                        waiting_reason: None,
                        turn_done: if event.kind == HookEventKind::UserPromptSubmit {
                            false
                        } else {
                            h.turn_done
                        },
                        ..h
                    },
                ).with_phase(SessionPhase::Running, now),
                HookEffectView::Waiting(tool, reason) => self.with_hook(
                    HookStateView {
                        activity: HookActivity::Waiting,
                        tool_name: tool,
                        waiting_reason: Some(reason),
                        ..h
                    },
                ).with_phase(SessionPhase::Running, now),
                HookEffectView::Done => self.with_hook(
                    HookStateView {
                        activity: HookActivity::Done,
                        tool_name: None,
                        waiting_reason: None,
                        turn_done: true,
                        ..h
                    },
                ).with_phase(SessionPhase::Idle, now),
                HookEffectView::RecordOnly => self,
            };
            StatusView {
                hook: HookStateView {
                    last_event: Some(event.kind),
                    last_event_at_ms: Some(now),
                    ..s.hook
                },
                updated_at_ms: now,
                ..s
            }
        }
    }

    pub open spec fn finalized(self, shutdown: bool, now: u64) -> (StatusView, bool) {
        match completed(
            self.phase,
            self.process_done,
            self.reader_done,
            shutdown,
            self.error is Some,
            self.exit_code,
        ) {
            None => (self, false),
            Some(p) => (
                StatusView { process_id: None, updated_at_ms: now, ..self.with_phase(p, now) },
                true,
            ),
        }
    }

    pub open spec fn error_recorded(self, message: Seq<char>, now: u64) -> StatusView {
        StatusView {
            error: Some(
                match self.error {
                    Some(e) => e + "; "@ + message,
                    None => message,
                },
            ),
            updated_at_ms: now,
            ..self
        }
    }

    pub open spec fn exited(self, exit_code: u32, shutdown: bool, now: u64) -> (StatusView, bool) {
        let s = if !self.process_done {
            StatusView {
                process_done: true,
                exit_code: Some(exit_code),
                process_id: None,
                ..self
            }
        } else {
            self
        };
        StatusView { updated_at_ms: now, ..s }.finalized(shutdown, now)
    }

    pub open spec fn reader_finished(self, shutdown: bool, now: u64) -> (StatusView, bool) {
        StatusView { reader_done: true, updated_at_ms: now, ..self }.finalized(shutdown, now)
    }

    pub open spec fn reader_failed(self, message: Seq<char>, shutdown: bool, now: u64) -> (
        StatusView,
        bool,
    ) {
        StatusView { reader_done: true, ..self }.error_recorded(message, now).finalized(
            shutdown,
            now,
        )
    }

    pub open spec fn writer_failed(self, message: Seq<char>, shutdown: bool, now: u64) -> (
        StatusView,
        bool,
    ) {
        self.error_recorded(message, now).finalized(shutdown, now)
    }

    pub open spec fn output_seen(
        self,
        title: Option<Seq<char>>,
        title_updated: bool,
        shutdown: bool,
        now: u64,
    ) -> StatusView {
        let phase = after_output(
            self.phase,
            title,
            title_updated,
            self.hook.activity,
            self.process_done,
            self.error is Some,
            shutdown,
        );
        StatusView {
            title,
            last_output_at_ms: Some(now),
            updated_at_ms: now,
            ..StatusView { title, ..self }.with_phase(phase, now)
        }
    }

    pub open spec fn input_accepted(self, starts_turn: bool, now: u64) -> StatusView {
        let s = if starts_turn {
            self.with_phase(SessionPhase::Running, now).with_hook(
                HookStateView {
                    activity: HookActivity::Working,
                    tool_name: None,
                    waiting_reason: None,
                    turn_done: false,
                    ..self.hook
                },
            )
        } else {
            self
        };
        StatusView { updated_at_ms: now, ..s }
    }

    pub open spec fn process_verified_gone(self, now: u64) -> StatusView {
        if !self.process_done {
            StatusView { process_done: true, updated_at_ms: now, ..self }
        } else {
            self
        }
    }

    pub open spec fn closed_now(self, now: u64) -> (StatusView, bool) {
        let already = is_terminal(self.phase);
        let s = if !self.process_done && !already {
            StatusView { process_done: true, updated_at_ms: now, ..self }
        } else {
            self
        };
        let (f, done) = s.finalized(true, now);
        if done || already {
            (StatusView { process_id: None, updated_at_ms: now, ..f }, true)
        } else {
            (f, false)
        }
    }

    pub open spec fn quiet(self, now: u64) -> bool {
        let last = match self.last_output_at_ms {
            Some(t) => t,
            None => self.updated_at_ms,
        };
        let reference = if last > self.updated_at_ms {
            last
        } else {
            self.updated_at_ms
        };
        now >= reference && now - reference >= quiet_idle_ms()
    }

    pub open spec fn idle_promotion_due(self, now: u64) -> bool {
        &&& self.error is None
        &&& self.phase == SessionPhase::Running
        &&& self.title is None
        &&& (self.hook.activity == HookActivity::Unknown || self.hook.activity
            == HookActivity::Working)
        &&& self.quiet(now)
    }

    /// A wait's check at `now`: whether `condition` holds, and the record
    /// after it (a quiet running session may be marked idle).
    pub open spec fn waited(self, condition: crate::protocol::WaitCondition, now: u64) -> (StatusView, bool) {
        match condition {
            crate::protocol::WaitCondition::Exit => (self, is_terminal(self.phase)),
            crate::protocol::WaitCondition::TuiIdle => if self.error is Some {
                (self, false)
            } else if self.phase == SessionPhase::Idle {
                (self, true)
            } else if self.idle_promotion_due(now) {
                (StatusView { updated_at_ms: now, ..self.with_phase(SessionPhase::Idle, now) }, true)
            } else {
                (self, false)
            },
        }
    }
}

impl SessionStatus {
    /// The record of a freshly spawned session.
    pub fn started(process_id: Option<u32>, now: u64) -> (r: Self)
        ensures
            r@ == StatusView::started(process_id, now),
    {
        SessionStatus {
            phase: SessionPhase::Starting,
            phase_changed_at_ms: now,
            process_id,
            updated_at_ms: now,
            exit_code: None,
            error: None,
            title: None,
            last_output_at_ms: None,
            process_done: false,
            reader_done: false,
            hook: HookState::new(),
        }
    }

    pub fn set_phase(&mut self, phase: SessionPhase, now: u64)
        ensures
            final(self)@ == old(self)@.with_phase(phase, now),
    {
        if self.phase != phase {
            self.phase = phase;
            self.phase_changed_at_ms = now;
        }
    }

    /// Applies one lifecycle hook. A finished session ignores hooks; once a
    /// turn is done only turn boundaries change the activity, and every other
    /// hook is only recorded.
    /// Applies a hook event that arrived from the directory `hook_dir`
    /// (already resolved; `None` when the event names none) to a session
    /// running in `session_dir`. A live session refuses a hook from another
    /// directory and stays as it was; otherwise see `apply_hook_event`.
    pub fn apply_hook_event_from(
        &mut self,
        event: &HookEvent,
        hook_dir: Option<&str>,
        session_dir: &str,
        now: u64,
    ) -> (r: Result<(), HookRefusal>)
        ensures
            hook_dir_refused(
                old(self).phase,
                match hook_dir {
                    Some(d) => Some(d@),
                    None => None,
                },
                session_dir@,
            ) ==> r == Err::<(), HookRefusal>(HookRefusal::DirectoryMismatch) && *final(self) == *old(self),
            !hook_dir_refused(
                old(self).phase,
                match hook_dir {
                    Some(d) => Some(d@),
                    None => None,
                },
                session_dir@,
            ) ==> r == Ok::<(), HookRefusal>(()) && final(self)@ == old(self)@.hook_applied(*event, now),
    {
        if !phase_is_terminal(self.phase) {
            if let Some(d) = hook_dir {
                if !crate::text::str_eq(d, session_dir) {
                    return Err(HookRefusal::DirectoryMismatch);
                }
            }
        }
        self.apply_hook_event(event, now);
        Ok(())
    }

    pub fn apply_hook_event(&mut self, event: &HookEvent, now: u64)
        ensures
            final(self)@ == old(self)@.hook_applied(*event, now),
    {
        if phase_is_terminal(self.phase) {
            return;
        }
        let boundary = match event.kind {
            HookEventKind::SessionStart | HookEventKind::UserPromptSubmit | HookEventKind::Stop
            | HookEventKind::StopFailure | HookEventKind::SessionEnd => true,
            _ => false,
        };
        let effect = if self.hook.turn_done && !boundary {
            HookEffect::RecordOnly
        } else {
            hook_effect(event)
        };
        match effect {
            HookEffect::Reset => {
                self.hook.activity = HookActivity::Unknown;
                self.hook.tool_name = None;
                self.hook.waiting_reason = None;
                self.hook.turn_done = false;
            },
            HookEffect::Working { tool_name } => {
                self.hook.activity = HookActivity::Working;
                self.hook.tool_name = tool_name;
                self.hook.waiting_reason = None;
                if event.kind == HookEventKind::UserPromptSubmit {
                    self.hook.turn_done = false;
                }
                self.set_phase(SessionPhase::Running, now);
            },
            HookEffect::Waiting { tool_name, reason } => {
                self.hook.activity = HookActivity::Waiting;
                self.hook.tool_name = tool_name;
                self.hook.waiting_reason = Some(reason);
                self.set_phase(SessionPhase::Running, now);
            },
            HookEffect::Done => {
                self.hook.activity = HookActivity::Done;
                self.hook.tool_name = None;
                self.hook.waiting_reason = None;
                self.hook.turn_done = true;
                self.set_phase(SessionPhase::Idle, now);
            },
            HookEffect::RecordOnly => {},
        }
        self.hook.last_event = Some(event.kind);
        self.hook.last_event_at_ms = Some(now);
        self.updated_at_ms = now;
    }

    /// Moves the session to its terminal phase once the process is done (and,
    /// without an explicit close, the reader reached EOF); returns whether it
    /// did.
    pub fn finalize(&mut self, shutdown: bool, now: u64) -> (r: bool)
        ensures
            (final(self)@, r) == old(self)@.finalized(shutdown, now),
    {
        let phase = match completed_phase(
            self.phase,
            self.process_done,
            self.reader_done,
            shutdown,
            self.error.is_some(),
            self.exit_code,
        ) {
            Some(p) => p,
            None => return false,
        };
        self.set_phase(phase, now);
        self.process_id = None;
        self.updated_at_ms = now;
        true
    }

    /// Appends to the error text, separating earlier errors with `; `.
    pub fn record_error(&mut self, message: &str, now: u64)
        ensures
            final(self)@ == old(self)@.error_recorded(message@, now),
    {
        let next = match &self.error {
            Some(existing) => {
                let mut v = chars_of(existing.as_str());
                let sep = chars_of("; ");
                let m = chars_of(message);
                let mut i: usize = 0;
                let ghost base = v@;
                while i < sep.len()
                    invariant
                        i <= sep.len(),
                        v@ == base + sep@.take(i as int),
                    decreases sep.len() - i,
                {
                    v.push(sep[i]);
                    proof {
                        assert(sep@.take(i + 1) =~= sep@.take(i as int).push(sep@[i as int]));
                    }
                    i = i + 1;
                }
                let ghost mid = v@;
                let mut j: usize = 0;
                while j < m.len()
                    invariant
                        j <= m.len(),
                        v@ == mid + m@.take(j as int),
                    decreases m.len() - j,
                {
                    v.push(m[j]);
                    proof {
                        assert(m@.take(j + 1) =~= m@.take(j as int).push(m@[j as int]));
                    }
                    j = j + 1;
                }
                proof {
                    assert(sep@.take(sep@.len() as int) =~= sep@);
                    assert(m@.take(m@.len() as int) =~= m@);
                }
                crate::text::string_from_chars(&v)
            },
            None => message.to_owned(),
        };
        self.error = Some(next);
        self.updated_at_ms = now;
    }

    /// The waiter saw the root process exit with `exit_code`.
    pub fn mark_exit(&mut self, exit_code: u32, shutdown: bool, now: u64) -> (r: bool)
        ensures
            (final(self)@, r) == old(self)@.exited(exit_code, shutdown, now),
    {
        if !self.process_done {
            self.process_done = true;
            self.exit_code = Some(exit_code);
            self.process_id = None;
        }
        self.updated_at_ms = now;
        self.finalize(shutdown, now)
    }

    /// The PTY reader reached end of stream.
    pub fn mark_reader_done(&mut self, shutdown: bool, now: u64) -> (r: bool)
        ensures
            (final(self)@, r) == old(self)@.reader_finished(shutdown, now),
    {
        self.reader_done = true;
        self.updated_at_ms = now;
        self.finalize(shutdown, now)
    }

    /// The PTY reader failed with `message`.
    pub fn mark_reader_error(&mut self, message: &str, shutdown: bool, now: u64) -> (r: bool)
        ensures
            (final(self)@, r) == old(self)@.reader_failed(message@, shutdown, now),
    {
        self.reader_done = true;
        self.record_error(message, now);
        self.finalize(shutdown, now)
    }

    /// The PTY writer failed with `message`.
    pub fn mark_writer_error(&mut self, message: &str, shutdown: bool, now: u64) -> (r: bool)
        ensures
            (final(self)@, r) == old(self)@.writer_failed(message@, shutdown, now),
    {
        self.record_error(message, now);
        self.finalize(shutdown, now)
    }

    /// New terminal output arrived; `title` is the window title it left.
    pub fn record_output(
        &mut self,
        title: Option<String>,
        title_updated: bool,
        shutdown: bool,
        now: u64,
    )
        ensures
            final(self)@ == old(self)@.output_seen(opt_view(title), title_updated, shutdown, now),
    {
        let phase = phase_after_output(
            self.phase,
            match &title {
                Some(t) => Some(t.as_str()),
                None => None,
            },
            title_updated,
            self.hook.activity,
            self.process_done,
            self.error.is_some(),
            shutdown,
        );
        self.title = title;
        self.set_phase(phase, now);
        self.last_output_at_ms = Some(now);
        self.updated_at_ms = now;
    }

    /// Input was queued for the terminal; a submitted line starts a new turn.
    pub fn accept_input(&mut self, starts_turn: bool, now: u64)
        ensures
            final(self)@ == old(self)@.input_accepted(starts_turn, now),
    {
        if starts_turn {
            self.set_phase(SessionPhase::Running, now);
            self.hook.activity = HookActivity::Working;
            self.hook.tool_name = None;
            self.hook.waiting_reason = None;
            self.hook.turn_done = false;
        }
        self.updated_at_ms = now;
    }

    /// The liveness probe verified that the whole process scope is gone.
    pub fn record_verified_process_done(&mut self, now: u64)
        ensures
            final(self)@ == old(self)@.process_verified_gone(now),
    {
        if !self.process_done {
            self.process_done = true;
            self.updated_at_ms = now;
        }
    }

    /// Finalizes a session whose process scope was verified terminated by an
    /// explicit close; a finalized record never exposes a process id.
    pub fn finalize_closed(&mut self, now: u64) -> (r: bool)
        ensures
            (final(self)@, r) == old(self)@.closed_now(now),
    {
        let already_terminal = phase_is_terminal(self.phase);
        if !self.process_done && !already_terminal {
            self.process_done = true;
            self.updated_at_ms = now;
        }
        let finalized = self.finalize(true, now) || already_terminal;
        if finalized {
            self.process_id = None;
            self.updated_at_ms = now;
        }
        finalized
    }

    /// Whether a wait for `condition` is over. A running session without a
    /// Grok title and without a decisive hook counts as idle after three
    /// quiet seconds, and is then marked idle.
    pub fn wait_satisfied(&mut self, condition: crate::protocol::WaitCondition, now: u64) -> (r:
        bool)
        ensures
            (final(self)@, r) == old(self)@.waited(condition, now),
    {
        match condition {
            crate::protocol::WaitCondition::Exit => phase_is_terminal(self.phase),
            crate::protocol::WaitCondition::TuiIdle => {
                if self.error.is_some() {
                    return false;
                }
                if self.phase == SessionPhase::Idle {
                    return true;
                }
                let last = match self.last_output_at_ms {
                    Some(t) => t,
                    None => self.updated_at_ms,
                };
                let reference = if last > self.updated_at_ms {
                    last
                } else {
                    self.updated_at_ms
                };
                let quiet = now.saturating_sub(reference) >= 3000;
                if self.phase == SessionPhase::Running && self.title.is_none() && (
                self.hook.activity == HookActivity::Unknown || self.hook.activity
                    == HookActivity::Working) && quiet {
                    self.set_phase(SessionPhase::Idle, now);
                    self.updated_at_ms = now;
                    return true;
                }
                false
            },
        }
    }
}


/// What a wait does after one check.
#[derive(Clone, Debug, PartialEq, Eq)]
pub enum WaitStep {
    /// Grok waits for its user; the wait ends unsatisfied with this reason.
    Blocked(String),
    Satisfied,
    /// An idle wait on a finished session cannot be satisfied.
    Unsatisfiable,
    TimedOut,
    /// Keep waiting.
    Pending,
}

pub enum WaitStepView {
    Blocked(Seq<char>),
    Satisfied,
    Unsatisfiable,
    TimedOut,
    Pending,
}

pub open spec fn wait_step_view(w: WaitStep) -> WaitStepView {
    match w {
        WaitStep::Blocked(r) => WaitStepView::Blocked(r@),
        WaitStep::Satisfied => WaitStepView::Satisfied,
        WaitStep::Unsatisfiable => WaitStepView::Unsatisfiable,
        WaitStep::TimedOut => WaitStepView::TimedOut,
        WaitStep::Pending => WaitStepView::Pending,
    }
}

/// One check of a wait: an idle wait ends blocked when the screen shows a
/// Grok prompt or a hook reports Grok waiting for its user; otherwise the
/// condition is checked (see `waited`), an idle wait on a finished session
/// ends unsatisfied, and a passed deadline ends the wait.
pub open spec fn wait_step_of(
    s: StatusView,
    condition: crate::protocol::WaitCondition,
    screen: Seq<char>,
    now: u64,
    deadline_passed: bool,
) -> (StatusView, WaitStepView) {
    let idle = condition == crate::protocol::WaitCondition::TuiIdle;
    if idle && screen_blocked_reason(screen) is Some {
        (s, WaitStepView::Blocked(screen_blocked_reason(screen)->0))
    } else if idle && s.hook.activity == HookActivity::Waiting {
        (
            s,
            WaitStepView::Blocked(
                match s.hook.waiting_reason {
                    Some(r) => r,
                    None => "grok-hook-waiting"@,
                },
            ),
        )
    } else {
        let (s2, satisfied) = s.waited(condition, now);
        if satisfied {
            (s2, WaitStepView::Satisfied)
        } else if idle && is_terminal(s2.phase) {
            (s2, WaitStepView::Unsatisfiable)
        } else if deadline_passed {
            (s2, WaitStepView::TimedOut)
        } else {
            (s2, WaitStepView::Pending)
        }
    }
}

/// A wait for the session to exit leaves the record as it is and is over
/// exactly when the session has exited, failed or been stopped; otherwise it
/// goes on until its deadline passes. No screen or hook blocks it.
pub proof fn lemma_exit_wait(
    s: StatusView,
    screen: Seq<char>,
    now: u64,
    deadline_passed: bool,
)
    ensures
        s.waited(crate::protocol::WaitCondition::Exit, now) == (s, s.phase == SessionPhase::Exited
            || s.phase == SessionPhase::Failed || s.phase == SessionPhase::Stopped),
        wait_step_of(s, crate::protocol::WaitCondition::Exit, screen, now, deadline_passed) == (
            s,
            if s.phase == SessionPhase::Exited || s.phase == SessionPhase::Failed || s.phase
                == SessionPhase::Stopped {
                WaitStepView::Satisfied
            } else if deadline_passed {
                WaitStepView::TimedOut
            } else {
                WaitStepView::Pending
            },
        ),
{
}

impl SessionStatus {
    /// One check of a wait on this session (see `wait_step_of`).
    pub fn wait_step(
        &mut self,
        condition: crate::protocol::WaitCondition,
        screen: &str,
        now: u64,
        deadline_passed: bool,
    ) -> (r: WaitStep)
        ensures
            (final(self)@, wait_step_view(r)) == wait_step_of(old(self)@, condition, screen@, now, deadline_passed),
    {
        let idle = condition == crate::protocol::WaitCondition::TuiIdle;
        if idle {
            if let Some(reason) = blocked_reason(screen) {
                return WaitStep::Blocked(reason.to_string());
            }
            if self.hook.activity == HookActivity::Waiting {
                return WaitStep::Blocked(
                    match &self.hook.waiting_reason {
                        Some(r) => r.clone(),
                        None => "grok-hook-waiting".to_string(),
                    },
                );
            }
        }
        if self.wait_satisfied(condition, now) {
            return WaitStep::Satisfied;
        }
        if idle && phase_is_terminal(self.phase) {
            return WaitStep::Unsatisfiable;
        }
        if deadline_passed {
            WaitStep::TimedOut
        } else {
            WaitStep::Pending
        }
    }
}

// ---------------------------------------------------------------------------
// Client lease and orphan cleanup
// ---------------------------------------------------------------------------

pub const DEFAULT_CODEX_LEASE_SECONDS: u64 = 120;
pub const DEFAULT_ORPHAN_GRACE_SECONDS: u64 = 600;
pub const MIN_CODEX_LEASE_SECONDS: u64 = 30;
pub const MAX_CODEX_LEASE_SECONDS: u64 = 86400;
pub const MIN_ORPHAN_GRACE_SECONDS: u64 = 60;
pub const MAX_ORPHAN_GRACE_SECONDS: u64 = 604800;

/// How long a client lease lasts without a refresh, and how long an orphaned
/// idle session survives before it is closed.
#[derive(Clone, Copy, Debug, PartialEq, Eq, Structural)]
pub struct OrphanPolicy {
    pub lease_ms: u64,
    pub grace_ms: u64,
}

#[derive(Clone, Copy, Debug, PartialEq, Eq, Structural)]
pub enum DurationError {
    /// The value is not an integer number of seconds.
    NotInteger,
    /// The value lies outside the accepted range.
    OutOfRange,
}

pub open spec fn duration_setting(value: Option<Seq<char>>, default: u64, min: u64, max: u64) -> Result<
    u64,
    DurationError,
> {
    match value {
        None => Ok(default),
        Some(v) => match crate::text::parse_unsigned(v, u64::MAX as nat) {
            None => Err(DurationError::NotInteger),
            Some(n) => if min <= n && n <= max {
                Ok(n as u64)
            } else {
                Err(DurationError::OutOfRange)
            },
        },
    }
}

/// A duration setting in seconds: the default when unset, otherwise an
/// integer between `min` and `max`.
pub fn parse_duration_value(value: Option<&str>, default: u64, min: u64, max: u64) -> (r: Result<
    u64,
    DurationError,
>)
    ensures
        r == duration_setting(
            match value {
                Some(v) => Some(v@),
                None => None,
            },
            default,
            min,
            max,
        ),
{
    let v = match value {
        None => return Ok(default),
        Some(v) => v,
    };
    match crate::text::parse_u64(v) {
        None => Err(DurationError::NotInteger),
        Some(n) => if min <= n && n <= max {
            Ok(n)
        } else {
            Err(DurationError::OutOfRange)
        },
    }
}

pub open spec fn seconds_to_ms(s: u64) -> u64 {
    if s * 1000 > u64::MAX {
        u64::MAX
    } else {
        (s * 1000) as u64
    }
}

/// Which orphan policy setting a value was given for.
#[derive(Clone, Copy, Debug, PartialEq, Eq, Structural)]
pub enum PolicySetting {
    Lease,
    Grace,
}

pub open spec fn setting_name(s: PolicySetting) -> Seq<char> {
    match s {
        PolicySetting::Lease => "GROK_BRIDGE_CODEX_LEASE_SECONDS"@,
        PolicySetting::Grace => "GROK_BRIDGE_ORPHAN_GRACE_SECONDS"@,
    }
}

impl PolicySetting {
    /// The environment variable that holds the setting.
    pub fn env_name(&self) -> (r: &'static str)
        ensures
            r@ == setting_name(*self),
    {
        match self {
            PolicySetting::Lease => "GROK_BRIDGE_CODEX_LEASE_SECONDS",
            PolicySetting::Grace => "GROK_BRIDGE_ORPHAN_GRACE_SECONDS",
        }
    }
}

/// A refused orphan policy setting.
#[derive(Clone, Copy, Debug, PartialEq, Eq, Structural)]
pub struct PolicyError {
    pub setting: PolicySetting,
    pub error: DurationError,
}

pub open spec fn policy_error_text(e: PolicyError) -> Seq<char> {
    setting_name(e.setting) + match (e.setting, e.error) {
        (_, DurationError::NotInteger) => " must be an integer number of seconds"@,
        (PolicySetting::Lease, DurationError::OutOfRange) => " must be between 30 and 86400 seconds"@,
        (PolicySetting::Grace, DurationError::OutOfRange) => " must be between 60 and 604800 seconds"@,
    }
}

impl PolicyError {
    pub fn message(&self) -> (r: String)
        ensures
            r@ == policy_error_text(*self),
    {
        let tail = match (self.setting, self.error) {
            (_, DurationError::NotInteger) => " must be an integer number of seconds",
            (PolicySetting::Lease, DurationError::OutOfRange) => " must be between 30 and 86400 seconds",
            (PolicySetting::Grace, DurationError::OutOfRange) => " must be between 60 and 604800 seconds",
        };
        crate::text::concat(self.setting.env_name(), tail)
    }
}

impl OrphanPolicy {
    /// The policy from the lease and grace settings (in seconds), each
    /// defaulted and range-checked.
    pub fn from_settings(lease: Option<&str>, grace: Option<&str>) -> (r: Result<
        OrphanPolicy,
        PolicyError,
    >)
        ensures
            match (
                duration_setting(
                    match lease {
                        Some(v) => Some(v@),
                        None => None,
                    },
                    DEFAULT_CODEX_LEASE_SECONDS,
                    MIN_CODEX_LEASE_SECONDS,
                    MAX_CODEX_LEASE_SECONDS,
                ),
                duration_setting(
                    match grace {
                        Some(v) => Some(v@),
                        None => None,
                    },
                    DEFAULT_ORPHAN_GRACE_SECONDS,
                    MIN_ORPHAN_GRACE_SECONDS,
                    MAX_ORPHAN_GRACE_SECONDS,
                ),
            ) {
                (Ok(l), Ok(g)) => r == Ok::<OrphanPolicy, PolicyError>(
                    OrphanPolicy { lease_ms: seconds_to_ms(l), grace_ms: seconds_to_ms(g) },
                ),
                (Err(e), _) => r == Err::<OrphanPolicy, PolicyError>(
                    PolicyError { setting: PolicySetting::Lease, error: e },
                ),
                (Ok(_), Err(e)) => r == Err::<OrphanPolicy, PolicyError>(
                    PolicyError { setting: PolicySetting::Grace, error: e },
                ),
            },
    {
        let lease_s = match parse_duration_value(
            lease,
            DEFAULT_CODEX_LEASE_SECONDS,
            MIN_CODEX_LEASE_SECONDS,
            MAX_CODEX_LEASE_SECONDS,
        ) {
            Ok(v) => v,
            Err(e) => return Err(PolicyError { setting: PolicySetting::Lease, error: e }),
        };
        let grace_s = match parse_duration_value(
            grace,
            DEFAULT_ORPHAN_GRACE_SECONDS,
            MIN_ORPHAN_GRACE_SECONDS,
            MAX_ORPHAN_GRACE_SECONDS,
        ) {
            Ok(v) => v,
            Err(e) => return Err(PolicyError { setting: PolicySetting::Grace, error: e }),
        };
        Ok(OrphanPolicy { lease_ms: seconds_as_ms(lease_s), grace_ms: seconds_as_ms(grace_s) })
    }
}

fn seconds_as_ms(s: u64) -> (r: u64)
    ensures
        r == seconds_to_ms(s),
{
    if s > u64::MAX / 1000 {
        u64::MAX
    } else {
        s * 1000
    }
}

pub open spec fn sat_add(a: u64, b: u64) -> u64 {
    if a + b > u64::MAX {
        u64::MAX
    } else {
        (a + b) as u64
    }
}

/// The lease state a session shows, with the last time its client was seen
/// and, once orphaned, when it became orphaned and when it will be closed.
#[derive(Clone, Copy, Debug, PartialEq, Eq, Structural)]
pub struct LeaseSnapshot {
    pub state: crate::protocol::ClientLeaseState,
    pub last_seen_at_ms: Option<u64>,
    pub orphaned_at_ms: Option<u64>,
    pub auto_close_at_ms: Option<u64>,
}

pub open spec fn lease_snapshot(
    last_seen: Option<u64>,
    policy: OrphanPolicy,
    phase: SessionPhase,
    phase_changed_at_ms: u64,
    now: u64,
    cleanup_claimed: bool,
) -> LeaseSnapshot {
    match last_seen {
        None => LeaseSnapshot {
            state: crate::protocol::ClientLeaseState::Unmanaged,
            last_seen_at_ms: None,
            orphaned_at_ms: None,
            auto_close_at_ms: None,
        },
        Some(seen) => {
            let expires = sat_add(seen, policy.lease_ms);
            if cleanup_claimed {
                LeaseSnapshot {
                    state: crate::protocol::ClientLeaseState::Closing,
                    last_seen_at_ms: Some(seen),
                    orphaned_at_ms: None,
                    auto_close_at_ms: None,
                }
            } else if now < expires {
                LeaseSnapshot {
                    state: crate::protocol::ClientLeaseState::Connected,
                    last_seen_at_ms: Some(seen),
                    orphaned_at_ms: None,
                    auto_close_at_ms: None,
                }
            } else if !(phase == SessionPhase::Idle || is_terminal(phase)) {
                LeaseSnapshot {
                    state: crate::protocol::ClientLeaseState::Disconnected,
                    last_seen_at_ms: Some(seen),
                    orphaned_at_ms: None,
                    auto_close_at_ms: None,
                }
            } else {
                let orphaned = if expires > phase_changed_at_ms {
                    expires
                } else {
                    phase_changed_at_ms
                };
                LeaseSnapshot {
                    state: crate::protocol::ClientLeaseState::Orphaned,
                    last_seen_at_ms: Some(seen),
                    orphaned_at_ms: Some(orphaned),
                    auto_close_at_ms: Some(sat_add(orphaned, policy.grace_ms)),
                }
            }
        },
    }
}

/// The client lease state of a session whose client was last seen at
/// `last_seen` (none for a session without a client lease). A session is
/// orphaned only once its lease expired and it is idle or finished; it is
/// closed a grace period after it became orphaned.
pub fn client_lifecycle(
    last_seen: Option<u64>,
    policy: OrphanPolicy,
    phase: SessionPhase,
    phase_changed_at_ms: u64,
    now: u64,
    cleanup_claimed: bool,
) -> (r: LeaseSnapshot)
    ensures
        r == lease_snapshot(last_seen, policy, phase, phase_changed_at_ms, now, cleanup_claimed),
{
    let seen = match last_seen {
        None => return LeaseSnapshot {
            state: crate::protocol::ClientLeaseState::Unmanaged,
            last_seen_at_ms: None,
            orphaned_at_ms: None,
            auto_close_at_ms: None,
        },
        Some(seen) => seen,
    };
    let expires = seen.saturating_add(policy.lease_ms);
    if cleanup_claimed {
        return LeaseSnapshot {
            state: crate::protocol::ClientLeaseState::Closing,
            last_seen_at_ms: Some(seen),
            orphaned_at_ms: None,
            auto_close_at_ms: None,
        };
    }
    if now < expires {
        return LeaseSnapshot {
            state: crate::protocol::ClientLeaseState::Connected,
            last_seen_at_ms: Some(seen),
            orphaned_at_ms: None,
            auto_close_at_ms: None,
        };
    }
    if !phase_is_safe_for_orphan_cleanup(phase) {
        return LeaseSnapshot {
            state: crate::protocol::ClientLeaseState::Disconnected,
            last_seen_at_ms: Some(seen),
            orphaned_at_ms: None,
            auto_close_at_ms: None,
        };
    }
    let orphaned = if expires > phase_changed_at_ms {
        expires
    } else {
        phase_changed_at_ms
    };
    LeaseSnapshot {
        state: crate::protocol::ClientLeaseState::Orphaned,
        last_seen_at_ms: Some(seen),
        orphaned_at_ms: Some(orphaned),
        auto_close_at_ms: Some(orphaned.saturating_add(policy.grace_ms)),
    }
}

pub open spec fn cleanup_due(
    last_seen: Option<u64>,
    policy: OrphanPolicy,
    phase: SessionPhase,
    phase_changed_at_ms: u64,
    now: u64,
) -> bool {
    lease_snapshot(last_seen, policy, phase, phase_changed_at_ms, now, false).auto_close_at_ms
        matches Some(deadline) && now >= deadline
}

/// Whether an orphaned session has reached its automatic close time.
pub fn orphan_cleanup_due(
    last_seen: Option<u64>,
    policy: OrphanPolicy,
    phase: SessionPhase,
    phase_changed_at_ms: u64,
    now: u64,
) -> (r: bool)
    ensures
        r == cleanup_due(last_seen, policy, phase, phase_changed_at_ms, now),
{
    let snapshot = client_lifecycle(last_seen, policy, phase, phase_changed_at_ms, now, false);
    match snapshot.auto_close_at_ms {
        Some(deadline) => now >= deadline,
        None => false,
    }
}

/// The next time at which the lease state changes by itself: the lease
/// expiry, while the client is still connected.
pub fn next_lifecycle_deadline_ms(
    last_seen: Option<u64>,
    policy: OrphanPolicy,
    now: u64,
    cleanup_claimed: bool,
) -> (r: Option<u64>)
    ensures
        r == (match last_seen {
            Some(seen) => if !cleanup_claimed && now < sat_add(seen, policy.lease_ms) {
                Some(sat_add(seen, policy.lease_ms))
            } else {
                None
            },
            None => None,
        }),
{
    if cleanup_claimed {
        return None;
    }
    let seen = match last_seen {
        Some(seen) => seen,
        None => return None,
    };
    let expires = seen.saturating_add(policy.lease_ms);
    if now < expires {
        Some(expires)
    } else {
        None
    }
}

/// How far the orphan cleanup of a session has gone. A claim is provisional:
/// a client keepalive cancels it. The commit rechecks the lease and is final.
#[derive(Clone, Copy, Debug, PartialEq, Eq, Structural)]
pub enum CleanupStage {
    Unclaimed,
    Claimed,
    Committed,
}

/// The stage after a claim attempt, and whether the claim was made: only an
/// unclaimed session whose cleanup is due can be claimed.
pub open spec fn claimed(s: CleanupStage, due: bool) -> (CleanupStage, bool) {
    if s == CleanupStage::Unclaimed && due {
        (CleanupStage::Claimed, true)
    } else {
        (s, false)
    }
}

/// The stage after the final recheck: a claimed session whose cleanup is
/// still due is committed; one that is no longer due loses its claim.
pub open spec fn committed(s: CleanupStage, due: bool) -> (CleanupStage, bool) {
    if s == CleanupStage::Claimed {
        if due {
            (CleanupStage::Committed, true)
        } else {
            (CleanupStage::Unclaimed, false)
        }
    } else {
        (s, false)
    }
}

/// The stage after a client keepalive: a provisional claim is dropped, a
/// committed cleanup goes on.
pub open spec fn cancelled(s: CleanupStage) -> (CleanupStage, bool) {
    if s == CleanupStage::Claimed {
        (CleanupStage::Unclaimed, true)
    } else {
        (s, false)
    }
}

impl CleanupStage {
    /// Whether cleanup has begun, which refuses new input.
    pub fn started(&self) -> (r: bool)
        ensures
            r == (*self != CleanupStage::Unclaimed),
    {
        !matches!(self, CleanupStage::Unclaimed)
    }

    pub fn claim(&mut self, due: bool) -> (r: bool)
        ensures
            (*final(self), r) == claimed(*old(self), due),
    {
        if *self == CleanupStage::Unclaimed && due {
            *self = CleanupStage::Claimed;
            true
        } else {
            false
        }
    }

    pub fn commit(&mut self, due: bool) -> (r: bool)
        ensures
            (*final(self), r) == committed(*old(self), due),
    {
        match *self {
            CleanupStage::Claimed => {
                if due {
                    *self = CleanupStage::Committed;
                    true
                } else {
                    *self = CleanupStage::Unclaimed;
                    false
                }
            },
            _ => false,
        }
    }

    pub fn cancel(&mut self) -> (r: bool)
        ensures
            (*final(self), r) == cancelled(*old(self)),
    {
        if *self == CleanupStage::Claimed {
            *self = CleanupStage::Unclaimed;
            true
        } else {
            false
        }
    }

    /// A cleanup whose close did not succeed is given up, so that a later
    /// pass can claim the session again.
    pub fn reset(&mut self)
        ensures
            *final(self) == CleanupStage::Unclaimed,
    {
        *self = CleanupStage::Unclaimed;
    }
}

/// A session is cleaned up only through a claim and then a commit, each made
/// while its cleanup was due; a keepalive between the two saves it, and once
/// committed no keepalive takes the cleanup back.
pub proof fn lemma_cleanup_needs_claim_then_due_commit(s: CleanupStage, due_claim: bool, due_commit: bool)
    requires
        s == CleanupStage::Unclaimed,
    ensures
        committed(claimed(s, due_claim).0, due_commit).0 == CleanupStage::Committed <==> (due_claim
            && due_commit),
        committed(cancelled(claimed(s, due_claim).0).0, due_commit).0 == CleanupStage::Unclaimed,
        cancelled(CleanupStage::Committed) == (CleanupStage::Committed, false),
{
}

/// A client lease that is still running protects its session from orphan
/// cleanup, and so does a session that is starting or mid-turn.
pub proof fn lemma_live_client_or_busy_session_is_never_reaped(
    last_seen: Option<u64>,
    policy: OrphanPolicy,
    phase: SessionPhase,
    phase_changed_at_ms: u64,
    now: u64,
)
    ensures
        (last_seen matches Some(seen) && now < sat_add(seen, policy.lease_ms)) ==> !cleanup_due(
            last_seen,
            policy,
            phase,
            phase_changed_at_ms,
            now,
        ),
        (phase == SessionPhase::Starting || phase == SessionPhase::Running) ==> !cleanup_due(
            last_seen,
            policy,
            phase,
            phase_changed_at_ms,
            now,
        ),
        last_seen is None ==> !cleanup_due(last_seen, policy, phase, phase_changed_at_ms, now),
{
}

/// An orphaned session is closed no earlier than its lease expiry plus the
/// grace period.
pub proof fn lemma_cleanup_waits_for_grace(
    seen: u64,
    policy: OrphanPolicy,
    phase: SessionPhase,
    phase_changed_at_ms: u64,
    now: u64,
)
    requires
        cleanup_due(Some(seen), policy, phase, phase_changed_at_ms, now),
    ensures
        now >= sat_add(sat_add(seen, policy.lease_ms), policy.grace_ms),
        now >= sat_add(phase_changed_at_ms, policy.grace_ms),
        phase == SessionPhase::Idle || is_terminal(phase),
{
}


// ---------------------------------------------------------------------------
// Process scope liveness and termination
// ---------------------------------------------------------------------------

/// Result of a liveness probe of a session's process scope.
#[derive(Clone, Copy, Debug, PartialEq, Eq, Structural)]
pub enum ScopeAlive {
    /// The whole process scope is verifiably gone.
    Gone,
    /// The process scope is still alive.
    Alive,
    /// Liveness could not be verified; never treated as gone.
    Unknown,
}

pub open spec fn stable_scan(first: (ScopeAlive, Seq<u32>), second: (ScopeAlive, Seq<u32>)) -> ScopeAlive {
    if first.0 != ScopeAlive::Gone {
        first.0
    } else if second.0 != ScopeAlive::Gone {
        second.0
    } else if first.1 == second.1 {
        ScopeAlive::Gone
    } else {
        ScopeAlive::Unknown
    }
}

/// Two scans of a process group that only found zombies certify it gone only
/// when both saw the same member list.
pub fn stable_process_group_scan_result(
    first: (ScopeAlive, Vec<u32>),
    second: (ScopeAlive, Vec<u32>),
) -> (r: ScopeAlive)
    ensures
        r == stable_scan((first.0, first.1@), (second.0, second.1@)),
{
    if first.0 != ScopeAlive::Gone {
        return first.0;
    }
    if second.0 != ScopeAlive::Gone {
        return second.0;
    }
    let a = &first.1;
    let b = &second.1;
    if a.len() != b.len() {
        return ScopeAlive::Unknown;
    }
    let mut i: usize = 0;
    while i < a.len()
        invariant
            a.len() == b.len(),
            i <= a.len(),
            first.0 == ScopeAlive::Gone,
            second.0 == ScopeAlive::Gone,
            a@ == first.1@,
            b@ == second.1@,
            forall|k: int| 0 <= k < i ==> a@[k] == b@[k],
        decreases a.len() - i,
    {
        if a[i] != b[i] {
            assert(a@[i as int] != b@[i as int]);
            return ScopeAlive::Unknown;
        }
        i = i + 1;
    }
    assert(a@ =~= b@);
    ScopeAlive::Gone
}

/// The strongest Unix signal already sent to a process group.
#[derive(Clone, Copy, Debug, PartialEq, Eq, Structural)]
pub enum TerminationLevel {
    /// No signal sent yet.
    Unsignaled,
    Hup,
    Term,
    Kill,
}

pub open spec fn level_rank(l: TerminationLevel) -> nat {
    match l {
        TerminationLevel::Unsignaled => 0,
        TerminationLevel::Hup => 1,
        TerminationLevel::Term => 2,
        TerminationLevel::Kill => 3,
    }
}

pub fn termination_rank(l: TerminationLevel) -> (r: u8)
    ensures
        r == level_rank(l),
{
    match l {
        TerminationLevel::Unsignaled => 0,
        TerminationLevel::Hup => 1,
        TerminationLevel::Term => 2,
        TerminationLevel::Kill => 3,
    }
}

/// Whether a signal at `target` must be sent when `sent` was already sent:
/// only a stronger level, except that KILL is repeated while the group lives.
pub fn should_signal(target: TerminationLevel, sent: TerminationLevel) -> (r: bool)
    ensures
        r == !(level_rank(target) < level_rank(sent) || (target == sent && target
            != TerminationLevel::Kill)),
{
    let t = termination_rank(target);
    let s = termination_rank(sent);
    !(t < s || (t == s && target != TerminationLevel::Kill))
}

/// The level recorded after sending `target` when `sent` was recorded.
pub fn raised_level(target: TerminationLevel, sent: TerminationLevel) -> (r: TerminationLevel)
    ensures
        r == (if level_rank(target) > level_rank(sent) {
            target
        } else {
            sent
        }),
{
    if termination_rank(target) > termination_rank(sent) {
        target
    } else {
        sent
    }
}

/// The level that the escalation schedule asks for at time `now`: HUP, then
/// TERM from `term_at`, then KILL from `kill_at`.
pub fn escalation_target(now: u64, term_at: u64, kill_at: u64) -> (r: TerminationLevel)
    ensures
        r == (if now < term_at {
            TerminationLevel::Hup
        } else if now < kill_at {
            TerminationLevel::Term
        } else {
            TerminationLevel::Kill
        }),
{
    if now < term_at {
        TerminationLevel::Hup
    } else if now < kill_at {
        TerminationLevel::Term
    } else {
        TerminationLevel::Kill
    }
}

/// The shortest time between two termination signals of one close.
pub const TERMINATION_GRACE_MIN_MS: u64 = 500;

/// The close budget of a single close.
pub const PROCESS_TERMINATE_TIMEOUT_MS: u64 = 5000;

pub open spec fn max_u64(a: u64, b: u64) -> u64 {
    if a >= b { a } else { b }
}

/// When, counted from the start of a close with `budget_ms` to spend, SIGTERM
/// and SIGKILL are due: after a third and two thirds of the budget (whole
/// milliseconds), each at least the grace after the previous signal.
pub open spec fn escalation_milestones_of(budget_ms: u64) -> (u64, u64) {
    let term = max_u64(budget_ms / 3, TERMINATION_GRACE_MIN_MS);
    let two_thirds = max_u64(((budget_ms as int * 2) / 3) as u64, TERMINATION_GRACE_MIN_MS);
    (term, max_u64(two_thirds, (term + TERMINATION_GRACE_MIN_MS) as u64))
}

pub fn escalation_milestones(budget_ms: u64) -> (r: (u64, u64))
    ensures
        r == escalation_milestones_of(budget_ms),
        r.0 < r.1,
{
    let third = budget_ms / 3;
    let term = if third >= TERMINATION_GRACE_MIN_MS { third } else { TERMINATION_GRACE_MIN_MS };
    let rest = budget_ms % 3;
    assert(((budget_ms as int * 2) / 3) == third * 2 + (rest * 2) / 3) by (nonlinear_arith)
        requires
            third == budget_ms / 3,
            rest == budget_ms % 3,
    ;
    let two = third * 2 + (rest * 2) / 3;
    let two_thirds = if two >= TERMINATION_GRACE_MIN_MS { two } else { TERMINATION_GRACE_MIN_MS };
    let after_term = term + TERMINATION_GRACE_MIN_MS;
    let kill = if two_thirds >= after_term { two_thirds } else { after_term };
    (term, kill)
}

/// How one close attempt of a group close ended.
#[derive(Clone, Debug, PartialEq, Eq)]
pub enum CloseOutcome {
    Closed,
    /// The attempt ran out of the group's shared deadline; the process is kept
    /// so that a later close can continue.
    Timeout,
    Failed(String),
}

/// The result of closing a group of sessions: how many matched, how many
/// closed, and a note for each one that timed out or failed.
#[derive(Clone, Debug, PartialEq, Eq)]
pub struct CloseGroupResult {
    pub matched: usize,
    pub closed: usize,
    pub timed_out: Vec<String>,
    pub failures: Vec<String>,
}

impl CloseGroupResult {
    /// Every matched session closed: nothing timed out and nothing failed.
    /// Only then is a client's lease dropped after closing its sessions.
    pub fn fully_closed(&self) -> (r: bool)
        ensures
            r == (self.timed_out@.len() == 0 && self.failures@.len() == 0),
    {
        self.timed_out.len() == 0 && self.failures.len() == 0
    }
}

/// Why closing one session did not succeed.
#[derive(Clone, Debug, PartialEq, Eq)]
pub enum CloseError {
    NotFound(String),
    Timeout,
    Failed(String),
}

pub open spec fn close_error_text(e: CloseError) -> Seq<char> {
    match e {
        CloseError::NotFound(h) => "session not found: "@ + h@,
        CloseError::Timeout => "close timed out after 5000 ms; the Grok process is still running; retry close to continue termination"@,
        CloseError::Failed(m) => m@,
    }
}

impl CloseError {
    /// The HTTP status line that the WebUI close endpoint answers with.
    pub fn http_status(&self) -> (r: &'static str)
        ensures
            r@ == (match *self {
                CloseError::NotFound(_) => "404 Not Found"@,
                CloseError::Timeout => "504 Gateway Timeout"@,
                CloseError::Failed(_) => "500 Internal Server Error"@,
            }),
    {
        match self {
            CloseError::NotFound(_) => "404 Not Found",
            CloseError::Timeout => "504 Gateway Timeout",
            CloseError::Failed(_) => "500 Internal Server Error",
        }
    }

    pub fn message(&self) -> (r: String)
        ensures
            r@ == close_error_text(*self),
    {
        match self {
            CloseError::NotFound(h) => crate::text::concat("session not found: ", h.as_str()),
            CloseError::Timeout => "close timed out after 5000 ms; the Grok process is still running; retry close to continue termination".to_string(),
            CloseError::Failed(m) => m.clone(),
        }
    }
}

pub open spec fn timeout_note(handle: Seq<char>) -> Seq<char> {
    handle + ": close timed out after the shared group deadline; retry close to continue termination"@
}

pub open spec fn failure_note(handle: Seq<char>, message: Seq<char>) -> Seq<char> {
    handle + ": "@ + message
}

/// Closed count, timeout notes and failure notes of a group's outcomes, in
/// the order in which the outcomes arrived.
pub open spec fn close_notes(s: Seq<(String, CloseOutcome)>) -> (nat, Seq<Seq<char>>, Seq<Seq<char>>)
    decreases s.len(),
{
    if s.len() == 0 {
        (0, Seq::empty(), Seq::empty())
    } else {
        let (c, t, f) = close_notes(s.drop_last());
        let h = s.last().0@;
        match s.last().1 {
            CloseOutcome::Closed => (c + 1, t, f),
            CloseOutcome::Timeout => (c, t.push(timeout_note(h)), f),
            CloseOutcome::Failed(m) => (c, t, f.push(failure_note(h, m@))),
        }
    }
}

pub open spec fn strings_view(v: Seq<String>) -> Seq<Seq<char>> {
    v.map_values(|x: String| x@)
}

proof fn lemma_close_notes_bounded(s: Seq<(String, CloseOutcome)>)
    ensures
        close_notes(s).0 <= s.len(),
    decreases s.len(),
{
    if s.len() > 0 {
        lemma_close_notes_bounded(s.drop_last());
    }
}

/// Sums up the outcomes of a group close.
pub fn summarize_close_group(outcomes: &Vec<(String, CloseOutcome)>) -> (r: CloseGroupResult)
    ensures
        r.matched == outcomes@.len(),
        r.closed == close_notes(outcomes@).0,
        strings_view(r.timed_out@) == close_notes(outcomes@).1,
        strings_view(r.failures@) == close_notes(outcomes@).2,
{
    let mut closed: usize = 0;
    let mut timed_out: Vec<String> = Vec::new();
    let mut failures: Vec<String> = Vec::new();
    let mut i: usize = 0;
    while i < outcomes.len()
        invariant
            i <= outcomes@.len(),
            closed == close_notes(outcomes@.take(i as int)).0,
            strings_view(timed_out@) == close_notes(outcomes@.take(i as int)).1,
            strings_view(failures@) == close_notes(outcomes@.take(i as int)).2,
        decreases outcomes.len() - i,
    {
        proof {
            assert(outcomes@.take(i + 1).drop_last() =~= outcomes@.take(i as int));
            lemma_close_notes_bounded(outcomes@.take(i as int));
        }
        let handle = outcomes[i].0.as_str();
        match &outcomes[i].1 {
            CloseOutcome::Closed => {
                closed = closed + 1;
            },
            CloseOutcome::Timeout => {
                timed_out.push(
                    crate::text::concat(
                        handle,
                        ": close timed out after the shared group deadline; retry close to continue termination",
                    ),
                );
                assert(strings_view(timed_out@) =~= close_notes(outcomes@.take(i + 1)).1);
            },
            CloseOutcome::Failed(message) => {
                let head = crate::text::concat(handle, ": ");
                failures.push(crate::text::concat(head.as_str(), message.as_str()));
                assert(strings_view(failures@) =~= close_notes(outcomes@.take(i + 1)).2);
            },
        }
        i = i + 1;
    }
    proof {
        assert(outcomes@.take(outcomes@.len() as int) =~= outcomes@);
    }
    CloseGroupResult { matched: outcomes.len(), closed, timed_out, failures }
}

// ---------------------------------------------------------------------------
// Grok's command line
// ---------------------------------------------------------------------------

pub open spec fn argv_view(v: Seq<String>) -> Seq<Seq<char>> {
    v.map_values(|s: String| s@)
}

/// The arguments of an interactive Grok session: its session id, then
/// `--always-approve`, `--model <model>` and the prompt when given.
pub open spec fn grok_argv(
    provider_session_id: Seq<char>,
    always_approve: bool,
    model: Option<Seq<char>>,
    prompt: Option<Seq<char>>,
) -> Seq<Seq<char>> {
    let a = seq!["--session-id"@, provider_session_id];
    let b = if always_approve {
        a.push("--always-approve"@)
    } else {
        a
    };
    let c = match model {
        Some(m) => b.push("--model"@).push(m),
        None => b,
    };
    match prompt {
        Some(p) => c.push(p),
        None => c,
    }
}

pub fn grok_arguments(
    provider_session_id: &str,
    always_approve: bool,
    model: Option<&str>,
    prompt: Option<&str>,
) -> (r: Vec<String>)
    ensures
        argv_view(r@) == grok_argv(
            provider_session_id@,
            always_approve,
            match model {
                Some(m) => Some(m@),
                None => None,
            },
            match prompt {
                Some(p) => Some(p@),
                None => None,
            },
        ),
{
    let mut argv: Vec<String> = Vec::new();
    argv.push("--session-id".to_string());
    argv.push(provider_session_id.to_string());
    let ghost a = argv_view(argv@);
    assert(a =~= seq!["--session-id"@, provider_session_id@]);
    if always_approve {
        argv.push("--always-approve".to_string());
    }
    let ghost b = argv_view(argv@);
    assert(b =~= if always_approve { a.push("--always-approve"@) } else { a });
    if let Some(m) = model {
        argv.push("--model".to_string());
        argv.push(m.to_string());
    }
    let ghost c = argv_view(argv@);
    assert(c =~= match model {
        Some(m) => b.push("--model"@).push(m@),
        None => b,
    });
    if let Some(p) = prompt {
        argv.push(p.to_string());
    }
    assert(argv_view(argv@) =~= match prompt {
        Some(p) => c.push(p@),
        None => c,
    });
    argv
}

// ---------------------------------------------------------------------------
// Launch settings
// ---------------------------------------------------------------------------

#[derive(Clone, Copy, Debug, PartialEq, Eq, Structural)]
pub enum LaunchError {
    EmptyPrompt,
    PromptTooLarge,
    ModelLength,
    ModelCharacters,
}

pub const MAX_PROMPT_BYTES: usize = 131072;
pub const MAX_MODEL_BYTES: usize = 256;

pub open spec fn prompt_error(prompt: Option<Seq<char>>) -> Option<LaunchError> {
    match prompt {
        None => None,
        Some(p) => if crate::text::is_blank(p) {
            Some(LaunchError::EmptyPrompt)
        } else if crate::text::utf8_len(p) > MAX_PROMPT_BYTES {
            Some(LaunchError::PromptTooLarge)
        } else {
            None
        },
    }
}

pub fn validate_prompt(prompt: Option<&str>) -> (r: Result<(), LaunchError>)
    ensures
        r == (match prompt_error(match prompt {
            Some(p) => Some(p@),
            None => None,
        }) {
            Some(e) => Err(e),
            None => Ok::<(), LaunchError>(()),
        }),
{
    if let Some(p) = prompt {
        if crate::text::str_is_blank(p) {
            return Err(LaunchError::EmptyPrompt);
        }
        if p.as_bytes().len() > MAX_PROMPT_BYTES {
            return Err(LaunchError::PromptTooLarge);
        }
    }
    Ok(())
}

pub open spec fn model_char(c: char) -> bool {
    ('a' <= c && c <= 'z') || ('A' <= c && c <= 'Z') || ('0' <= c && c <= '9') || c == '-' || c
        == '_' || c == '.' || c == ':' || c == '/'
}

pub open spec fn model_error(model: Option<Seq<char>>) -> Option<LaunchError> {
    match model {
        None => None,
        Some(m) => if m.len() == 0 || crate::text::utf8_len(m) > MAX_MODEL_BYTES {
            Some(LaunchError::ModelLength)
        } else if !(forall|i: int| 0 <= i < m.len() ==> model_char(#[trigger] m[i])) {
            Some(LaunchError::ModelCharacters)
        } else {
            None
        },
    }
}

/// A model name: between 1 and 256 bytes of ASCII letters, digits and `-_.:/`.
pub fn validate_model(model: Option<&str>) -> (r: Result<(), LaunchError>)
    ensures
        r == (match model_error(match model {
            Some(m) => Some(m@),
            None => None,
        }) {
            Some(e) => Err(e),
            None => Ok::<(), LaunchError>(()),
        }),
{
    if let Some(m) = model {
        if m.is_empty() || m.as_bytes().len() > MAX_MODEL_BYTES {
            return Err(LaunchError::ModelLength);
        }
        let v = chars_of(m);
        let mut i: usize = 0;
        while i < v.len()
            invariant
                v@ == m@,
                model == Some(m),
                m@.len() > 0,
                crate::text::utf8_len(m@) <= MAX_MODEL_BYTES,
                i <= v.len(),
                forall|k: int| 0 <= k < i ==> model_char(#[trigger] v@[k]),
            decreases v.len() - i,
        {
            let c = v[i];
            if !(('a' <= c && c <= 'z') || ('A' <= c && c <= 'Z') || ('0' <= c && c <= '9') || c
                == '-' || c == '_' || c == '.' || c == ':' || c == '/') {
                assert(!model_char(v@[i as int]));
                return Err(LaunchError::ModelCharacters);
            }
            i = i + 1;
        }
    }
    Ok(())
}

/// Unix path semantics: a path is absolute when it starts with `/`.
pub open spec fn is_absolute_path(p: Seq<char>) -> bool {
    p.len() > 0 && p[0] == '/'
}

/// `Path::join` on Unix: an absolute path replaces the base, otherwise the
/// two are joined with one separator.
pub open spec fn join_path(base: Seq<char>, p: Seq<char>) -> Seq<char> {
    if is_absolute_path(p) {
        p
    } else if base.len() == 0 || base.last() == '/' {
        base + p
    } else {
        base + seq!['/'] + p
    }
}

pub fn join_path_chars(base: &str, p: &str) -> (r: String)
    ensures
        r@ == join_path(base@, p@),
{
    let b = chars_of(base);
    let q = chars_of(p);
    if q.len() > 0 && q[0] == '/' {
        return p.to_owned();
    }
    let mut out = b.clone();
    if !(b.len() == 0 || b[b.len() - 1] == '/') {
        out.push('/');
    }
    let ghost head = out@;
    let mut i: usize = 0;
    while i < q.len()
        invariant
            i <= q.len(),
            out@ == head + q@.take(i as int),
        decreases q.len() - i,
    {
        out.push(q[i]);
        proof {
            assert(q@.take(i + 1) =~= q@.take(i as int).push(q@[i as int]));
        }
        i = i + 1;
    }
    proof {
        assert(q@.take(q@.len() as int) =~= q@);
        if !(b@.len() == 0 || b@.last() == '/') {
            assert(head =~= b@ + seq!['/']);
        }
    }
    crate::text::string_from_chars(&out)
}

/// A relative Grok state directory is resolved against the session's
/// working directory.
pub fn resolve_state_dir_from_cwd(cwd: &str, state_dir: &str) -> (r: String)
    ensures
        r@ == (if is_absolute_path(state_dir@) {
            state_dir@
        } else {
            join_path(cwd@, state_dir@)
        }),
{
    join_path_chars(cwd, state_dir)
}

pub open spec fn verbatim_normalized(p: Seq<char>) -> Seq<char> {
    if crate::text::starts_with(p, "\\\\?\\UNC\\"@) {
        "\\\\"@ + p.skip(8)
    } else if crate::text::starts_with(p, "\\\\?\\"@) {
        p.skip(4)
    } else {
        p
    }
}

/// Windows verbatim paths (`\\?\D:\x`, `\\?\UNC\server\share`) in the form
/// that child processes understand (`D:\x`, `\\server\share`).
pub fn normalize_verbatim_path(path: &str) -> (r: String)
    ensures
        r@ == verbatim_normalized(path@),
{
    proof {
        reveal_strlit("\\\\?\\UNC\\");
        reveal_strlit("\\\\?\\");
        reveal_strlit("\\\\");
    }
    let v = chars_of(path);
    let skip: usize = if crate::text::chars_start_with_str(&v, "\\\\?\\UNC\\") {
        8
    } else if crate::text::chars_start_with_str(&v, "\\\\?\\") {
        4
    } else {
        return path.to_owned();
    };
    let mut out: Vec<char> = if skip == 8 {
        vec!['\\', '\\']
    } else {
        Vec::new()
    };
    let ghost head = out@;
    let mut i: usize = skip;
    while i < v.len()
        invariant
            skip <= i <= v.len(),
            out@ == head + v@.subrange(skip as int, i as int),
        decreases v.len() - i,
    {
        out.push(v[i]);
        proof {
            assert(v@.subrange(skip as int, i + 1) =~= v@.subrange(skip as int, i as int).push(
                v@[i as int],
            ));
        }
        i = i + 1;
    }
    proof {
        assert(v@.subrange(skip as int, v@.len() as int) =~= v@.skip(skip as int));
        if skip == 8 {
            assert(head =~= "\\\\"@);
        } else {
            assert(head =~= Seq::<char>::empty());
            assert(out@ =~= v@.skip(4));
        }
    }
    crate::text::string_from_chars(&out)
}


// ---------------------------------------------------------------------------
// Terminal input
// ---------------------------------------------------------------------------

pub const WRITER_QUEUE_MAX_BYTES: usize = 262144;

/// How many writes, input and terminal replies together, may wait for the
/// terminal at once.
pub const WRITER_QUEUE_CAPACITY: usize = 64;

/// Whether one more write fits in the writer queue. A terminal reply that
/// does not fit is dropped; it never counts toward the byte budget.
pub fn writer_queue_has_room(pending_items: usize) -> (r: bool)
    ensures
        r == (pending_items < WRITER_QUEUE_CAPACITY),
{
    pending_items < WRITER_QUEUE_CAPACITY
}

/// Why terminal input was not accepted.
#[derive(Clone, Copy, Debug, PartialEq, Eq, Structural)]
pub enum InputError {
    EmptyInput,
    EmptyData,
    DataTooLarge,
    AlreadyStopped,
    CleanupStarted,
    NotWritable,
    ChannelClosed,
    QueueFull,
}

pub open spec fn input_error_text(e: InputError) -> Seq<char> {
    match e {
        InputError::EmptyInput => "input must not be empty"@,
        InputError::EmptyData => "terminal data must not be empty"@,
        InputError::DataTooLarge => "terminal data exceeds the 64 KiB limit"@,
        InputError::AlreadyStopped => "session has already stopped"@,
        InputError::CleanupStarted => "session cleanup has started"@,
        InputError::NotWritable => "session is not writable"@,
        InputError::ChannelClosed => "session input channel is closed"@,
        InputError::QueueFull => "session input queue is full"@,
    }
}

impl InputError {
    /// The message a client is shown for this refusal.
    pub fn message(&self) -> (r: &'static str)
        ensures
            r@ == input_error_text(*self),
    {
        match self {
            InputError::EmptyInput => "input must not be empty",
            InputError::EmptyData => "terminal data must not be empty",
            InputError::DataTooLarge => "terminal data exceeds the 64 KiB limit",
            InputError::AlreadyStopped => "session has already stopped",
            InputError::CleanupStarted => "session cleanup has started",
            InputError::NotWritable => "session is not writable",
            InputError::ChannelClosed => "session input channel is closed",
            InputError::QueueFull => "session input queue is full",
        }
    }
}

pub open spec fn bracketed_paste(b: Seq<u8>) -> Seq<u8> {
    seq![0x1bu8, 0x5bu8, 0x32u8, 0x30u8, 0x30u8, 0x7eu8] + b + seq![
        0x1bu8,
        0x5bu8,
        0x32u8,
        0x30u8,
        0x31u8,
        0x7eu8,
        0x0du8,
    ]
}

pub open spec fn ascii_control_byte(b: u8) -> bool {
    b <= 0x1f || b == 0x7f
}

/// The bytes sent for a text input, and whether it starts a turn: a single
/// control byte goes as is (a lone Ctrl-C does not start a turn); any other
/// text is sent as a bracketed paste followed by Enter.
pub open spec fn framed_input(input: Seq<char>) -> (Seq<u8>, bool) {
    let b = vstd::utf8::encode_utf8(input);
    let starts = !(b.len() == 1 && b[0] == 0x03);
    if b.len() == 1 && ascii_control_byte(b[0]) {
        (b, starts)
    } else {
        (bracketed_paste(b), starts)
    }
}

/// How text input is framed, over its UTF-8 bytes `b`: a lone ASCII control
/// byte (0x00 to 0x1f, or 0x7f) is sent as it is; any other text is sent as
/// ESC [ 2 0 0 ~, the bytes, ESC [ 2 0 1 ~ and a carriage return. Only a lone
/// Ctrl-C (0x03) does not start a turn.
pub proof fn lemma_text_input_framing(input: Seq<char>)
    ensures
        ({
            let b = vstd::utf8::encode_utf8(input);
            let (data, starts) = framed_input(input);
            &&& starts == (b != seq![0x03u8])
            &&& (b.len() == 1 && (b[0] <= 0x1f || b[0] == 0x7f)) ==> data == b
            &&& !(b.len() == 1 && (b[0] <= 0x1f || b[0] == 0x7f)) ==> data == seq![
                0x1bu8,
                0x5bu8,
                0x32u8,
                0x30u8,
                0x30u8,
                0x7eu8,
            ] + b + seq![0x1bu8, 0x5bu8, 0x32u8, 0x30u8, 0x31u8, 0x7eu8, 0x0du8]
        }),
{
    let b = vstd::utf8::encode_utf8(input);
    if b.len() == 1 && b[0] == 0x03 {
        assert(b =~= seq![0x03u8]);
    }
}

pub fn frame_text_input(input: &str) -> (r: Result<(Vec<u8>, bool), InputError>)
    ensures
        match r {
            Ok((data, starts)) => input@.len() > 0 && (data@, starts) == framed_input(input@),
            Err(e) => input@.len() == 0 && e == InputError::EmptyInput,
        },
{
    if input.is_empty() {
        return Err(InputError::EmptyInput);
    }
    let bytes = input.as_bytes();
    let starts_turn = !(bytes.len() == 1 && bytes[0] == 0x03);
    if bytes.len() == 1 && (bytes[0] <= 0x1f || bytes[0] == 0x7f) {
        let v = vstd::slice::slice_to_vec(bytes);
        return Ok((v, starts_turn));
    }
    let mut data: Vec<u8> = vec![0x1b, 0x5b, 0x32, 0x30, 0x30, 0x7e];
    let ghost head = data@;
    let mut i: usize = 0;
    while i < bytes.len()
        invariant
            i <= bytes@.len(),
            data@ == head + bytes@.take(i as int),
        decreases bytes.len() - i,
    {
        data.push(bytes[i]);
        proof {
            assert(bytes@.take(i + 1) =~= bytes@.take(i as int).push(bytes@[i as int]));
        }
        i = i + 1;
    }
    data.push(0x1b);
    data.push(0x5b);
    data.push(0x32);
    data.push(0x30);
    data.push(0x31);
    data.push(0x7e);
    data.push(0x0d);
    proof {
        assert(bytes@.take(bytes@.len() as int) =~= bytes@);
        assert(data@ =~= bracketed_paste(bytes@));
    }
    Ok((data, starts_turn))
}

/// A raw terminal write: between 1 byte and 64 KiB; it starts a turn when it
/// submits a line.
pub fn check_raw_input(data: &[u8]) -> (r: Result<bool, InputError>)
    ensures
        match r {
            Ok(starts) => 0 < data@.len() <= crate::protocol::MAX_WRITE_BYTES && starts == exists|
                i: int,
            | 0 <= i < data@.len() && (data@[i] == 0x0d || data@[i] == 0x0a),
            Err(e) => (data@.len() == 0 && e == InputError::EmptyData) || (data@.len()
                > crate::protocol::MAX_WRITE_BYTES && e == InputError::DataTooLarge),
        },
{
    if data.len() == 0 {
        return Err(InputError::EmptyData);
    }
    if data.len() > crate::protocol::MAX_WRITE_BYTES {
        return Err(InputError::DataTooLarge);
    }
    Ok(raw_input_starts_turn(data))
}

/// Whether a session accepts input now, in the order the checks are made:
/// a stopped session, a claimed cleanup, a finished or failed process, a
/// closed writer, and finally the byte budget of the writer queue.
pub open spec fn input_gate(
    shutdown: bool,
    cleanup_started: bool,
    status: StatusView,
    writer_open: bool,
    pending_bytes: nat,
    pending_items: nat,
    len: nat,
) -> Option<InputError> {
    if shutdown {
        Some(InputError::AlreadyStopped)
    } else if cleanup_started {
        Some(InputError::CleanupStarted)
    } else if status.process_done || is_terminal(status.phase) || status.error is Some {
        Some(InputError::NotWritable)
    } else if !writer_open {
        Some(InputError::ChannelClosed)
    } else if pending_bytes + len > WRITER_QUEUE_MAX_BYTES {
        Some(InputError::QueueFull)
    } else if pending_items >= WRITER_QUEUE_CAPACITY {
        Some(InputError::QueueFull)
    } else {
        None
    }
}

/// Input that is admitted keeps the writer queue within both of its bounds:
/// the bytes waiting stay within the byte budget, and the queue still has
/// room for the write.
pub proof fn lemma_admitted_input_keeps_queue_bounds(
    shutdown: bool,
    cleanup_started: bool,
    status: StatusView,
    writer_open: bool,
    pending_bytes: nat,
    pending_items: nat,
    len: nat,
)
    requires
        input_gate(shutdown, cleanup_started, status, writer_open, pending_bytes, pending_items, len) is None,
    ensures
        pending_bytes + len <= WRITER_QUEUE_MAX_BYTES,
        pending_items + 1 <= WRITER_QUEUE_CAPACITY,
{
}

pub fn admit_input(
    shutdown: bool,
    cleanup_started: bool,
    status: &SessionStatus,
    writer_open: bool,
    pending_bytes: usize,
    pending_items: usize,
    len: usize,
) -> (r: Result<(), InputError>)
    ensures
        r == (match input_gate(
            shutdown,
            cleanup_started,
            status@,
            writer_open,
            pending_bytes as nat,
            pending_items as nat,
            len as nat,
        ) {
            Some(e) => Err(e),
            None => Ok::<(), InputError>(()),
        }),
{
    if shutdown {
        return Err(InputError::AlreadyStopped);
    }
    if cleanup_started {
        return Err(InputError::CleanupStarted);
    }
    if status.process_done || phase_is_terminal(status.phase) || status.error.is_some() {
        return Err(InputError::NotWritable);
    }
    if !writer_open {
        return Err(InputError::ChannelClosed);
    }
    if pending_bytes > WRITER_QUEUE_MAX_BYTES || len > WRITER_QUEUE_MAX_BYTES - pending_bytes {
        return Err(InputError::QueueFull);
    }
    if pending_items >= WRITER_QUEUE_CAPACITY {
        return Err(InputError::QueueFull);
    }
    Ok(())
}

// ---------------------------------------------------------------------------
// Terminal queries answered on Grok's behalf
// ---------------------------------------------------------------------------

pub open spec fn ascii_bytes(s: Seq<char>) -> Seq<u8> {
    s.map_values(|c: char| c as u8)
}

/// The reply to a CSI query that the screen model does not answer itself:
/// a device status report (`CSI 5 n`), a cursor position report (`CSI 6 n`,
/// one-based) and primary device attributes (`CSI c` / `CSI 0 c`).
pub open spec fn csi_reply(
    final_char: char,
    intermediate: bool,
    first_param: Option<u16>,
    row: u16,
    col: u16,
) -> Option<Seq<u8>> {
    if intermediate {
        None
    } else if final_char == 'n' && first_param == Some(5u16) {
        Some(seq![0x1bu8, 0x5bu8, 0x30u8, 0x6eu8])
    } else if final_char == 'n' && first_param == Some(6u16) {
        Some(
            seq![0x1bu8, 0x5bu8] + ascii_bytes(crate::text::decimal((row + 1) as nat)) + seq![0x3bu8]
                + ascii_bytes(crate::text::decimal((col + 1) as nat)) + seq![0x52u8],
        )
    } else if final_char == 'c' && (first_param is None || first_param == Some(0u16)) {
        Some(seq![0x1bu8, 0x5bu8, 0x3fu8, 0x31u8, 0x3bu8, 0x32u8, 0x63u8])
    } else {
        None
    }
}

fn push_ascii(out: &mut Vec<u8>, chars: &Vec<char>)
    ensures
        final(out)@ == old(out)@ + ascii_bytes(chars@),
{
    let ghost head = out@;
    let mut i: usize = 0;
    while i < chars.len()
        invariant
            i <= chars.len(),
            out@ == head + ascii_bytes(chars@.take(i as int)),
        decreases chars.len() - i,
    {
        out.push(chars[i] as u8);
        proof {
            assert(ascii_bytes(chars@.take(i + 1)) =~= ascii_bytes(chars@.take(i as int)).push(
                chars@[i as int] as u8,
            ));
        }
        i = i + 1;
    }
    proof {
        assert(chars@.take(chars@.len() as int) =~= chars@);
    }
}

pub fn csi_response(
    final_char: char,
    first_intermediate: Option<u8>,
    second_intermediate: Option<u8>,
    first_param: Option<u16>,
    row: u16,
    col: u16,
) -> (r: Option<Vec<u8>>)
    ensures
        match r {
            Some(v) => csi_reply(
                final_char,
                first_intermediate is Some || second_intermediate is Some,
                first_param,
                row,
                col,
            ) == Some(v@),
            None => csi_reply(
                final_char,
                first_intermediate is Some || second_intermediate is Some,
                first_param,
                row,
                col,
            ) is None,
        },
{
    if first_intermediate.is_some() || second_intermediate.is_some() {
        return None;
    }
    if final_char == 'n' && first_param == Some(5u16) {
        return Some(vec![0x1b, 0x5b, 0x30, 0x6e]);
    }
    if final_char == 'n' && first_param == Some(6u16) {
        let mut out: Vec<u8> = vec![0x1b, 0x5b];
        let r = crate::text::decimal_chars(row as u64 + 1);
        push_ascii(&mut out, &r);
        out.push(0x3b);
        let c = crate::text::decimal_chars(col as u64 + 1);
        push_ascii(&mut out, &c);
        out.push(0x52);
        proof {
            assert(out@ =~= seq![0x1bu8, 0x5bu8] + ascii_bytes(crate::text::decimal((row + 1) as nat)) + seq![
                0x3bu8,
            ] + ascii_bytes(crate::text::decimal((col + 1) as nat)) + seq![0x52u8]);
        }
        return Some(out);
    }
    if final_char == 'c' && (first_param.is_none() || first_param == Some(0u16)) {
        return Some(vec![0x1b, 0x5b, 0x3f, 0x31, 0x3b, 0x32, 0x63]);
    }
    None
}


// ---------------------------------------------------------------------------
// Identifiers
// ---------------------------------------------------------------------------

pub const PROVIDER_SESSION_UUID_BYTES: usize = 16;

/// Sets the version (4) and variant (RFC 4122) bits of 16 random bytes.
pub open spec fn uuid_v4_bytes(b: Seq<u8>) -> Seq<u8> {
    b.update(6, ((b[6] & 0x0f) | 0x40) as u8).update(8, ((b[8] & 0x3f) | 0x80) as u8)
}

pub open spec fn dashes_before(i: int) -> int {
    (if i > 8 { 1int } else { 0int }) + (if i > 13 { 1int } else { 0int }) + (if i > 18 {
        1int
    } else {
        0int
    }) + (if i > 23 { 1int } else { 0int })
}

/// How many hyphens precede the text of byte `j`.
pub open spec fn dashes_emitted(j: int) -> int {
    (if j > 4 { 1int } else { 0int }) + (if j > 6 { 1int } else { 0int }) + (if j > 8 {
        1int
    } else {
        0int
    }) + (if j > 10 { 1int } else { 0int })
}

/// Character `i` of the canonical lowercase text of a 16-byte UUID.
pub open spec fn uuid_char(b: Seq<u8>, i: int) -> char {
    if i == 8 || i == 13 || i == 18 || i == 23 {
        '-'
    } else {
        let k = i - dashes_before(i);
        let byte = b[k / 2];
        crate::text::hex_digit(if k % 2 == 0 { (byte / 16) as nat } else { (byte % 16) as nat })
    }
}

pub open spec fn uuid_text(b: Seq<u8>) -> Seq<char> {
    Seq::new(36, |i: int| uuid_char(b, i))
}

/// The canonical text (`xxxxxxxx-xxxx-4xxx-yxxx-xxxxxxxxxxxx`) of a version-4
/// UUID made from 16 random bytes.
pub fn format_provider_session_id(raw: &[u8]) -> (r: String)
    requires
        raw@.len() == PROVIDER_SESSION_UUID_BYTES,
    ensures
        r@ == uuid_text(uuid_v4_bytes(raw@)),
{
    let mut bytes = vstd::slice::slice_to_vec(raw);
    let b6 = (bytes[6] & 0x0f) | 0x40;
    bytes.set(6, b6);
    let b8 = (bytes[8] & 0x3f) | 0x80;
    bytes.set(8, b8);
    let ghost b = bytes@;
    assert(b =~= uuid_v4_bytes(raw@));
    let mut out: Vec<char> = Vec::new();
    let mut j: usize = 0;
    while j < 16
        invariant
            bytes@ == b,
            b.len() == 16,
            j <= 16,
            out@.len() == 2 * j + dashes_emitted(j as int),
            forall|i: int| 0 <= i < out@.len() ==> #[trigger] out@[i] == uuid_char(b, i),
            j == 0 ==> out@.len() == 0,
        decreases 16 - j,
    {
        let ghost before = out@.len() as int;
        if j == 4 || j == 6 || j == 8 || j == 10 {
            assert(before == 8 || before == 13 || before == 18 || before == 23);
            out.push('-');
        }
        let ghost at = out@.len() as int;
        assert(at - dashes_before(at) == 2 * j);
        assert(at + 1 - dashes_before(at + 1) == 2 * j + 1);
        let byte = bytes[j];
        out.push(crate::text::hex_digit_char(byte / 16));
        out.push(crate::text::hex_digit_char(byte % 16));
        j = j + 1;
    }
    assert(out@ =~= uuid_text(b));
    crate::text::string_from_chars(&out)
}

#[derive(Clone, Copy, Debug, PartialEq, Eq, Structural)]
pub enum RandomError {
    /// The operating system gave no random bytes.
    Unavailable,
}

/// A fresh version-4 UUID for Grok's `--session-id`, from operating system
/// randomness.
pub fn generate_provider_session_id() -> (r: Result<String, RandomError>)
    ensures
        r matches Ok(id) ==> exists|raw: Seq<u8>|
            raw.len() == PROVIDER_SESSION_UUID_BYTES && id@ == uuid_text(uuid_v4_bytes(raw)),
{
    match crate::codec::random_bytes(PROVIDER_SESSION_UUID_BYTES) {
        Some(raw) => Ok(format_provider_session_id(raw.as_slice())),
        None => Err(RandomError::Unavailable),
    }
}

/// Every generated provider session id is a canonical UUID that the
/// protocol accepts.
pub proof fn lemma_uuid_text_is_canonical(raw: Seq<u8>)
    requires
        raw.len() == PROVIDER_SESSION_UUID_BYTES,
    ensures
        crate::protocol::valid_provider_session_id(uuid_text(uuid_v4_bytes(raw))),
{
    let t = uuid_text(uuid_v4_bytes(raw));
    assert forall|i: int| 0 <= i < t.len() implies '\0' <= #[trigger] t[i] <= '\u{7f}' by {
        assert(t[i] == uuid_char(uuid_v4_bytes(raw), i));
    }
    assert(vstd::utf8::is_ascii_chars(t));
    vstd::utf8::is_ascii_chars_encode_utf8(t);
    let e = vstd::utf8::encode_utf8(t);
    assert forall|i: int| 0 <= i < e.len() implies crate::protocol::uuid_byte_ok(i, #[trigger] e[i]) by {
        assert(t[i] as u8 == e[i]);
        assert(t[i] == uuid_char(uuid_v4_bytes(raw), i));
    }
}

/// A session handle: `gbt-`, then the server's process id, the creation
/// time in milliseconds and a counter, in lowercase hex and joined by `-`.
pub open spec fn handle_text(process_id: u32, now_ms: u64, id: u64) -> Seq<char> {
    "gbt-"@ + crate::text::hex(process_id as nat) + "-"@ + crate::text::hex(now_ms as nat) + "-"@
        + crate::text::hex(id as nat)
}

pub fn session_handle(process_id: u32, now_ms: u64, id: u64) -> (r: String)
    ensures
        r@ == handle_text(process_id, now_ms, id),
{
    proof {
        reveal_strlit("gbt-");
        reveal_strlit("-");
    }
    let mut out: Vec<char> = vec!['g', 'b', 't', '-'];
    let a = crate::text::hex_chars(process_id as u64);
    append_chars(&mut out, &a);
    out.push('-');
    let b = crate::text::hex_chars(now_ms);
    append_chars(&mut out, &b);
    out.push('-');
    let c = crate::text::hex_chars(id);
    append_chars(&mut out, &c);
    assert(out@ =~= handle_text(process_id, now_ms, id));
    crate::text::string_from_chars(&out)
}

pub(crate) fn append_chars(out: &mut Vec<char>, more: &Vec<char>)
    ensures
        final(out)@ == old(out)@ + more@,
{
    let ghost head = out@;
    let mut i: usize = 0;
    while i < more.len()
        invariant
            i <= more.len(),
            out@ == head + more@.take(i as int),
        decreases more.len() - i,
    {
        out.push(more[i]);
        proof {
            assert(more@.take(i + 1) =~= more@.take(i as int).push(more@[i as int]));
        }
        i = i + 1;
    }
    proof {
        assert(more@.take(more@.len() as int) =~= more@);
    }
}

} // verus!
