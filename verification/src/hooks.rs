//! The Grok lifecycle hooks: turning the JSON that Grok hands a hook command
//! into a protocol event, and the hook command and configuration entries
//! that this tool installs.
use crate::json::{get_member_str, get_str, parse_json, Json, JsonView, json_parsed};
use crate::protocol::{HookEvent, HookEventKind};
use crate::text::{
    char_is_control, char_len_utf8, char_utf8_len, chars_eq_str, chars_of, chars_to_ascii_lower,
    has_control, is_control, lemma_utf8_len_push, string_from_chars, utf8_len,
};
use vstd::prelude::*;

verus! {

broadcast use vstd::string::group_string_axioms;

pub const MAX_STDIN_BYTES: usize = 262144;
pub const MAX_PROVIDER_SESSION_ID_BYTES: usize = 256;
pub const MAX_CWD_BYTES: usize = 4096;
pub const MAX_SHORT_TEXT_BYTES: usize = 128;
pub const MAX_MESSAGE_BYTES: usize = 1024;
pub const HOOK_TIMEOUT_SECONDS: u64 = 2;

// ---------------------------------------------------------------------------
// Bounded hook input
// ---------------------------------------------------------------------------

/// Hook input read from standard input: at most `MAX_STDIN_BYTES` are kept,
/// and `overflowed` records that more arrived.
#[derive(Clone, Debug, PartialEq, Eq)]
pub struct LimitedInput {
    pub bytes: Vec<u8>,
    pub overflowed: bool,
}

impl LimitedInput {
    pub fn new() -> (r: Self)
        ensures
            r.bytes@.len() == 0,
            !r.overflowed,
    {
        LimitedInput { bytes: Vec::new(), overflowed: false }
    }

    /// Takes in one chunk of input, keeping what fits under the limit.
    pub fn absorb(&mut self, chunk: &[u8])
        requires
            old(self).bytes@.len() <= MAX_STDIN_BYTES,
        ensures
            ({
                let room = MAX_STDIN_BYTES - old(self).bytes@.len();
                let kept = if chunk@.len() < room {
                    chunk@.len() as int
                } else {
                    room
                };
                &&& final(self).bytes@ == old(self).bytes@ + chunk@.take(kept)
                &&& final(self).overflowed == (old(self).overflowed || kept != chunk@.len())
            }),
    {
        let remaining = MAX_STDIN_BYTES - self.bytes.len();
        let retained = if chunk.len() < remaining {
            chunk.len()
        } else {
            remaining
        };
        let ghost head = self.bytes@;
        let mut i: usize = 0;
        while i < retained
            invariant
                retained <= chunk@.len(),
                i <= retained,
                head == old(self).bytes@,
                self.overflowed == old(self).overflowed,
                self.bytes@ == head + chunk@.take(i as int),
            decreases retained - i,
        {
            self.bytes.push(chunk[i]);
            proof {
                assert(chunk@.take(i + 1) =~= chunk@.take(i as int).push(chunk@[i as int]));
            }
            i = i + 1;
        }
        self.overflowed = self.overflowed || retained != chunk.len();
    }
}

/// Taking in a stream chunk by chunk keeps exactly its first
/// `MAX_STDIN_BYTES` bytes, and reports an overflow exactly when the stream
/// was longer.
pub proof fn lemma_absorb_keeps_prefix(seen: Seq<u8>, chunk: Seq<u8>, kept: Seq<u8>, overflowed: bool)
    requires
        kept == seen.take(
            if seen.len() < MAX_STDIN_BYTES {
                seen.len() as int
            } else {
                MAX_STDIN_BYTES as int
            },
        ),
        overflowed == (seen.len() > MAX_STDIN_BYTES),
    ensures
        ({
            let room = MAX_STDIN_BYTES - kept.len();
            let k = if chunk.len() < room {
                chunk.len() as int
            } else {
                room
            };
            let all = seen + chunk;
            &&& kept + chunk.take(k) == all.take(
                if all.len() < MAX_STDIN_BYTES {
                    all.len() as int
                } else {
                    MAX_STDIN_BYTES as int
                },
            )
            &&& (overflowed || k != chunk.len()) == (all.len() > MAX_STDIN_BYTES)
        }),
{
    let room = MAX_STDIN_BYTES - kept.len();
    let k = if chunk.len() < room {
        chunk.len() as int
    } else {
        room
    };
    let all = seen + chunk;
    let n = if all.len() < MAX_STDIN_BYTES {
        all.len() as int
    } else {
        MAX_STDIN_BYTES as int
    };
    assert(kept + chunk.take(k) =~= all.take(n));
}

// ---------------------------------------------------------------------------
// Hook event parsing
// ---------------------------------------------------------------------------

pub open spec fn event_kind(name: Seq<char>) -> Option<HookEventKind> {
    if name == "SessionStart"@ || name == "session_start"@ {
        Some(HookEventKind::SessionStart)
    } else if name == "UserPromptSubmit"@ || name == "user_prompt_submit"@ {
        Some(HookEventKind::UserPromptSubmit)
    } else if name == "Stop"@ || name == "stop"@ {
        Some(HookEventKind::Stop)
    } else if name == "StopFailure"@ || name == "stop_failure"@ {
        Some(HookEventKind::StopFailure)
    } else if name == "SessionEnd"@ || name == "session_end"@ {
        Some(HookEventKind::SessionEnd)
    } else if name == "PreToolUse"@ || name == "pre_tool_use"@ {
        Some(HookEventKind::PreToolUse)
    } else if name == "PostToolUse"@ || name == "post_tool_use"@ {
        Some(HookEventKind::PostToolUse)
    } else if name == "PostToolUseFailure"@ || name == "post_tool_use_failure"@ {
        Some(HookEventKind::PostToolUseFailure)
    } else if name == "Notification"@ || name == "notification"@ {
        Some(HookEventKind::Notification)
    } else {
        None
    }
}

/// The event kinds whose hooks this tool installs, by Grok's event name in
/// either case style.
pub fn parse_event_kind(value: &str) -> (r: Option<HookEventKind>)
    ensures
        r == event_kind(value@),
{
    let v = chars_of(value);
    if chars_eq_str(&v, "SessionStart") || chars_eq_str(&v, "session_start") {
        Some(HookEventKind::SessionStart)
    } else if chars_eq_str(&v, "UserPromptSubmit") || chars_eq_str(&v, "user_prompt_submit") {
        Some(HookEventKind::UserPromptSubmit)
    } else if chars_eq_str(&v, "Stop") || chars_eq_str(&v, "stop") {
        Some(HookEventKind::Stop)
    } else if chars_eq_str(&v, "StopFailure") || chars_eq_str(&v, "stop_failure") {
        Some(HookEventKind::StopFailure)
    } else if chars_eq_str(&v, "SessionEnd") || chars_eq_str(&v, "session_end") {
        Some(HookEventKind::SessionEnd)
    } else if chars_eq_str(&v, "PreToolUse") || chars_eq_str(&v, "pre_tool_use") {
        Some(HookEventKind::PreToolUse)
    } else if chars_eq_str(&v, "PostToolUse") || chars_eq_str(&v, "post_tool_use") {
        Some(HookEventKind::PostToolUse)
    } else if chars_eq_str(&v, "PostToolUseFailure") || chars_eq_str(&v, "post_tool_use_failure") {
        Some(HookEventKind::PostToolUseFailure)
    } else if chars_eq_str(&v, "Notification") || chars_eq_str(&v, "notification") {
        Some(HookEventKind::Notification)
    } else {
        None
    }
}

/// Control characters dropped, then characters kept in order until the next
/// one would push the UTF-8 length past `max`.
pub open spec fn sanitize_from(s: Seq<char>, acc: Seq<char>, max: nat) -> Seq<char>
    decreases s.len(),
{
    if s.len() == 0 {
        acc
    } else if is_control(s[0]) {
        sanitize_from(s.drop_first(), acc, max)
    } else if utf8_len(acc) + char_utf8_len(s[0]) > max {
        acc
    } else {
        sanitize_from(s.drop_first(), acc.push(s[0]), max)
    }
}

pub open spec fn sanitized(s: Seq<char>, max: nat) -> Option<Seq<char>> {
    let r = sanitize_from(s, Seq::<char>::empty(), max);
    if r.len() == 0 {
        None
    } else {
        Some(r)
    }
}

/// Hook text made safe to forward: no control characters, cut at a
/// character boundary to at most `max_bytes`; nothing when it ends up empty.
pub fn sanitize_text(value: &str, max_bytes: usize) -> (r: Option<String>)
    ensures
        match r {
            Some(t) => sanitized(value@, max_bytes as nat) == Some(t@),
            None => sanitized(value@, max_bytes as nat) is None,
        },
{
    let v = chars_of(value);
    let mut out: Vec<char> = Vec::new();
    let mut len: usize = 0;
    let mut i: usize = 0;
    proof {
        assert(v@.skip(0) =~= v@);
        crate::text::lemma_utf8_len_empty();
    }
    while i < v.len()
        invariant
            v@ == value@,
            i <= v.len(),
            len == utf8_len(out@),
            len <= max_bytes,
            sanitize_from(value@, Seq::<char>::empty(), max_bytes as nat) == sanitize_from(
                v@.skip(i as int),
                out@,
                max_bytes as nat,
            ),
        ensures
            sanitize_from(value@, Seq::<char>::empty(), max_bytes as nat) == out@,
        decreases v.len() - i,
    {
        let c = v[i];
        proof {
            assert(v@.skip(i as int).drop_first() =~= v@.skip(i + 1));
            assert(v@.skip(i as int)[0] == c);
        }
        if char_is_control(c) {
            i = i + 1;
            continue;
        }
        let w = char_len_utf8(c);
        if w > max_bytes - len {
            break;
        }
        proof {
            lemma_utf8_len_push(out@, c);
        }
        out.push(c);
        len = len + w;
        i = i + 1;
    }
    if out.len() == 0 {
        None
    } else {
        Some(string_from_chars(&out))
    }
}

proof fn lemma_sanitize_from_bounds(s: Seq<char>, acc: Seq<char>, max: nat)
    requires
        !has_control(acc),
        utf8_len(acc) <= max,
    ensures
        !has_control(sanitize_from(s, acc, max)),
        utf8_len(sanitize_from(s, acc, max)) <= max,
    decreases s.len(),
{
    if s.len() == 0 {
    } else if is_control(s[0]) {
        lemma_sanitize_from_bounds(s.drop_first(), acc, max);
    } else if utf8_len(acc) + char_utf8_len(s[0]) > max {
    } else {
        lemma_utf8_len_push(acc, s[0]);
        assert forall|i: int| 0 <= i < acc.push(s[0]).len() implies !is_control(
            #[trigger] acc.push(s[0])[i],
        ) by {
            if i < acc.len() {
                assert(acc.push(s[0])[i] == acc[i]);
            }
        }
        lemma_sanitize_from_bounds(s.drop_first(), acc.push(s[0]), max);
    }
}

/// Sanitized hook text never holds a control character and never exceeds
/// its byte budget.
pub proof fn lemma_sanitized_text_is_bounded(s: Seq<char>, max: nat)
    ensures
        sanitized(s, max) matches Some(t) ==> !has_control(t) && utf8_len(t) <= max,
{
    crate::text::lemma_utf8_len_empty();
    lemma_sanitize_from_bounds(s, Seq::<char>::empty(), max);
}


/// The string members of a hook's JSON input that an event is built from,
/// each already looked up under its camelCase or snake_case name.
#[derive(Clone, Debug, PartialEq, Eq)]
pub struct HookFields {
    pub hook_event_name: Option<String>,
    pub session_id: Option<String>,
    pub cwd: Option<String>,
    pub tool_name: Option<String>,
    pub message: Option<String>,
    pub notification_type: Option<String>,
    pub level: Option<String>,
}

pub struct HookFieldsView {
    pub hook_event_name: Option<Seq<char>>,
    pub session_id: Option<Seq<char>>,
    pub cwd: Option<Seq<char>>,
    pub tool_name: Option<Seq<char>>,
    pub message: Option<Seq<char>>,
    pub notification_type: Option<Seq<char>>,
    pub level: Option<Seq<char>>,
}

pub open spec fn ov(value: Option<String>) -> Option<Seq<char>> {
    match value {
        Some(v) => Some(v@),
        None => None,
    }
}

impl View for HookFields {
    type V = HookFieldsView;

    open spec fn view(&self) -> HookFieldsView {
        HookFieldsView {
            hook_event_name: ov(self.hook_event_name),
            session_id: ov(self.session_id),
            cwd: ov(self.cwd),
            tool_name: ov(self.tool_name),
            message: ov(self.message),
            notification_type: ov(self.notification_type),
            level: ov(self.level),
        }
    }
}

/// A hook event as plain values: kind, cwd, tool name, message,
/// notification type and level.
pub type EventView = (
    HookEventKind,
    Option<Seq<char>>,
    Option<Seq<char>>,
    Option<Seq<char>>,
    Option<Seq<char>>,
    Option<Seq<char>>,
);

pub open spec fn event_view(e: HookEvent) -> EventView {
    (e.kind, ov(e.cwd), ov(e.tool_name), ov(e.message), ov(e.notification_type), ov(e.level))
}

pub open spec fn sanitized_opt(value: Option<Seq<char>>, max: nat) -> Option<Seq<char>> {
    match value {
        Some(v) => sanitized(v, max),
        None => None,
    }
}

/// The provider session id and event that a hook reports: the event name
/// must be one that this tool installs; the session id comes from Grok's
/// environment when it survives sanitizing, else from the JSON, and is
/// lowercased; every text field is sanitized to its budget.
pub open spec fn event_of_fields(f: HookFieldsView, env: Option<Seq<char>>) -> Option<
    (Seq<char>, EventView),
> {
    match f.hook_event_name {
        None => None,
        Some(name) => match event_kind(name) {
            None => None,
            Some(kind) => {
                let id = match sanitized_opt(env, MAX_PROVIDER_SESSION_ID_BYTES as nat) {
                    Some(i) => Some(i),
                    None => sanitized_opt(f.session_id, MAX_PROVIDER_SESSION_ID_BYTES as nat),
                };
                match id {
                    None => None,
                    Some(i) => Some(
                        (
                            crate::text::ascii_lowercase(i),
                            (
                                kind,
                                sanitized_opt(f.cwd, MAX_CWD_BYTES as nat),
                                sanitized_opt(f.tool_name, MAX_SHORT_TEXT_BYTES as nat),
                                sanitized_opt(f.message, MAX_MESSAGE_BYTES as nat),
                                sanitized_opt(f.notification_type, MAX_SHORT_TEXT_BYTES as nat),
                                sanitized_opt(f.level, MAX_SHORT_TEXT_BYTES as nat),
                            ),
                        ),
                    ),
                }
            },
        },
    }
}

fn sanitize_opt(value: &Option<String>, max_bytes: usize) -> (r: Option<String>)
    ensures
        ov(r) == sanitized_opt(ov(*value), max_bytes as nat),
{
    match value {
        Some(v) => sanitize_text(v.as_str(), max_bytes),
        None => None,
    }
}

pub fn event_from_fields(fields: &HookFields, provider_session_from_env: Option<&str>) -> (r:
    Option<(String, HookEvent)>)
    ensures
        match r {
            Some((id, event)) => event_of_fields(
                fields@,
                match provider_session_from_env {
                    Some(e) => Some(e@),
                    None => None,
                },
            ) == Some((id@, event_view(event))),
            None => event_of_fields(
                fields@,
                match provider_session_from_env {
                    Some(e) => Some(e@),
                    None => None,
                },
            ) is None,
        },
{
    let name = match &fields.hook_event_name {
        Some(n) => n,
        None => return None,
    };
    let kind = match parse_event_kind(name.as_str()) {
        Some(k) => k,
        None => return None,
    };
    let from_env = match provider_session_from_env {
        Some(e) => sanitize_text(e, MAX_PROVIDER_SESSION_ID_BYTES),
        None => None,
    };
    let id = match from_env {
        Some(i) => i,
        None => match sanitize_opt(&fields.session_id, MAX_PROVIDER_SESSION_ID_BYTES) {
            Some(i) => i,
            None => return None,
        },
    };
    let id_chars = chars_of(id.as_str());
    let lower = chars_to_ascii_lower(&id_chars);
    let event = HookEvent {
        kind,
        cwd: sanitize_opt(&fields.cwd, MAX_CWD_BYTES),
        tool_name: sanitize_opt(&fields.tool_name, MAX_SHORT_TEXT_BYTES),
        message: sanitize_opt(&fields.message, MAX_MESSAGE_BYTES),
        notification_type: sanitize_opt(&fields.notification_type, MAX_SHORT_TEXT_BYTES),
        level: sanitize_opt(&fields.level, MAX_SHORT_TEXT_BYTES),
    };
    Some((string_from_chars(&lower), event))
}

pub open spec fn member_either(d: JsonView, camel: Seq<char>, snake: Seq<char>) -> Option<Seq<char>> {
    match get_str(d, camel) {
        Some(v) => Some(v),
        None => get_str(d, snake),
    }
}

/// The hook fields of a JSON hook input: string members, under their camel
/// case or else their snake case names.
pub open spec fn fields_of(d: JsonView) -> HookFieldsView {
    HookFieldsView {
        hook_event_name: member_either(d, "hookEventName"@, "hook_event_name"@),
        session_id: member_either(d, "sessionId"@, "session_id"@),
        cwd: get_str(d, "cwd"@),
        tool_name: member_either(d, "toolName"@, "tool_name"@),
        message: get_str(d, "message"@),
        notification_type: member_either(d, "notificationType"@, "notification_type"@),
        level: get_str(d, "level"@),
    }
}

fn owned(v: Option<&str>) -> (r: Option<String>)
    ensures
        ov(r) == match v {
            Some(s) => Some(s@),
            None => None::<Seq<char>>,
        },
{
    match v {
        Some(s) => Some(s.to_string()),
        None => None,
    }
}

fn string_field(d: &Json, camel_case: &str, snake_case: &str) -> (r: Option<String>)
    ensures
        ov(r) == member_either(d@, camel_case@, snake_case@),
{
    match get_member_str(d, camel_case) {
        Some(v) => Some(v.to_string()),
        None => owned(get_member_str(d, snake_case)),
    }
}

/// Reads the hook fields out of a hook's parsed JSON input.
pub fn read_hook_fields(d: &Json) -> (r: HookFields)
    ensures
        r@ == fields_of(d@),
{
    HookFields {
        hook_event_name: string_field(d, "hookEventName", "hook_event_name"),
        session_id: string_field(d, "sessionId", "session_id"),
        cwd: owned(get_member_str(d, "cwd")),
        tool_name: string_field(d, "toolName", "tool_name"),
        message: owned(get_member_str(d, "message")),
        notification_type: string_field(d, "notificationType", "notification_type"),
        level: owned(get_member_str(d, "level")),
    }
}

/// What a hook's raw input reports: nothing when it is not JSON.
pub open spec fn event_of_input(input: Seq<u8>, env: Option<Seq<char>>) -> Option<(Seq<char>, EventView)> {
    match json_parsed(input) {
        Some(d) => event_of_fields(fields_of(d), env),
        None => None,
    }
}

/// The provider session id and event that a hook's JSON input reports, or
/// nothing when the input is not JSON, names no installed event or no
/// session.
pub fn parse_event(input: &[u8], provider_session_from_env: Option<&str>) -> (r: Option<
    (String, HookEvent),
>)
    ensures
        match r {
            Some((id, event)) => event_of_input(
                input@,
                match provider_session_from_env {
                    Some(e) => Some(e@),
                    None => None,
                },
            ) == Some((id@, event_view(event))),
            None => event_of_input(
                input@,
                match provider_session_from_env {
                    Some(e) => Some(e@),
                    None => None,
                },
            ) is None,
        },
{
    match parse_json(input) {
        Ok(d) => {
            let fields = read_hook_fields(&d);
            event_from_fields(&fields, provider_session_from_env)
        },
        Err(_) => None,
    }
}


// ---------------------------------------------------------------------------
// Installed hook entries
// ---------------------------------------------------------------------------

/// One Grok event that the tool hooks; tool events match every tool.
#[derive(Clone, Copy, Debug, PartialEq, Eq)]
pub struct HookSpec {
    pub name: &'static str,
    pub tool_event: bool,
}

impl HookSpec {
    pub fn lifecycle(name: &'static str) -> (r: Self)
        ensures
            r.name == name,
            !r.tool_event,
    {
        HookSpec { name, tool_event: false }
    }

    pub fn tool(name: &'static str) -> (r: Self)
        ensures
            r.name == name,
            r.tool_event,
    {
        HookSpec { name, tool_event: true }
    }
}

pub open spec fn hook_event_names() -> Seq<Seq<char>> {
    seq![
        "SessionStart"@,
        "UserPromptSubmit"@,
        "Stop"@,
        "StopFailure"@,
        "SessionEnd"@,
        "PreToolUse"@,
        "PostToolUse"@,
        "PostToolUseFailure"@,
        "Notification"@,
    ]
}

/// Whether the hook entry for the event at `i` of `hook_event_names` is a
/// tool event.
pub open spec fn hook_event_is_tool(i: int) -> bool {
    5 <= i <= 7
}

/// The nine events whose hooks this tool installs, in installation order.
pub fn hook_events() -> (r: Vec<HookSpec>)
    ensures
        r@.len() == 9,
        forall|i: int|
            0 <= i < 9 ==> (#[trigger] r@[i]).name@ == hook_event_names()[i] && r@[i].tool_event
                == hook_event_is_tool(i),
{
    let v = vec![
        HookSpec::lifecycle("SessionStart"),
        HookSpec::lifecycle("UserPromptSubmit"),
        HookSpec::lifecycle("Stop"),
        HookSpec::lifecycle("StopFailure"),
        HookSpec::lifecycle("SessionEnd"),
        HookSpec::tool("PreToolUse"),
        HookSpec::tool("PostToolUse"),
        HookSpec::tool("PostToolUseFailure"),
        HookSpec::lifecycle("Notification"),
    ];
    v
}

/// The outcome of installing, checking or removing the managed hooks.
#[derive(Clone, Debug, PartialEq, Eq)]
pub struct HookInstallStatus {
    pub path: String,
    pub installed: bool,
    pub changed: bool,
    pub events_found: usize,
    pub events_expected: usize,
}

/// The status of a hook file that does not exist.
pub fn empty_status(path: &str) -> (r: HookInstallStatus)
    ensures
        r.path@ == path@,
        !r.installed,
        !r.changed,
        r.events_found == 0,
        r.events_expected == 9,
{
    HookInstallStatus {
        path: path.to_owned(),
        installed: false,
        changed: false,
        events_found: 0,
        events_expected: 9,
    }
}

#[derive(Clone, Copy, Debug, PartialEq, Eq, Structural)]
pub enum HookCommandError {
    /// The executable path holds a control character.
    ControlCharacter,
    /// The PowerShell that runs the hook on Windows lies at a path that a
    /// hook command cannot hold unquoted.
    PowerShellPath,
}

pub open spec fn hook_command_error_text(e: HookCommandError) -> Seq<char> {
    match e {
        HookCommandError::ControlCharacter => "current executable path cannot be represented in a hook command"@,
        HookCommandError::PowerShellPath => "Windows PowerShell path cannot be represented in a hook command"@,
    }
}

impl HookCommandError {
    pub fn message(&self) -> (r: &'static str)
        ensures
            r@ == hook_command_error_text(*self),
    {
        match self {
            HookCommandError::ControlCharacter => "current executable path cannot be represented in a hook command",
            HookCommandError::PowerShellPath => "Windows PowerShell path cannot be represented in a hook command",
        }
    }
}

/// `'` inside a single-quoted shell word becomes `'"'"'`.
pub open spec fn shell_quoted(s: Seq<char>) -> Seq<char>
    decreases s.len(),
{
    if s.len() == 0 {
        Seq::<char>::empty()
    } else {
        shell_quoted(s.drop_last()) + if s.last() == '\'' {
            seq!['\'', '"', '\'', '"', '\'']
        } else {
            seq![s.last()]
        }
    }
}

/// The hook command on Unix: the executable path as one single-quoted shell
/// word, then `__hook`.
pub open spec fn unix_hook_command(executable: Seq<char>) -> Result<Seq<char>, HookCommandError> {
    if has_control(executable) {
        Err(HookCommandError::ControlCharacter)
    } else {
        Ok(seq!['\''] + shell_quoted(executable) + "' __hook"@)
    }
}

pub fn hook_command(executable: &str) -> (r: Result<String, HookCommandError>)
    ensures
        match r {
            Ok(c) => unix_hook_command(executable@) == Ok::<Seq<char>, HookCommandError>(c@),
            Err(e) => unix_hook_command(executable@) == Err::<Seq<char>, HookCommandError>(e),
        },
{
    proof {
        reveal_strlit("' __hook");
    }
    let v = chars_of(executable);
    if crate::text::chars_have_control(&v) {
        return Err(HookCommandError::ControlCharacter);
    }
    let mut out: Vec<char> = vec!['\''];
    let mut i: usize = 0;
    while i < v.len()
        invariant
            i <= v.len(),
            out@ == seq!['\''] + shell_quoted(v@.take(i as int)),
        decreases v.len() - i,
    {
        let c = v[i];
        if c == '\'' {
            out.push('\'');
            out.push('"');
            out.push('\'');
            out.push('"');
            out.push('\'');
        } else {
            out.push(c);
        }
        proof {
            assert(v@.take(i + 1).drop_last() =~= v@.take(i as int));
            assert(v@.take(i + 1).last() == c);
            assert(out@ =~= seq!['\''] + shell_quoted(v@.take(i + 1)));
        }
        i = i + 1;
    }
    out.push('\'');
    out.push(' ');
    out.push('_');
    out.push('_');
    out.push('h');
    out.push('o');
    out.push('o');
    out.push('k');
    proof {
        assert(v@.take(v@.len() as int) =~= v@);
        assert(out@ =~= seq!['\''] + shell_quoted(executable@) + "' __hook"@);
    }
    Ok(string_from_chars(&out))
}

// ---------------------------------------------------------------------------
// The hook command on Windows
// ---------------------------------------------------------------------------

/// A character that a Windows hook command can hold without quoting.
pub open spec fn plain_path_char(c: char) -> bool {
    ('a' <= c <= 'z') || ('A' <= c <= 'Z') || ('0' <= c <= '9') || c == '.' || c == '_' || c == ':'
        || c == '/' || c == '~' || c == '-'
}

pub open spec fn plain_path(s: Seq<char>) -> bool {
    forall|i: int| 0 <= i < s.len() ==> plain_path_char(#[trigger] s[i])
}

pub open spec fn forward_slash(c: char) -> char {
    if c == '\\' {
        '/'
    } else {
        c
    }
}

/// Backslashes turned into forward slashes.
pub open spec fn forward_slashes(s: Seq<char>) -> Seq<char> {
    s.map_values(|c: char| forward_slash(c))
}

/// `'` inside a single-quoted PowerShell string becomes `''`.
pub open spec fn powershell_quoted(s: Seq<char>) -> Seq<char>
    decreases s.len(),
{
    if s.len() == 0 {
        Seq::<char>::empty()
    } else {
        powershell_quoted(s.drop_last()) + if s.last() == '\'' {
            seq!['\'', '\'']
        } else {
            seq![s.last()]
        }
    }
}

/// The PowerShell script that runs the hook when the executable is still
/// there, and otherwise drains standard input and succeeds.
pub open spec fn hook_script(executable: Seq<char>) -> Seq<char> {
    let q = powershell_quoted(executable);
    "if (Test-Path -LiteralPath '"@ + q + "' -PathType Leaf) { & '"@ + q
        + "' __hook; exit $LASTEXITCODE }; [Console]::In.ReadToEnd() | Out-Null; exit 0"@
}

/// The UTF-16 code units of one character, little-endian.
pub open spec fn utf16le_char(c: char) -> Seq<u8> {
    let u = c as u32;
    if u < 0x10000 {
        seq![(u % 256) as u8, (u / 256) as u8]
    } else {
        let v = (u - 0x10000) as u32;
        let hi = (0xD800 + v / 1024) as u32;
        let lo = (0xDC00 + v % 1024) as u32;
        seq![(hi % 256) as u8, (hi / 256) as u8, (lo % 256) as u8, (lo / 256) as u8]
    }
}

/// A text in UTF-16, little-endian (as `str::encode_utf16` and
/// `u16::to_le_bytes` give it).
pub open spec fn utf16le(s: Seq<char>) -> Seq<u8>
    decreases s.len(),
{
    if s.len() == 0 {
        Seq::<u8>::empty()
    } else {
        utf16le(s.drop_last()) + utf16le_char(s.last())
    }
}

/// `s` without the slashes at its end.
pub open spec fn trim_end_slashes(s: Seq<char>) -> Seq<char>
    decreases s.len(),
{
    if s.len() > 0 && s.last() == '/' {
        trim_end_slashes(s.drop_last())
    } else {
        s
    }
}

/// Where Windows PowerShell lies under the system root (`C:\Windows` when
/// none is set), with forward slashes.
pub open spec fn powershell_path(system_root: Option<Seq<char>>) -> Seq<char> {
    let root = match system_root {
        Some(r) => r,
        None => "C:\\Windows"@,
    };
    trim_end_slashes(forward_slashes(root)) + "/System32/WindowsPowerShell/v1.0/powershell.exe"@
}

/// The hook command on Windows: the executable path with forward slashes
/// when it needs no quoting, else PowerShell with the script that runs it,
/// encoded as UTF-16 and base64.
pub open spec fn windows_hook_command_of(executable: Seq<char>, system_root: Option<Seq<char>>) -> Result<
    Seq<char>,
    HookCommandError,
> {
    if has_control(executable) {
        Err(HookCommandError::ControlCharacter)
    } else if plain_path(forward_slashes(executable)) {
        Ok(forward_slashes(executable) + " __hook"@)
    } else if !plain_path(powershell_path(system_root)) {
        Err(HookCommandError::PowerShellPath)
    } else {
        Ok(powershell_path(system_root) + " -NoProfile -ExecutionPolicy Bypass -EncodedCommand "@
            + crate::codec::base64_encoding(utf16le(hook_script(executable))))
    }
}

fn forward_slash_chars(v: &Vec<char>) -> (r: Vec<char>)
    ensures
        r@ == forward_slashes(v@),
{
    let mut out: Vec<char> = Vec::new();
    let mut i: usize = 0;
    while i < v.len()
        invariant
            i <= v.len(),
            out@ == forward_slashes(v@.take(i as int)),
        decreases v.len() - i,
    {
        out.push(if v[i] == '\\' { '/' } else { v[i] });
        proof {
            assert(forward_slashes(v@.take(i + 1)) =~= forward_slashes(v@.take(i as int)).push(
                forward_slash(v@[i as int]),
            ));
        }
        i = i + 1;
    }
    proof {
        assert(v@.take(v@.len() as int) =~= v@);
    }
    out
}

fn chars_are_plain_path(v: &Vec<char>) -> (r: bool)
    ensures
        r == plain_path(v@),
{
    let mut i: usize = 0;
    while i < v.len()
        invariant
            i <= v.len(),
            forall|k: int| 0 <= k < i ==> plain_path_char(#[trigger] v@[k]),
        decreases v.len() - i,
    {
        let c = v[i];
        let ok = ('a' <= c && c <= 'z') || ('A' <= c && c <= 'Z') || ('0' <= c && c <= '9') || c
            == '.' || c == '_' || c == ':' || c == '/' || c == '~' || c == '-';
        if !ok {
            assert(!plain_path_char(v@[i as int]));
            return false;
        }
        i = i + 1;
    }
    true
}

fn powershell_quote(v: &Vec<char>) -> (r: Vec<char>)
    ensures
        r@ == powershell_quoted(v@),
{
    let mut out: Vec<char> = Vec::new();
    let mut i: usize = 0;
    while i < v.len()
        invariant
            i <= v.len(),
            out@ == powershell_quoted(v@.take(i as int)),
        decreases v.len() - i,
    {
        let c = v[i];
        out.push(c);
        if c == '\'' {
            out.push('\'');
        }
        proof {
            assert(v@.take(i + 1).drop_last() =~= v@.take(i as int));
            assert(v@.take(i + 1).last() == c);
            assert(out@ =~= powershell_quoted(v@.take(i + 1)));
        }
        i = i + 1;
    }
    proof {
        assert(v@.take(v@.len() as int) =~= v@);
    }
    out
}

fn push_utf16le(out: &mut Vec<u8>, c: char)
    ensures
        final(out)@ == old(out)@ + utf16le_char(c),
{
    let u = c as u32;
    if u < 0x10000 {
        out.push((u % 256) as u8);
        out.push((u / 256) as u8);
    } else {
        let v = u - 0x10000;
        let hi = 0xD800 + v / 1024;
        let lo = 0xDC00 + v % 1024;
        out.push((hi % 256) as u8);
        out.push((hi / 256) as u8);
        out.push((lo % 256) as u8);
        out.push((lo / 256) as u8);
    }
    assert(final(out)@ =~= old(out)@ + utf16le_char(c));
}

fn utf16le_bytes(v: &Vec<char>) -> (r: Vec<u8>)
    ensures
        r@ == utf16le(v@),
{
    let mut out: Vec<u8> = Vec::new();
    let mut i: usize = 0;
    while i < v.len()
        invariant
            i <= v.len(),
            out@ == utf16le(v@.take(i as int)),
        decreases v.len() - i,
    {
        push_utf16le(&mut out, v[i]);
        proof {
            assert(v@.take(i + 1).drop_last() =~= v@.take(i as int));
            assert(v@.take(i + 1).last() == v@[i as int]);
        }
        i = i + 1;
    }
    proof {
        assert(v@.take(v@.len() as int) =~= v@);
    }
    out
}

fn trim_end_slash_chars(v: &Vec<char>) -> (r: Vec<char>)
    ensures
        r@ == trim_end_slashes(v@),
{
    let mut n: usize = v.len();
    assert(v@.take(v@.len() as int) =~= v@);
    while n > 0 && v[n - 1] == '/'
        invariant
            n <= v.len(),
            trim_end_slashes(v@) == trim_end_slashes(v@.take(n as int)),
        decreases n,
    {
        proof {
            assert(v@.take(n as int).drop_last() =~= v@.take(n - 1));
        }
        n = n - 1;
    }
    let mut out: Vec<char> = Vec::new();
    let mut i: usize = 0;
    while i < n
        invariant
            i <= n <= v.len(),
            out@ == v@.take(i as int),
        decreases n - i,
    {
        out.push(v[i]);
        proof {
            assert(v@.take(i + 1) =~= v@.take(i as int).push(v@[i as int]));
        }
        i = i + 1;
    }
    out
}

/// The hook command for Windows (see `windows_hook_command_of`);
/// `system_root` is the `SystemRoot` setting, if any.
pub fn windows_hook_command(executable: &str, system_root: Option<&str>) -> (r: Result<
    String,
    HookCommandError,
>)
    ensures
        match r {
            Ok(c) => windows_hook_command_of(
                executable@,
                match system_root {
                    Some(s) => Some(s@),
                    None => None,
                },
            ) == Ok::<Seq<char>, HookCommandError>(c@),
            Err(e) => windows_hook_command_of(
                executable@,
                match system_root {
                    Some(s) => Some(s@),
                    None => None,
                },
            ) == Err::<Seq<char>, HookCommandError>(e),
        },
{
    let v = chars_of(executable);
    if crate::text::chars_have_control(&v) {
        return Err(HookCommandError::ControlCharacter);
    }
    let shell_path = forward_slash_chars(&v);
    if chars_are_plain_path(&shell_path) {
        let mut out = shell_path.clone();
        crate::text::push_str(&mut out, " __hook");
        return Ok(string_from_chars(&out));
    }
    let root = match system_root {
        Some(r) => chars_of(r),
        None => chars_of("C:\\Windows"),
    };
    let mut powershell = trim_end_slash_chars(&forward_slash_chars(&root));
    crate::text::push_str(&mut powershell, "/System32/WindowsPowerShell/v1.0/powershell.exe");
    if !chars_are_plain_path(&powershell) {
        return Err(HookCommandError::PowerShellPath);
    }
    let quoted = powershell_quote(&v);
    let mut script: Vec<char> = Vec::new();
    crate::text::push_str(&mut script, "if (Test-Path -LiteralPath '");
    crate::session::append_chars(&mut script, &quoted);
    crate::text::push_str(&mut script, "' -PathType Leaf) { & '");
    crate::session::append_chars(&mut script, &quoted);
    crate::text::push_str(
        &mut script,
        "' __hook; exit $LASTEXITCODE }; [Console]::In.ReadToEnd() | Out-Null; exit 0",
    );
    assert(script@ =~= hook_script(executable@));
    let encoded = utf16le_bytes(&script);
    let text = crate::codec::base64_encode(encoded.as_slice());
    let mut out = powershell;
    crate::text::push_str(&mut out, " -NoProfile -ExecutionPolicy Bypass -EncodedCommand ");
    crate::text::push_str(&mut out, text.as_str());
    Ok(string_from_chars(&out))
}

pub open spec fn non_empty(value: Option<Seq<char>>) -> Option<Seq<char>> {
    match value {
        Some(v) => if v.len() > 0 {
            Some(v)
        } else {
            None
        },
        None => None,
    }
}

/// Grok's home directory: `$GROK_HOME`, else `.grok` under the home
/// directory (on Windows the user profile is preferred to `HOME`). Unset and
/// empty values are skipped; nothing when none is usable.
pub open spec fn grok_home_location(
    grok_home: Option<Seq<char>>,
    home: Option<Seq<char>>,
    user_profile: Option<Seq<char>>,
    windows: bool,
) -> Option<Seq<char>> {
    match non_empty(grok_home) {
        Some(g) => Some(g),
        None => {
            let h = if windows {
                match non_empty(user_profile) {
                    Some(u) => Some(u),
                    None => non_empty(home),
                }
            } else {
                match non_empty(home) {
                    Some(h) => Some(h),
                    None => non_empty(user_profile),
                }
            };
            match h {
                Some(h) => Some(crate::session::join_path(h, ".grok"@)),
                None => None,
            }
        },
    }
}

/// Where the hook configuration lives: `hooks/grok-bridge.json` under
/// Grok's home directory.
pub open spec fn hook_file_location(
    grok_home: Option<Seq<char>>,
    home: Option<Seq<char>>,
    user_profile: Option<Seq<char>>,
    windows: bool,
) -> Option<Seq<char>> {
    match grok_home_location(grok_home, home, user_profile, windows) {
        Some(r) => Some(
            crate::session::join_path(crate::session::join_path(r, "hooks"@), "grok-bridge.json"@),
        ),
        None => None,
    }
}

fn non_empty_str<'a>(value: Option<&'a str>) -> (r: Option<&'a str>)
    ensures
        match r {
            Some(v) => non_empty(
                match value {
                    Some(x) => Some(x@),
                    None => None,
                },
            ) == Some(v@),
            None => non_empty(
                match value {
                    Some(x) => Some(x@),
                    None => None,
                },
            ) is None,
        },
{
    match value {
        Some(v) => if v.is_empty() {
            None
        } else {
            Some(v)
        },
        None => None,
    }
}

/// Grok's home directory for these environment values (see
/// `grok_home_location`).
pub fn grok_state_dir_from(
    grok_home: Option<&str>,
    home: Option<&str>,
    user_profile: Option<&str>,
    windows: bool,
) -> (r: Option<String>)
    ensures
        ov(r) == grok_home_location(
            match grok_home {
                Some(x) => Some(x@),
                None => None,
            },
            match home {
                Some(x) => Some(x@),
                None => None,
            },
            match user_profile {
                Some(x) => Some(x@),
                None => None,
            },
            windows,
        ),
{
    match non_empty_str(grok_home) {
        Some(g) => Some(g.to_owned()),
        None => {
            let h = if windows {
                match non_empty_str(user_profile) {
                    Some(u) => Some(u),
                    None => non_empty_str(home),
                }
            } else {
                match non_empty_str(home) {
                    Some(h) => Some(h),
                    None => non_empty_str(user_profile),
                }
            };
            match h {
                Some(h) => Some(crate::session::join_path_chars(h, ".grok")),
                None => None,
            }
        },
    }
}

/// The hook file for these environment values (see `hook_file_location`).
pub fn hook_file_path_from(
    grok_home: Option<&str>,
    home: Option<&str>,
    user_profile: Option<&str>,
    windows: bool,
) -> (r: Option<String>)
    ensures
        ov(r) == hook_file_location(
            match grok_home {
                Some(x) => Some(x@),
                None => None,
            },
            match home {
                Some(x) => Some(x@),
                None => None,
            },
            match user_profile {
                Some(x) => Some(x@),
                None => None,
            },
            windows,
        ),
{
    let root = match grok_state_dir_from(grok_home, home, user_profile, windows) {
        Some(r) => r,
        None => return None,
    };
    let hooks = crate::session::join_path_chars(root.as_str(), "hooks");
    Some(crate::session::join_path_chars(hooks.as_str(), "grok-bridge.json"))
}

} // verus!
