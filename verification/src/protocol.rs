//! The NDJSON protocol between the CLI, the hooks and the runtime server:
//! its message types, the framing of one message per line, and the
//! validation that every decoded request and response must pass.
use crate::codec::{base64_decode, base64_decoding};
use crate::text::{
    chars_of, has_char, has_control, is_ascii_alphanumeric, is_ascii_hexdigit, is_blank,
    str_has_char, str_has_control, str_is_blank, utf8_len,
};
use vstd::prelude::*;

verus! {

broadcast use vstd::string::group_string_axioms;

pub const MAX_FRAME_BYTES: usize = 1048576;
pub const MAX_WRITE_BYTES: usize = 65536;
pub const MAX_IDENTIFIER_BYTES: usize = 128;
pub const MAX_OWNER_BYTES: usize = 128;
pub const PROVIDER_SESSION_ID_BYTES: usize = 36;
pub const MAX_HOOK_CWD_BYTES: usize = 4096;
pub const MAX_HOOK_SHORT_TEXT_BYTES: usize = 128;
pub const MAX_HOOK_MESSAGE_BYTES: usize = 1024;
pub const MAX_READ_LIMIT: u32 = 65536;
pub const MIN_TERMINAL_COLS: u16 = 20;
pub const MAX_TERMINAL_COLS: u16 = 500;
pub const MIN_TERMINAL_ROWS: u16 = 5;
pub const MAX_TERMINAL_ROWS: u16 = 200;

// ---------------------------------------------------------------------------
// Message types
// ---------------------------------------------------------------------------

#[derive(Clone, Debug, PartialEq, Eq)]
pub struct RequestEnvelope {
    pub id: String,
    pub request: Request,
}

#[derive(Clone, Debug, PartialEq, Eq)]
pub enum Request {
    ServerStatus,
    ServerStop,
    Create {
        cwd: String,
        prompt: Option<String>,
        model: Option<String>,
        owner: Option<String>,
        always_approve: bool,
    },
    List,
    Heartbeat,
    CloseCodex,
    Show { session: String },
    Read { session: String, cursor: Option<u64>, limit: Option<u32>, wait_ms: Option<u64> },
    Send { session: String, input: String },
    Write { session: String, data_base64: String },
    Resize { session: String, cols: u16, rows: u16 },
    Wait { session: String, for_condition: WaitCondition, timeout_ms: Option<u64> },
    Close { session: String },
    HookEvent { provider_session_id: String, event: HookEvent },
}

#[derive(Clone, Copy, Debug, PartialEq, Eq, Structural)]
pub enum HookEventKind {
    SessionStart,
    UserPromptSubmit,
    Stop,
    StopFailure,
    SessionEnd,
    PreToolUse,
    PostToolUse,
    PostToolUseFailure,
    Notification,
    PermissionDenied,
    PreCompact,
    PostCompact,
    SubagentStart,
    SubagentStop,
}

#[derive(Clone, Copy, Debug, PartialEq, Eq, Structural)]
pub enum HookActivity {
    Unknown,
    Working,
    Waiting,
    Done,
}

#[derive(Clone, Debug, PartialEq, Eq)]
pub struct HookEvent {
    pub kind: HookEventKind,
    pub cwd: Option<String>,
    pub tool_name: Option<String>,
    pub message: Option<String>,
    pub notification_type: Option<String>,
    pub level: Option<String>,
}

#[derive(Clone, Copy, Debug, PartialEq, Eq, Structural)]
pub enum WaitCondition {
    TuiIdle,
    Exit,
}

#[derive(Clone, Debug, PartialEq, Eq)]
pub struct ResponseEnvelope {
    pub id: String,
    pub ok: bool,
    pub result: Option<ResponseResult>,
    pub error: Option<ResponseError>,
}

#[derive(Clone, Debug, PartialEq, Eq)]
pub enum ResponseResult {
    ServerInfo(ServerInfo),
    Session(SessionState),
    Sessions { sessions: Vec<SessionState> },
    Read(ReadResult),
    Wait(WaitResult),
    Accepted { accepted: bool },
}

#[derive(Clone, Debug, PartialEq, Eq)]
pub struct ResponseError {
    pub code: String,
    pub message: String,
}

#[derive(Clone, Debug, PartialEq, Eq)]
pub struct ServerInfo {
    pub version: String,
    pub process_id: u32,
    pub started_at_ms: u64,
    pub active_sessions: u32,
    pub web_url: Option<String>,
    pub stopping: bool,
}

#[derive(Clone, Copy, Debug, PartialEq, Eq, Structural)]
pub enum SessionPhase {
    Starting,
    Running,
    Idle,
    Exited,
    Failed,
    Stopped,
}

/// How the session's client (the Codex conversation that created it) is
/// currently attached.
#[derive(Clone, Copy, Debug, PartialEq, Eq, Structural)]
pub enum ClientLeaseState {
    Unmanaged,
    Connected,
    Disconnected,
    Orphaned,
    Closing,
}

#[derive(Clone, Debug, PartialEq, Eq)]
pub struct SessionState {
    pub session: String,
    pub owner: Option<String>,
    pub client_session_id: Option<String>,
    pub client_state: ClientLeaseState,
    pub client_lease_ms: Option<u64>,
    pub orphan_grace_ms: Option<u64>,
    pub client_last_seen_at_ms: Option<u64>,
    pub orphaned_at_ms: Option<u64>,
    pub auto_close_at_ms: Option<u64>,
    pub phase: SessionPhase,
    pub title: Option<String>,
    pub cwd: String,
    pub model: Option<String>,
    pub always_approve: bool,
    pub process_id: Option<u32>,
    pub screen: Option<String>,
    pub rows: u16,
    pub cols: u16,
    pub screen_ansi_base64: String,
    pub last_cursor: u64,
    pub last_output_at_ms: Option<u64>,
    pub created_at_ms: u64,
    pub updated_at_ms: u64,
    pub exit_code: Option<u32>,
    pub error: Option<String>,
    pub activity: HookActivity,
    pub hook_event: Option<HookEventKind>,
    pub hook_at_ms: Option<u64>,
    pub tool_name: Option<String>,
    pub waiting_reason: Option<String>,
}

#[derive(Clone, Debug, PartialEq, Eq)]
pub struct ReadResult {
    pub session: String,
    /// Inclusive byte offset of the first byte returned in `data_base64`.
    pub cursor: u64,
    /// Exclusive byte offset after the returned bytes.
    pub next_cursor: u64,
    pub data_base64: String,
    pub plain_text: Option<String>,
    pub screen: Option<String>,
    pub truncated: bool,
    pub eof: bool,
}

#[derive(Clone, Debug, PartialEq, Eq)]
pub struct WaitResult {
    pub session: String,
    pub condition: WaitCondition,
    pub satisfied: bool,
    pub timed_out: bool,
    pub phase: SessionPhase,
    pub exit_code: Option<u32>,
    pub blocked_reason: Option<String>,
}

// ---------------------------------------------------------------------------
// Errors
// ---------------------------------------------------------------------------

/// Which identifier failed the identifier rules.
#[derive(Clone, Copy, Debug, PartialEq, Eq, Structural)]
pub enum IdentifierField {
    RequestId,
    ResponseId,
    SessionHandle,
    ErrorCode,
    WaitBlockedReason,
    ClientSessionId,
}

/// Which base64 payload failed to decode.
#[derive(Clone, Copy, Debug, PartialEq, Eq, Structural)]
pub enum PayloadField {
    WriteData,
    ReadData,
    ScreenAnsi,
}

/// Which optional text field of a hook event or session broke its limits.
#[derive(Clone, Copy, Debug, PartialEq, Eq, Structural)]
pub enum TextField {
    HookToolName,
    HookMessage,
    HookNotificationType,
    HookLevel,
    SessionToolName,
    SessionWaitingReason,
}

#[derive(Clone, Copy, Debug, PartialEq, Eq, Structural)]
pub enum ProtocolError {
    /// The frame, or its payload once the line ending is removed, is empty.
    EmptyFrame,
    /// The frame is longer than `MAX_FRAME_BYTES`.
    FrameTooLarge,
    /// The payload holds a line break: more than one NDJSON frame.
    MultipleFrames,
    InvalidIdentifier(IdentifierField),
    EmptyCwd,
    EmptyModel,
    InvalidOwner,
    InvalidReadLimit,
    EmptyInput,
    InvalidBase64(PayloadField),
    EmptyWriteData,
    WriteDataTooLarge,
    InvalidCols,
    InvalidRows,
    InvalidProviderSessionId,
    InvalidHookCwd,
    InvalidText(TextField),
    /// `ok` is true but the result is missing or an error is present.
    SuccessShape,
    /// `ok` is false but the error is missing or a result is present.
    FailureShape,
    EmptyErrorMessage,
    ReadCursorOverflow,
    ReadCursorMismatch,
    WaitSatisfiedAndTimedOut,
    BlockedWaitSettled,
    BlockedWaitCondition,
    EmptySessionCwd,
    SessionTimestamps,
}


// ---------------------------------------------------------------------------
// Response construction
// ---------------------------------------------------------------------------

impl ResponseEnvelope {
    pub fn success(id: &str, result: ResponseResult) -> (r: Self)
        ensures
            r.id@ == id@,
            r.ok,
            r.result == Some(result),
            r.error is None,
    {
        ResponseEnvelope { id: id.to_owned(), ok: true, result: Some(result), error: None }
    }

    pub fn failure(id: &str, code: &str, message: &str) -> (r: Self)
        ensures
            r.id@ == id@,
            !r.ok,
            r.result is None,
            r.error matches Some(e) && e.code@ == code@ && e.message@ == message@,
    {
        ResponseEnvelope {
            id: id.to_owned(),
            ok: false,
            result: None,
            error: Some(ResponseError { code: code.to_owned(), message: message.to_owned() }),
        }
    }
}

// ---------------------------------------------------------------------------
// Framing
// ---------------------------------------------------------------------------

/// A frame without its one optional `\n` or `\r\n` line ending.
pub open spec fn strip_line_ending(frame: Seq<u8>) -> Seq<u8> {
    if frame.len() > 0 && frame.last() == 0x0a {
        let w = frame.drop_last();
        if w.len() > 0 && w.last() == 0x0d {
            w.drop_last()
        } else {
            w
        }
    } else {
        frame
    }
}

pub open spec fn has_line_break(p: Seq<u8>) -> bool {
    exists|i: int| 0 <= i < p.len() && (p[i] == 0x0a || p[i] == 0x0d)
}

/// The JSON payload of an input that must hold exactly one NDJSON frame.
pub open spec fn frame_payload(frame: Seq<u8>) -> Result<Seq<u8>, ProtocolError> {
    if frame.len() == 0 {
        Err(ProtocolError::EmptyFrame)
    } else if frame.len() > MAX_FRAME_BYTES {
        Err(ProtocolError::FrameTooLarge)
    } else {
        let p = strip_line_ending(frame);
        if p.len() == 0 {
            Err(ProtocolError::EmptyFrame)
        } else if has_line_break(p) {
            Err(ProtocolError::MultipleFrames)
        } else {
            Ok(p)
        }
    }
}

pub fn single_frame_payload(frame: &[u8]) -> (r: Result<&[u8], ProtocolError>)
    ensures
        match r {
            Ok(p) => frame_payload(frame@) == Ok::<Seq<u8>, ProtocolError>(p@),
            Err(e) => frame_payload(frame@) == Err::<Seq<u8>, ProtocolError>(e),
        },
{
    if frame.len() == 0 {
        return Err(ProtocolError::EmptyFrame);
    }
    if frame.len() > MAX_FRAME_BYTES {
        return Err(ProtocolError::FrameTooLarge);
    }
    let mut end = frame.len();
    if frame[end - 1] == 0x0a {
        end = end - 1;
        if end > 0 && frame[end - 1] == 0x0d {
            end = end - 1;
        }
    }
    let payload = vstd::slice::slice_subrange(frame, 0, end);
    proof {
        let f = frame@;
        if f.last() == 0x0a {
            assert(f.drop_last() =~= f.subrange(0, f.len() - 1));
            if f.len() > 1 && f[f.len() - 2] == 0x0d {
                assert(f.drop_last().drop_last() =~= f.subrange(0, end as int));
            }
        }
        assert(strip_line_ending(f) =~= payload@);
    }
    if end == 0 {
        return Err(ProtocolError::EmptyFrame);
    }
    let mut i: usize = 0;
    while i < end
        invariant
            payload@.len() == end,
            end > 0,
            0 < frame@.len() <= MAX_FRAME_BYTES,
            payload@ == strip_line_ending(frame@),
            forall|k: int| 0 <= k < i ==> payload@[k] != 0x0a && payload@[k] != 0x0d,
        decreases end - i,
    {
        if payload[i] == 0x0a || payload[i] == 0x0d {
            assert(has_line_break(payload@));
            return Err(ProtocolError::MultipleFrames);
        }
        i = i + 1;
    }
    Ok(payload)
}

/// The bytes sent for one encoded message: the JSON followed by `\n`.
pub open spec fn frame_of(json: Seq<u8>) -> Result<Seq<u8>, ProtocolError> {
    if json.len() + 1 > MAX_FRAME_BYTES {
        Err(ProtocolError::FrameTooLarge)
    } else {
        Ok(json.push(0x0a))
    }
}

/// Terminates an encoded JSON message as one NDJSON frame.
pub fn frame_json(json: Vec<u8>) -> (r: Result<Vec<u8>, ProtocolError>)
    ensures
        match r {
            Ok(f) => frame_of(json@) == Ok::<Seq<u8>, ProtocolError>(f@),
            Err(e) => frame_of(json@) == Err::<Seq<u8>, ProtocolError>(e),
        },
{
    if json.len() >= MAX_FRAME_BYTES {
        return Err(ProtocolError::FrameTooLarge);
    }
    let mut json = json;
    json.push(0x0a);
    Ok(json)
}

// ---------------------------------------------------------------------------
// Field rules
// ---------------------------------------------------------------------------

pub open spec fn identifier_byte(b: u8) -> bool {
    is_ascii_alphanumeric(b) || b == 0x2d || b == 0x5f || b == 0x2e
}

/// ASCII letters, digits, `-`, `_` and `.`; between 1 and 128 bytes.
pub open spec fn valid_identifier(s: Seq<char>) -> bool {
    let b = vstd::utf8::encode_utf8(s);
    &&& b.len() > 0
    &&& b.len() <= MAX_IDENTIFIER_BYTES
    &&& forall|i: int| 0 <= i < b.len() ==> identifier_byte(#[trigger] b[i])
}

pub fn validate_identifier(value: &str, field: IdentifierField) -> (r: Result<(), ProtocolError>)
    ensures
        r == (if valid_identifier(value@) {
            Ok::<(), ProtocolError>(())
        } else {
            Err(ProtocolError::InvalidIdentifier(field))
        }),
{
    let bytes = value.as_bytes();
    if bytes.len() == 0 || bytes.len() > MAX_IDENTIFIER_BYTES {
        return Err(ProtocolError::InvalidIdentifier(field));
    }
    let mut i: usize = 0;
    while i < bytes.len()
        invariant
            bytes@ == vstd::utf8::encode_utf8(value@),
            i <= bytes.len(),
            forall|k: int| 0 <= k < i ==> identifier_byte(#[trigger] bytes@[k]),
        decreases bytes.len() - i,
    {
        let b = bytes[i];
        if !(crate::text::byte_is_ascii_alphanumeric(b) || b == 0x2d || b == 0x5f || b == 0x2e) {
            assert(!identifier_byte(bytes@[i as int]));
            return Err(ProtocolError::InvalidIdentifier(field));
        }
        i = i + 1;
    }
    Ok(())
}

/// Not blank, at most 128 bytes, no control characters.
pub open spec fn valid_owner(s: Seq<char>) -> bool {
    !is_blank(s) && utf8_len(s) <= MAX_OWNER_BYTES && !has_control(s)
}

pub fn validate_owner(owner: &str) -> (r: Result<(), ProtocolError>)
    ensures
        r == (if valid_owner(owner@) {
            Ok::<(), ProtocolError>(())
        } else {
            Err(ProtocolError::InvalidOwner)
        }),
{
    if str_is_blank(owner) || owner.as_bytes().len() > MAX_OWNER_BYTES || str_has_control(owner) {
        Err(ProtocolError::InvalidOwner)
    } else {
        Ok(())
    }
}

pub open spec fn uuid_byte_ok(i: int, b: u8) -> bool {
    if i == 8 || i == 13 || i == 18 || i == 23 {
        b == 0x2d
    } else {
        is_ascii_hexdigit(b)
    }
}

/// A canonical UUID: 36 bytes, hyphens at 8, 13, 18 and 23, hex digits elsewhere.
pub open spec fn valid_provider_session_id(s: Seq<char>) -> bool {
    let b = vstd::utf8::encode_utf8(s);
    b.len() == PROVIDER_SESSION_ID_BYTES && forall|i: int|
        0 <= i < b.len() ==> uuid_byte_ok(i, #[trigger] b[i])
}

pub fn validate_provider_session_id(id: &str) -> (r: Result<(), ProtocolError>)
    ensures
        r == (if valid_provider_session_id(id@) {
            Ok::<(), ProtocolError>(())
        } else {
            Err(ProtocolError::InvalidProviderSessionId)
        }),
{
    let bytes = id.as_bytes();
    if bytes.len() != PROVIDER_SESSION_ID_BYTES {
        return Err(ProtocolError::InvalidProviderSessionId);
    }
    let mut i: usize = 0;
    while i < bytes.len()
        invariant
            bytes@ == vstd::utf8::encode_utf8(id@),
            i <= bytes.len(),
            forall|k: int| 0 <= k < i ==> uuid_byte_ok(k, #[trigger] bytes@[k]),
        decreases bytes.len() - i,
    {
        let b = bytes[i];
        let ok = if i == 8 || i == 13 || i == 18 || i == 23 {
            b == 0x2d
        } else {
            crate::text::byte_is_ascii_hexdigit(b)
        };
        if !ok {
            assert(!uuid_byte_ok(i as int, bytes@[i as int]));
            return Err(ProtocolError::InvalidProviderSessionId);
        }
        i = i + 1;
    }
    Ok(())
}

/// An optional text: when present, at most `max` bytes and no control characters.
pub open spec fn optional_text_ok(value: Option<Seq<char>>, max: nat) -> bool {
    match value {
        Some(v) => utf8_len(v) <= max && !has_control(v),
        None => true,
    }
}

pub open spec fn opt_view(value: Option<String>) -> Option<Seq<char>> {
    match value {
        Some(v) => Some(v@),
        None => None,
    }
}

pub fn validate_optional_text(value: &Option<String>, field: TextField, max_bytes: usize) -> (r:
    Result<(), ProtocolError>)
    ensures
        r == (if optional_text_ok(opt_view(*value), max_bytes as nat) {
            Ok::<(), ProtocolError>(())
        } else {
            Err(ProtocolError::InvalidText(field))
        }),
{
    match value {
        Some(v) => {
            if v.as_str().as_bytes().len() > max_bytes || str_has_control(v.as_str()) {
                Err(ProtocolError::InvalidText(field))
            } else {
                Ok(())
            }
        },
        None => Ok(()),
    }
}

pub open spec fn hook_cwd_ok(cwd: Option<Seq<char>>) -> bool {
    match cwd {
        Some(c) => utf8_len(c) <= MAX_HOOK_CWD_BYTES && !has_char(c, '\0'),
        None => true,
    }
}

/// The first rule that a hook event breaks, checked in field order.
pub open spec fn hook_event_error(e: HookEvent) -> Option<ProtocolError> {
    if !hook_cwd_ok(opt_view(e.cwd)) {
        Some(ProtocolError::InvalidHookCwd)
    } else if !optional_text_ok(opt_view(e.tool_name), MAX_HOOK_SHORT_TEXT_BYTES as nat) {
        Some(ProtocolError::InvalidText(TextField::HookToolName))
    } else if !optional_text_ok(opt_view(e.message), MAX_HOOK_MESSAGE_BYTES as nat) {
        Some(ProtocolError::InvalidText(TextField::HookMessage))
    } else if !optional_text_ok(opt_view(e.notification_type), MAX_HOOK_SHORT_TEXT_BYTES as nat) {
        Some(ProtocolError::InvalidText(TextField::HookNotificationType))
    } else if !optional_text_ok(opt_view(e.level), MAX_HOOK_SHORT_TEXT_BYTES as nat) {
        Some(ProtocolError::InvalidText(TextField::HookLevel))
    } else {
        None
    }
}

pub open spec fn as_result(e: Option<ProtocolError>) -> Result<(), ProtocolError> {
    match e {
        Some(e) => Err(e),
        None => Ok(()),
    }
}

pub fn validate_hook_event(event: &HookEvent) -> (r: Result<(), ProtocolError>)
    ensures
        r == as_result(hook_event_error(*event)),
{
    if let Some(cwd) = &event.cwd {
        if cwd.as_str().as_bytes().len() > MAX_HOOK_CWD_BYTES || str_has_char(cwd.as_str(), '\0') {
            return Err(ProtocolError::InvalidHookCwd);
        }
    }
    if let Err(e) = validate_optional_text(
        &event.tool_name,
        TextField::HookToolName,
        MAX_HOOK_SHORT_TEXT_BYTES,
    ) {
        return Err(e);
    }
    if let Err(e) = validate_optional_text(
        &event.message,
        TextField::HookMessage,
        MAX_HOOK_MESSAGE_BYTES,
    ) {
        return Err(e);
    }
    if let Err(e) = validate_optional_text(
        &event.notification_type,
        TextField::HookNotificationType,
        MAX_HOOK_SHORT_TEXT_BYTES,
    ) {
        return Err(e);
    }
    validate_optional_text(&event.level, TextField::HookLevel, MAX_HOOK_SHORT_TEXT_BYTES)
}

pub open spec fn terminal_size_error(cols: u16, rows: u16) -> Option<ProtocolError> {
    if !(MIN_TERMINAL_COLS <= cols <= MAX_TERMINAL_COLS) {
        Some(ProtocolError::InvalidCols)
    } else if !(MIN_TERMINAL_ROWS <= rows <= MAX_TERMINAL_ROWS) {
        Some(ProtocolError::InvalidRows)
    } else {
        None
    }
}

pub fn validate_terminal_size(cols: u16, rows: u16) -> (r: Result<(), ProtocolError>)
    ensures
        r == as_result(terminal_size_error(cols, rows)),
{
    if !(MIN_TERMINAL_COLS <= cols && cols <= MAX_TERMINAL_COLS) {
        return Err(ProtocolError::InvalidCols);
    }
    if !(MIN_TERMINAL_ROWS <= rows && rows <= MAX_TERMINAL_ROWS) {
        return Err(ProtocolError::InvalidRows);
    }
    Ok(())
}

/// The bytes of a raw terminal write: valid base64 of between 1 and 64 KiB.
pub open spec fn write_data(text: Seq<char>) -> Result<Seq<u8>, ProtocolError> {
    match base64_decoding(text) {
        None => Err(ProtocolError::InvalidBase64(PayloadField::WriteData)),
        Some(d) => if d.len() == 0 {
            Err(ProtocolError::EmptyWriteData)
        } else if d.len() > MAX_WRITE_BYTES {
            Err(ProtocolError::WriteDataTooLarge)
        } else {
            Ok(d)
        },
    }
}

pub fn decode_write_data(data_base64: &str) -> (r: Result<Vec<u8>, ProtocolError>)
    ensures
        match r {
            Ok(d) => write_data(data_base64@) == Ok::<Seq<u8>, ProtocolError>(d@),
            Err(e) => write_data(data_base64@) == Err::<Seq<u8>, ProtocolError>(e),
        },
{
    let data = match base64_decode(data_base64) {
        Some(d) => d,
        None => return Err(ProtocolError::InvalidBase64(PayloadField::WriteData)),
    };
    if data.len() == 0 {
        return Err(ProtocolError::EmptyWriteData);
    }
    if data.len() > MAX_WRITE_BYTES {
        return Err(ProtocolError::WriteDataTooLarge);
    }
    Ok(data)
}


// ---------------------------------------------------------------------------
// Requests
// ---------------------------------------------------------------------------

pub open spec fn identifier_error(s: Seq<char>, field: IdentifierField) -> Option<ProtocolError> {
    if valid_identifier(s) {
        None
    } else {
        Some(ProtocolError::InvalidIdentifier(field))
    }
}

pub open spec fn optional_blank(value: Option<String>) -> bool {
    match value {
        Some(v) => is_blank(v@),
        None => false,
    }
}

pub open spec fn optional_owner_ok(value: Option<String>) -> bool {
    match value {
        Some(v) => valid_owner(v@),
        None => true,
    }
}

/// The first rule that a request breaks, in the order the server checks them.
pub open spec fn request_error(r: Request) -> Option<ProtocolError> {
    match r {
        Request::ServerStatus | Request::ServerStop | Request::List | Request::Heartbeat
        | Request::CloseCodex => None,
        Request::Create { cwd, model, owner, .. } => if is_blank(cwd@) {
            Some(ProtocolError::EmptyCwd)
        } else if optional_blank(model) {
            Some(ProtocolError::EmptyModel)
        } else if !optional_owner_ok(owner) {
            Some(ProtocolError::InvalidOwner)
        } else {
            None
        },
        Request::Show { session } | Request::Close { session } | Request::Wait { session, .. } =>
            identifier_error(session@, IdentifierField::SessionHandle),
        Request::Read { session, limit, .. } => if !valid_identifier(session@) {
            identifier_error(session@, IdentifierField::SessionHandle)
        } else if limit matches Some(l) && (l == 0 || l > MAX_READ_LIMIT) {
            Some(ProtocolError::InvalidReadLimit)
        } else {
            None
        },
        Request::Send { session, input } => if !valid_identifier(session@) {
            identifier_error(session@, IdentifierField::SessionHandle)
        } else if input@.len() == 0 {
            Some(ProtocolError::EmptyInput)
        } else {
            None
        },
        Request::Write { session, data_base64 } => if !valid_identifier(session@) {
            identifier_error(session@, IdentifierField::SessionHandle)
        } else {
            match write_data(data_base64@) {
                Ok(_) => None,
                Err(e) => Some(e),
            }
        },
        Request::Resize { session, cols, rows } => if !valid_identifier(session@) {
            identifier_error(session@, IdentifierField::SessionHandle)
        } else {
            terminal_size_error(cols, rows)
        },
        Request::HookEvent { provider_session_id, event } => if !valid_provider_session_id(
            provider_session_id@,
        ) {
            Some(ProtocolError::InvalidProviderSessionId)
        } else {
            hook_event_error(event)
        },
    }
}

pub fn validate_request(request: &Request) -> (r: Result<(), ProtocolError>)
    ensures
        r == as_result(request_error(*request)),
{
    match request {
        Request::ServerStatus | Request::ServerStop | Request::List | Request::Heartbeat
        | Request::CloseCodex => Ok(()),
        Request::Create { cwd, model, owner, .. } => {
            if str_is_blank(cwd.as_str()) {
                return Err(ProtocolError::EmptyCwd);
            }
            if let Some(m) = model {
                if str_is_blank(m.as_str()) {
                    return Err(ProtocolError::EmptyModel);
                }
            }
            if let Some(o) = owner {
                if let Err(e) = validate_owner(o.as_str()) {
                    return Err(e);
                }
            }
            Ok(())
        },
        Request::Show { session } | Request::Close { session } | Request::Wait { session, .. } => {
            validate_identifier(session.as_str(), IdentifierField::SessionHandle)
        },
        Request::Read { session, limit, .. } => {
            if let Err(e) = validate_identifier(session.as_str(), IdentifierField::SessionHandle) {
                return Err(e);
            }
            if let Some(l) = limit {
                if *l == 0 || *l > MAX_READ_LIMIT {
                    return Err(ProtocolError::InvalidReadLimit);
                }
            }
            Ok(())
        },
        Request::Send { session, input } => {
            if let Err(e) = validate_identifier(session.as_str(), IdentifierField::SessionHandle) {
                return Err(e);
            }
            if input.as_str().is_empty() {
                return Err(ProtocolError::EmptyInput);
            }
            Ok(())
        },
        Request::Write { session, data_base64 } => {
            if let Err(e) = validate_identifier(session.as_str(), IdentifierField::SessionHandle) {
                return Err(e);
            }
            match decode_write_data(data_base64.as_str()) {
                Ok(_) => Ok(()),
                Err(e) => Err(e),
            }
        },
        Request::Resize { session, cols, rows } => {
            if let Err(e) = validate_identifier(session.as_str(), IdentifierField::SessionHandle) {
                return Err(e);
            }
            validate_terminal_size(*cols, *rows)
        },
        Request::HookEvent { provider_session_id, event } => {
            if let Err(e) = validate_provider_session_id(provider_session_id.as_str()) {
                return Err(e);
            }
            validate_hook_event(event)
        },
    }
}

pub open spec fn request_envelope_error(env: RequestEnvelope) -> Option<ProtocolError> {
    if !valid_identifier(env.id@) {
        identifier_error(env.id@, IdentifierField::RequestId)
    } else {
        request_error(env.request)
    }
}

/// The checks that a decoded request envelope must pass: its id, then its
/// request.
pub fn validate_request_envelope(envelope: &RequestEnvelope) -> (r: Result<(), ProtocolError>)
    ensures
        r == as_result(request_envelope_error(*envelope)),
{
    if let Err(e) = validate_identifier(envelope.id.as_str(), IdentifierField::RequestId) {
        return Err(e);
    }
    validate_request(&envelope.request)
}

// ---------------------------------------------------------------------------
// Responses
// ---------------------------------------------------------------------------

/// The first rule that a session snapshot breaks.
pub open spec fn session_state_error(s: SessionState) -> Option<ProtocolError> {
    if !valid_identifier(s.session@) {
        identifier_error(s.session@, IdentifierField::SessionHandle)
    } else if !optional_owner_ok(s.owner) {
        Some(ProtocolError::InvalidOwner)
    } else if is_blank(s.cwd@) {
        Some(ProtocolError::EmptySessionCwd)
    } else if s.updated_at_ms < s.created_at_ms {
        Some(ProtocolError::SessionTimestamps)
    } else if terminal_size_error(s.cols, s.rows) is Some {
        terminal_size_error(s.cols, s.rows)
    } else if base64_decoding(s.screen_ansi_base64@) is None {
        Some(ProtocolError::InvalidBase64(PayloadField::ScreenAnsi))
    } else if !optional_text_ok(opt_view(s.tool_name), MAX_HOOK_SHORT_TEXT_BYTES as nat) {
        Some(ProtocolError::InvalidText(TextField::SessionToolName))
    } else if !optional_text_ok(opt_view(s.waiting_reason), MAX_HOOK_MESSAGE_BYTES as nat) {
        Some(ProtocolError::InvalidText(TextField::SessionWaitingReason))
    } else {
        None
    }
}

pub fn validate_session_state(session: &SessionState) -> (r: Result<(), ProtocolError>)
    ensures
        r == as_result(session_state_error(*session)),
{
    if let Err(e) = validate_identifier(session.session.as_str(), IdentifierField::SessionHandle) {
        return Err(e);
    }
    if let Some(o) = &session.owner {
        if let Err(e) = validate_owner(o.as_str()) {
            return Err(e);
        }
    }
    if str_is_blank(session.cwd.as_str()) {
        return Err(ProtocolError::EmptySessionCwd);
    }
    if session.updated_at_ms < session.created_at_ms {
        return Err(ProtocolError::SessionTimestamps);
    }
    if let Err(e) = validate_terminal_size(session.cols, session.rows) {
        return Err(e);
    }
    if base64_decode(session.screen_ansi_base64.as_str()).is_none() {
        return Err(ProtocolError::InvalidBase64(PayloadField::ScreenAnsi));
    }
    if let Err(e) = validate_optional_text(
        &session.tool_name,
        TextField::SessionToolName,
        MAX_HOOK_SHORT_TEXT_BYTES,
    ) {
        return Err(e);
    }
    validate_optional_text(
        &session.waiting_reason,
        TextField::SessionWaitingReason,
        MAX_HOOK_MESSAGE_BYTES,
    )
}

/// The first error among a list of session snapshots.
pub open spec fn sessions_error(s: Seq<SessionState>) -> Option<ProtocolError>
    decreases s.len(),
{
    if s.len() == 0 {
        None
    } else {
        match session_state_error(s[0]) {
            Some(e) => Some(e),
            None => sessions_error(s.drop_first()),
        }
    }
}

proof fn lemma_sessions_error_prefix(s: Seq<SessionState>, i: int)
    requires
        0 <= i < s.len(),
        forall|k: int| 0 <= k < i ==> session_state_error(#[trigger] s[k]) is None,
    ensures
        sessions_error(s) == sessions_error(s.skip(i)),
    decreases i,
{
    if i > 0 {
        assert(s.skip(1) =~= s.drop_first());
        lemma_sessions_error_prefix(s.drop_first(), i - 1);
        assert(s.drop_first().skip(i - 1) =~= s.skip(i));
    } else {
        assert(s.skip(0) =~= s);
    }
}

pub open spec fn read_result_error(read: ReadResult) -> Option<ProtocolError> {
    if !valid_identifier(read.session@) {
        identifier_error(read.session@, IdentifierField::SessionHandle)
    } else {
        match base64_decoding(read.data_base64@) {
            None => Some(ProtocolError::InvalidBase64(PayloadField::ReadData)),
            Some(b) => if read.cursor + b.len() > u64::MAX {
                Some(ProtocolError::ReadCursorOverflow)
            } else if read.next_cursor != read.cursor + b.len() {
                Some(ProtocolError::ReadCursorMismatch)
            } else {
                None
            },
        }
    }
}

pub open spec fn wait_result_error(wait: WaitResult) -> Option<ProtocolError> {
    if !valid_identifier(wait.session@) {
        identifier_error(wait.session@, IdentifierField::SessionHandle)
    } else if wait.satisfied && wait.timed_out {
        Some(ProtocolError::WaitSatisfiedAndTimedOut)
    } else {
        match wait.blocked_reason {
            Some(reason) => if !valid_identifier(reason@) {
                identifier_error(reason@, IdentifierField::WaitBlockedReason)
            } else if wait.satisfied || wait.timed_out {
                Some(ProtocolError::BlockedWaitSettled)
            } else if wait.condition != WaitCondition::TuiIdle {
                Some(ProtocolError::BlockedWaitCondition)
            } else {
                None
            },
            None => None,
        }
    }
}

pub open spec fn response_result_error(result: ResponseResult) -> Option<ProtocolError> {
    match result {
        ResponseResult::ServerInfo(_) | ResponseResult::Accepted { .. } => None,
        ResponseResult::Session(s) => session_state_error(s),
        ResponseResult::Sessions { sessions } => sessions_error(sessions@),
        ResponseResult::Read(read) => read_result_error(read),
        ResponseResult::Wait(wait) => wait_result_error(wait),
    }
}

pub fn validate_read_result(read: &ReadResult) -> (r: Result<(), ProtocolError>)
    ensures
        r == as_result(read_result_error(*read)),
{
    if let Err(e) = validate_identifier(read.session.as_str(), IdentifierField::SessionHandle) {
        return Err(e);
    }
    let bytes = match base64_decode(read.data_base64.as_str()) {
        Some(b) => b,
        None => return Err(ProtocolError::InvalidBase64(PayloadField::ReadData)),
    };
    let len = bytes.len() as u64;
    if read.cursor > u64::MAX - len {
        return Err(ProtocolError::ReadCursorOverflow);
    }
    if read.next_cursor != read.cursor + len {
        return Err(ProtocolError::ReadCursorMismatch);
    }
    Ok(())
}

pub fn validate_wait_result(wait: &WaitResult) -> (r: Result<(), ProtocolError>)
    ensures
        r == as_result(wait_result_error(*wait)),
{
    if let Err(e) = validate_identifier(wait.session.as_str(), IdentifierField::SessionHandle) {
        return Err(e);
    }
    if wait.satisfied && wait.timed_out {
        return Err(ProtocolError::WaitSatisfiedAndTimedOut);
    }
    if let Some(reason) = &wait.blocked_reason {
        if let Err(e) = validate_identifier(reason.as_str(), IdentifierField::WaitBlockedReason) {
            return Err(e);
        }
        if wait.satisfied || wait.timed_out {
            return Err(ProtocolError::BlockedWaitSettled);
        }
        if wait.condition != WaitCondition::TuiIdle {
            return Err(ProtocolError::BlockedWaitCondition);
        }
    }
    Ok(())
}

pub fn validate_response_result(result: &ResponseResult) -> (r: Result<(), ProtocolError>)
    ensures
        r == as_result(response_result_error(*result)),
{
    match result {
        ResponseResult::ServerInfo(_) | ResponseResult::Accepted { .. } => Ok(()),
        ResponseResult::Session(session) => validate_session_state(session),
        ResponseResult::Sessions { sessions } => {
            let mut i: usize = 0;
            while i < sessions.len()
                invariant
                    i <= sessions.len(),
                    response_result_error(*result) == sessions_error(sessions@),
                    forall|k: int| 0 <= k < i ==> session_state_error(#[trigger] sessions@[k]) is None,
                decreases sessions.len() - i,
            {
                if let Err(e) = validate_session_state(&sessions[i]) {
                    proof {
                        lemma_sessions_error_prefix(sessions@, i as int);
                        let t = sessions@.skip(i as int);
                        assert(t[0] == sessions@[i as int]);
                        assert(session_state_error(t[0]) == Some(e));
                        assert(sessions_error(t) == Some(e));
                    }
                    return Err(e);
                }
                i = i + 1;
            }
            proof {
                if sessions@.len() > 0 {
                    lemma_sessions_error_prefix(sessions@, sessions@.len() - 1);
                    let t = sessions@.skip(sessions@.len() - 1);
                    assert(t.drop_first().len() == 0);
                    assert(sessions_error(t.drop_first()) is None);
                    assert(t[0] == sessions@[sessions@.len() - 1]);
                    assert(session_state_error(t[0]) is None);
                    assert(sessions_error(t) is None);
                }
            }
            Ok(())
        },
        ResponseResult::Read(read) => validate_read_result(read),
        ResponseResult::Wait(wait) => validate_wait_result(wait),
    }
}

pub open spec fn response_error(env: ResponseEnvelope) -> Option<ProtocolError> {
    if env.ok {
        match (env.result, env.error) {
            (Some(result), None) => response_result_error(result),
            _ => Some(ProtocolError::SuccessShape),
        }
    } else {
        match (env.result, env.error) {
            (None, Some(error)) => if !valid_identifier(error.code@) {
                identifier_error(error.code@, IdentifierField::ErrorCode)
            } else if is_blank(error.message@) {
                Some(ProtocolError::EmptyErrorMessage)
            } else {
                None
            },
            _ => Some(ProtocolError::FailureShape),
        }
    }
}

pub fn validate_response(envelope: &ResponseEnvelope) -> (r: Result<(), ProtocolError>)
    ensures
        r == as_result(response_error(*envelope)),
{
    if envelope.ok {
        match (&envelope.result, &envelope.error) {
            (Some(result), None) => validate_response_result(result),
            _ => Err(ProtocolError::SuccessShape),
        }
    } else {
        match (&envelope.result, &envelope.error) {
            (None, Some(error)) => {
                if let Err(e) = validate_identifier(error.code.as_str(), IdentifierField::ErrorCode) {
                    return Err(e);
                }
                if str_is_blank(error.message.as_str()) {
                    return Err(ProtocolError::EmptyErrorMessage);
                }
                Ok(())
            },
            _ => Err(ProtocolError::FailureShape),
        }
    }
}

pub open spec fn response_envelope_error(env: ResponseEnvelope) -> Option<ProtocolError> {
    if !valid_identifier(env.id@) {
        identifier_error(env.id@, IdentifierField::ResponseId)
    } else {
        response_error(env)
    }
}

/// The checks that a decoded response envelope must pass: its id, then its
/// shape and payload.
pub fn validate_response_envelope(envelope: &ResponseEnvelope) -> (r: Result<(), ProtocolError>)
    ensures
        r == as_result(response_envelope_error(*envelope)),
{
    if let Err(e) = validate_identifier(envelope.id.as_str(), IdentifierField::ResponseId) {
        return Err(e);
    }
    validate_response(envelope)
}

} // verus!
