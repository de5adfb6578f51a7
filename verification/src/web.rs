//! The WebUI: commands that the browser sends over the events socket, the
//! per-connection request id window, the results sent back, and the checks
//! on HTTP requests, origins and paths.
use vstd::prelude::*;
use crate::json::{
    get, get_member, get_member_str, get_member_u64, get_str, get_u64, json_compact, json_parsed,
    lemma_members_view, member, members_view, parse_json, print_json, string_value, Json,
    JsonView, Member,
};
use crate::protocol::{
    valid_identifier, valid_owner, validate_identifier, validate_owner, IdentifierField,
};
use crate::text::{
    all_digits, ascii_lowercase, chars_eq_str, chars_of, chars_to_ascii_lower, is_digit_char,
    starts_with, str_eq, string_from_chars, trim, trim_chars, utf8_len,
};
use crate::codec::{base64_decode, base64_decoding};
use crate::version::{find_char, find_char_from, sub_chars};

verus! {

broadcast use vstd::string::group_string_axioms;

pub const WEB_EVENTS_MAX_MESSAGE_BYTES: usize = 1048576;
pub const WEB_EVENTS_MAX_REQUEST_ID_BYTES: usize = 128;
pub const WEB_EVENTS_MAX_TRACKED_REQUEST_IDS: usize = 8192;

// ---------------------------------------------------------------------------
// Client commands
// ---------------------------------------------------------------------------

/// A command that the browser sends on `/api/events`.
#[derive(Clone, Debug, PartialEq, Eq)]
pub enum WebEventsClientCommand {
    TerminalInput { id: String, session: String, data_base64: String },
    TerminalResize { id: String, session: String, cols: u16, rows: u16 },
}

/// A command as values: id, session, then the payload.
pub enum CommandView {
    Input(Seq<char>, Seq<char>, Seq<char>),
    Resize(Seq<char>, Seq<char>, u16, u16),
}

pub open spec fn command_view(c: WebEventsClientCommand) -> CommandView {
    match c {
        WebEventsClientCommand::TerminalInput { id, session, data_base64 } => CommandView::Input(
            id@,
            session@,
            data_base64@,
        ),
        WebEventsClientCommand::TerminalResize { id, session, cols, rows } => CommandView::Resize(
            id@,
            session@,
            cols,
            rows,
        ),
    }
}

/// Why a client message is not a command.
#[derive(Clone, Copy, Debug, PartialEq, Eq, Structural)]
pub enum WebParseFailure {
    TooLarge,
    InvalidJson,
    NotObject,
    IdTooLong,
    IdNotString,
    IdRequired,
    InvalidSession,
    DataRequired,
    ColsRequired,
    RowsRequired,
    ColsOutOfRange,
    RowsOutOfRange,
}

/// The message sent back for a failure; an invalid JSON message also carries
/// serde_json's words after this text.
pub open spec fn failure_text(f: WebParseFailure) -> Seq<char> {
    match f {
        WebParseFailure::TooLarge => "message exceeds size limit"@,
        WebParseFailure::InvalidJson => "invalid JSON: "@,
        WebParseFailure::NotObject => "message must be a JSON object"@,
        WebParseFailure::IdTooLong => "request id is too long"@,
        WebParseFailure::IdNotString => "request id must be a string"@,
        WebParseFailure::IdRequired => "request id is required"@,
        WebParseFailure::InvalidSession => "session handle must contain only ASCII letters, digits, '-', '_' or '.', up to 128 bytes"@,
        WebParseFailure::DataRequired => "data_base64 is required"@,
        WebParseFailure::ColsRequired => "cols is required"@,
        WebParseFailure::RowsRequired => "rows is required"@,
        WebParseFailure::ColsOutOfRange => "cols out of range"@,
        WebParseFailure::RowsOutOfRange => "rows out of range"@,
    }
}

fn failure_message(f: WebParseFailure) -> (r: &'static str)
    ensures
        r@ == failure_text(f),
{
    match f {
        WebParseFailure::TooLarge => "message exceeds size limit",
        WebParseFailure::InvalidJson => "invalid JSON: ",
        WebParseFailure::NotObject => "message must be a JSON object",
        WebParseFailure::IdTooLong => "request id is too long",
        WebParseFailure::IdNotString => "request id must be a string",
        WebParseFailure::IdRequired => "request id is required",
        WebParseFailure::InvalidSession => "session handle must contain only ASCII letters, digits, '-', '_' or '.', up to 128 bytes",
        WebParseFailure::DataRequired => "data_base64 is required",
        WebParseFailure::ColsRequired => "cols is required",
        WebParseFailure::RowsRequired => "rows is required",
        WebParseFailure::ColsOutOfRange => "cols out of range",
        WebParseFailure::RowsOutOfRange => "rows out of range",
    }
}

/// A message that is not a command, with what could still be recognised of
/// it so that the browser can settle its pending command.
#[derive(Debug)]
pub struct WebEventsParseError {
    pub failure: WebParseFailure,
    pub message: String,
    pub id: Option<String>,
    pub session: Option<String>,
    pub result_type: &'static str,
}

/// A failure with the recognised id, session and result type.
pub type FailureView = (WebParseFailure, Option<Seq<char>>, Option<Seq<char>>, Seq<char>);

pub open spec fn generic_failure(f: WebParseFailure) -> Result<Option<CommandView>, FailureView> {
    Err((f, None, None, "input_result"@))
}

pub open spec fn str_or_empty(v: Option<Seq<char>>) -> Seq<char> {
    match v {
        Some(s) => s,
        None => Seq::empty(),
    }
}

/// The request id member: absent and `null` are no id; a string must fit.
pub open spec fn request_id_of(d: JsonView) -> Result<Option<Seq<char>>, WebParseFailure> {
    match get(d, "id"@) {
        None => Ok(None),
        Some(JsonView::Null) => Ok(None),
        Some(JsonView::Str(v)) => if utf8_len(v) > WEB_EVENTS_MAX_REQUEST_ID_BYTES {
            Err(WebParseFailure::IdTooLong)
        } else {
            Ok(Some(v))
        },
        Some(_) => Err(WebParseFailure::IdNotString),
    }
}

pub open spec fn input_command_of(d: JsonView, id: Option<Seq<char>>, session: Option<Seq<char>>) -> Result<
    Option<CommandView>,
    FailureView,
> {
    let t = "input_result"@;
    match id {
        None => Err((WebParseFailure::IdRequired, id, session, t)),
        Some(i) => if i.len() == 0 {
            Err((WebParseFailure::IdRequired, id, session, t))
        } else {
            let s = str_or_empty(get_str(d, "session"@));
            let data = str_or_empty(get_str(d, "data_base64"@));
            if !valid_identifier(s) {
                Err((WebParseFailure::InvalidSession, id, session, t))
            } else if data.len() == 0 {
                Err((WebParseFailure::DataRequired, id, session, t))
            } else {
                Ok(Some(CommandView::Input(i, s, data)))
            }
        },
    }
}

pub open spec fn resize_command_of(d: JsonView, id: Option<Seq<char>>, session: Option<Seq<char>>) -> Result<
    Option<CommandView>,
    FailureView,
> {
    let t = "resize_result"@;
    match id {
        None => Err((WebParseFailure::IdRequired, id, session, t)),
        Some(i) => if i.len() == 0 {
            Err((WebParseFailure::IdRequired, id, session, t))
        } else {
            let s = str_or_empty(get_str(d, "session"@));
            if !valid_identifier(s) {
                Err((WebParseFailure::InvalidSession, id, session, t))
            } else {
                match (get_u64(d, "cols"@), get_u64(d, "rows"@)) {
                    (None, _) => Err((WebParseFailure::ColsRequired, id, session, t)),
                    (Some(_), None) => Err((WebParseFailure::RowsRequired, id, session, t)),
                    (Some(c), Some(r)) => if c > u16::MAX {
                        Err((WebParseFailure::ColsOutOfRange, id, session, t))
                    } else if r > u16::MAX {
                        Err((WebParseFailure::RowsOutOfRange, id, session, t))
                    } else {
                        Ok(Some(CommandView::Resize(i, s, c as u16, r as u16)))
                    },
                }
            }
        },
    }
}

/// What a client message is: a command, nothing (an unknown type, ignored),
/// or a failure. Size, JSON shape and the request id are checked before the
/// type; a failure after the type is known keeps the id, the session (when a
/// non-empty string) and the type's result type.
pub open spec fn client_command_of(text: Seq<char>) -> Result<Option<CommandView>, FailureView> {
    if utf8_len(text) > WEB_EVENTS_MAX_MESSAGE_BYTES {
        generic_failure(WebParseFailure::TooLarge)
    } else {
        match json_parsed(vstd::utf8::encode_utf8(text)) {
            None => generic_failure(WebParseFailure::InvalidJson),
            Some(d) => command_of_document(d),
        }
    }
}

/// What a parsed client message is: it must be an object with a valid
/// request id; then its type selects the command, and an unknown type is
/// ignored.
pub open spec fn command_of_document(d: JsonView) -> Result<Option<CommandView>, FailureView> {
    match d {
        JsonView::Object(_) => match request_id_of(d) {
            Err(f) => generic_failure(f),
            Ok(id) => {
                let ty = str_or_empty(get_str(d, "type"@));
                let session = match get_str(d, "session"@) {
                    Some(s) => if s.len() > 0 {
                        Some(s)
                    } else {
                        None
                    },
                    None => None,
                };
                if ty == "terminal_input"@ {
                    input_command_of(d, id, session)
                } else if ty == "terminal_resize"@ {
                    resize_command_of(d, id, session)
                } else {
                    Ok(None)
                }
            },
        },
        _ => generic_failure(WebParseFailure::NotObject),
    }
}

pub open spec fn opt_string_view(v: Option<String>) -> Option<Seq<char>> {
    match v {
        Some(s) => Some(s@),
        None => None,
    }
}

pub open spec fn parse_view(r: Result<Option<WebEventsClientCommand>, WebEventsParseError>) -> Result<
    Option<CommandView>,
    FailureView,
> {
    match r {
        Ok(Some(c)) => Ok(Some(command_view(c))),
        Ok(None) => Ok(None),
        Err(e) => Err((e.failure, opt_string_view(e.id), opt_string_view(e.session), e.result_type@)),
    }
}

fn fail(
    failure: WebParseFailure,
    id: Option<String>,
    session: Option<String>,
    result_type: &'static str,
) -> (r: Result<Option<WebEventsClientCommand>, WebEventsParseError>)
    requires
        failure != WebParseFailure::InvalidJson,
    ensures
        r matches Err(e) && e.failure == failure && e.id == id && e.session == session
            && e.result_type == result_type && e.message@ == failure_text(failure),
{
    Err(
        WebEventsParseError {
            failure,
            message: failure_message(failure).to_string(),
            id,
            session,
            result_type,
        },
    )
}

fn owned_str(v: Option<&str>) -> (r: String)
    ensures
        r@ == str_or_empty(
            match v {
                Some(s) => Some(s@),
                None => None,
            },
        ),
{
    match v {
        Some(s) => s.to_string(),
        None => String::new(),
    }
}

fn request_id(d: &Json) -> (r: Result<Option<String>, WebParseFailure>)
    ensures
        match r {
            Ok(id) => request_id_of(d@) == Ok::<Option<Seq<char>>, WebParseFailure>(
                opt_string_view(id),
            ),
            Err(f) => request_id_of(d@) == Err::<Option<Seq<char>>, WebParseFailure>(f),
        },
{
    match get_member(d, "id") {
        None => Ok(None),
        Some(Json::Null) => Ok(None),
        Some(Json::Str(v)) => if v.as_str().as_bytes().len() > WEB_EVENTS_MAX_REQUEST_ID_BYTES {
            Err(WebParseFailure::IdTooLong)
        } else {
            Ok(Some(v.clone()))
        },
        Some(_) => Err(WebParseFailure::IdNotString),
    }
}

fn input_command(d: &Json, id: Option<String>, session: Option<String>) -> (r: Result<
    Option<WebEventsClientCommand>,
    WebEventsParseError,
>)
    ensures
        parse_view(r) == input_command_of(d@, opt_string_view(id), opt_string_view(session)),
        r matches Err(e) ==> e.failure != WebParseFailure::InvalidJson && e.message@ == failure_text(
            e.failure,
        ),
{
    let i = match &id {
        None => return fail(WebParseFailure::IdRequired, id, session, "input_result"),
        Some(i) => i.clone(),
    };
    if i.as_str().is_empty() {
        return fail(WebParseFailure::IdRequired, id, session, "input_result");
    }
    let s = owned_str(get_member_str(d, "session"));
    let data = owned_str(get_member_str(d, "data_base64"));
    if validate_identifier(s.as_str(), IdentifierField::SessionHandle).is_err() {
        return fail(WebParseFailure::InvalidSession, id, session, "input_result");
    }
    if data.as_str().is_empty() {
        return fail(WebParseFailure::DataRequired, id, session, "input_result");
    }
    Ok(Some(WebEventsClientCommand::TerminalInput { id: i, session: s, data_base64: data }))
}

fn resize_command(d: &Json, id: Option<String>, session: Option<String>) -> (r: Result<
    Option<WebEventsClientCommand>,
    WebEventsParseError,
>)
    ensures
        parse_view(r) == resize_command_of(d@, opt_string_view(id), opt_string_view(session)),
        r matches Err(e) ==> e.failure != WebParseFailure::InvalidJson && e.message@ == failure_text(
            e.failure,
        ),
{
    let i = match &id {
        None => return fail(WebParseFailure::IdRequired, id, session, "resize_result"),
        Some(i) => i.clone(),
    };
    if i.as_str().is_empty() {
        return fail(WebParseFailure::IdRequired, id, session, "resize_result");
    }
    let s = owned_str(get_member_str(d, "session"));
    if validate_identifier(s.as_str(), IdentifierField::SessionHandle).is_err() {
        return fail(WebParseFailure::InvalidSession, id, session, "resize_result");
    }
    let cols = match get_member_u64(d, "cols") {
        Some(c) => c,
        None => return fail(WebParseFailure::ColsRequired, id, session, "resize_result"),
    };
    let rows = match get_member_u64(d, "rows") {
        Some(r) => r,
        None => return fail(WebParseFailure::RowsRequired, id, session, "resize_result"),
    };
    if cols > 65535 {
        return fail(WebParseFailure::ColsOutOfRange, id, session, "resize_result");
    }
    if rows > 65535 {
        return fail(WebParseFailure::RowsOutOfRange, id, session, "resize_result");
    }
    Ok(
        Some(
            WebEventsClientCommand::TerminalResize {
                id: i,
                session: s,
                cols: cols as u16,
                rows: rows as u16,
            },
        ),
    )
}

/// Parses one client message (see `client_command_of`). Every failure's
/// message is `failure_text` of it; for invalid JSON serde_json's words
/// follow.
pub fn parse_web_events_client_command(text: &str) -> (r: Result<
    Option<WebEventsClientCommand>,
    WebEventsParseError,
>)
    ensures
        parse_view(r) == client_command_of(text@),
        r matches Err(e) ==> (e.failure != WebParseFailure::InvalidJson ==> e.message@
            == failure_text(e.failure)),
        r matches Err(e) ==> (e.failure == WebParseFailure::InvalidJson
            ==> crate::text::starts_with(e.message@, failure_text(e.failure))),
{
    if text.as_bytes().len() > WEB_EVENTS_MAX_MESSAGE_BYTES {
        return fail(WebParseFailure::TooLarge, None, None, "input_result");
    }
    let d = match parse_json(text.as_bytes()) {
        Ok(d) => d,
        Err(m) => {
            let message = crate::text::concat("invalid JSON: ", m.as_str());
            proof {
                assert(message@.take("invalid JSON: "@.len() as int) =~= "invalid JSON: "@);
            }
            return Err(
                WebEventsParseError {
                    failure: WebParseFailure::InvalidJson,
                    message,
                    id: None,
                    session: None,
                    result_type: "input_result",
                },
            );
        },
    };
    web_events_command_from_document(&d)
}

/// The command of a client message that has been parsed as JSON (see
/// `command_of_document`); every failure carries its own fixed text.
pub fn web_events_command_from_document(d: &Json) -> (r: Result<
    Option<WebEventsClientCommand>,
    WebEventsParseError,
>)
    ensures
        parse_view(r) == command_of_document(d@),
        r matches Err(e) ==> e.failure != WebParseFailure::InvalidJson && e.message@ == failure_text(
            e.failure,
        ),
{
    match d {
        Json::Object(_) => {},
        _ => return fail(WebParseFailure::NotObject, None, None, "input_result"),
    }
    let id = match request_id(d) {
        Ok(id) => id,
        Err(f) => return fail(f, None, None, "input_result"),
    };
    let ty = owned_str(get_member_str(d, "type"));
    let session = match get_member_str(d, "session") {
        Some(s) => if !s.is_empty() {
            Some(s.to_string())
        } else {
            None
        },
        None => None,
    };
    if str_eq(ty.as_str(), "terminal_input") {
        input_command(d, id, session)
    } else if str_eq(ty.as_str(), "terminal_resize") {
        resize_command(d, id, session)
    } else {
        Ok(None)
    }
}

/// The result type that answers a command.
pub fn web_events_result_type(command: &WebEventsClientCommand) -> (r: &'static str)
    ensures
        r@ == (match command {
            WebEventsClientCommand::TerminalInput { .. } => "input_result"@,
            WebEventsClientCommand::TerminalResize { .. } => "resize_result"@,
        }),
{
    match command {
        WebEventsClientCommand::TerminalInput { .. } => "input_result",
        WebEventsClientCommand::TerminalResize { .. } => "resize_result",
    }
}

pub open spec fn command_id(c: WebEventsClientCommand) -> Seq<char> {
    match c {
        WebEventsClientCommand::TerminalInput { id, .. } => id@,
        WebEventsClientCommand::TerminalResize { id, .. } => id@,
    }
}

pub open spec fn command_session(c: WebEventsClientCommand) -> Seq<char> {
    match c {
        WebEventsClientCommand::TerminalInput { session, .. } => session@,
        WebEventsClientCommand::TerminalResize { session, .. } => session@,
    }
}

pub fn web_events_command_id(command: &WebEventsClientCommand) -> (r: &str)
    ensures
        r@ == command_id(*command),
{
    match command {
        WebEventsClientCommand::TerminalInput { id, .. } => id.as_str(),
        WebEventsClientCommand::TerminalResize { id, .. } => id.as_str(),
    }
}

pub fn web_events_command_session(command: &WebEventsClientCommand) -> (r: &str)
    ensures
        r@ == command_session(*command),
{
    match command {
        WebEventsClientCommand::TerminalInput { session, .. } => session.as_str(),
        WebEventsClientCommand::TerminalResize { session, .. } => session.as_str(),
    }
}

// ---------------------------------------------------------------------------
// Request ids of one connection
// ---------------------------------------------------------------------------

/// Whether a command's request id may be applied.
#[derive(Clone, Copy, Debug, PartialEq, Eq, Structural)]
pub enum IdAdmission {
    /// Not seen on this connection: recorded, and the command is applied.
    Fresh,
    /// Seen before: rejected, never applied again.
    Duplicate,
    /// The window is full: rejected, and the connection must be rotated.
    WindowFull,
}

/// The request ids seen on one events connection, in order. Ids are never
/// evicted: a full window rejects new commands instead.
#[derive(Debug)]
pub struct RequestIdWindow {
    ids: Vec<String>,
}

/// Admitting `id` to a window: what is decided, and the window after.
pub open spec fn admission(w: Seq<Seq<char>>, id: Seq<char>) -> (IdAdmission, Seq<Seq<char>>) {
    if w.contains(id) {
        (IdAdmission::Duplicate, w)
    } else if w.len() >= WEB_EVENTS_MAX_TRACKED_REQUEST_IDS {
        (IdAdmission::WindowFull, w)
    } else {
        (IdAdmission::Fresh, w.push(id))
    }
}

impl RequestIdWindow {
    pub closed spec fn view(&self) -> Seq<Seq<char>> {
        self.ids@.map_values(|s: String| s@)
    }

    /// No id twice and at most `WEB_EVENTS_MAX_TRACKED_REQUEST_IDS` of them.
    pub open spec fn wf(&self) -> bool {
        self.view().no_duplicates() && self.view().len() <= WEB_EVENTS_MAX_TRACKED_REQUEST_IDS
    }

    pub fn new() -> (r: Self)
        ensures
            r.view() == Seq::<Seq<char>>::empty(),
            r.wf(),
    {
        let r = RequestIdWindow { ids: Vec::new() };
        assert(r.view() =~= Seq::<Seq<char>>::empty());
        r
    }

    pub fn len(&self) -> (n: usize)
        ensures
            n == self.view().len(),
    {
        self.ids.len()
    }

    fn contains(&self, id: &str) -> (r: bool)
        ensures
            r == self.view().contains(id@),
    {
        let mut i: usize = 0;
        while i < self.ids.len()
            invariant
                i <= self.ids.len(),
                forall|k: int| 0 <= k < i ==> (#[trigger] self.ids@[k])@ != id@,
            decreases self.ids.len() - i,
        {
            if str_eq(self.ids[i].as_str(), id) {
                assert(self.view()[i as int] == id@);
                return true;
            }
            i = i + 1;
        }
        assert forall|k: int| 0 <= k < self.view().len() implies self.view()[k] != id@ by {
            assert(self.view()[k] == self.ids@[k]@);
        }
        false
    }

    /// Decides on `id` and records it when fresh (see `admission`).
    pub fn check_in(&mut self, id: &str) -> (r: IdAdmission)
        requires
            old(self).wf(),
        ensures
            (r, final(self).view()) == admission(old(self).view(), id@),
            final(self).wf(),
    {
        if self.contains(id) {
            return IdAdmission::Duplicate;
        }
        if self.ids.len() >= WEB_EVENTS_MAX_TRACKED_REQUEST_IDS {
            return IdAdmission::WindowFull;
        }
        let ghost before = self.view();
        self.ids.push(id.to_string());
        assert(self.view() =~= before.push(id@));
        IdAdmission::Fresh
    }
}

/// A request id that was admitted is never admitted again on that
/// connection, and the window never grows past its bound.
pub proof fn lemma_request_ids_admitted_once(w: Seq<Seq<char>>, id: Seq<char>, later: Seq<Seq<char>>)
    requires
        w.len() <= WEB_EVENTS_MAX_TRACKED_REQUEST_IDS,
        admission(w, id).0 == IdAdmission::Fresh,
        forall|k: int| 0 <= k < admission(w, id).1.len() ==> later.contains(#[trigger] admission(w, id).1[k]),
    ensures
        admission(later, id).0 == IdAdmission::Duplicate,
        admission(w, id).1.len() <= WEB_EVENTS_MAX_TRACKED_REQUEST_IDS,
{
    let w2 = admission(w, id).1;
    assert(w2[w2.len() - 1] == id);
}

/// The one result that a command resolves to.
#[derive(Debug, PartialEq, Eq)]
pub struct WebEventsCommandOutcome {
    pub result_type: &'static str,
    pub id: Option<String>,
    pub session: Option<String>,
    pub ok: bool,
    pub error: Option<String>,
    pub reconnect: bool,
}

/// What to do with a parsed command.
#[derive(Debug)]
pub enum CommandPlan {
    /// Apply it; then `applied_command_outcome` gives the result.
    Apply,
    /// Do not apply it; this is the result.
    Reject(WebEventsCommandOutcome),
}

pub open spec fn outcome_is(
    o: WebEventsCommandOutcome,
    c: WebEventsClientCommand,
    ok: bool,
    error: Option<Seq<char>>,
    reconnect: bool,
) -> bool {
    &&& o.result_type@ == (match c {
        WebEventsClientCommand::TerminalInput { .. } => "input_result"@,
        WebEventsClientCommand::TerminalResize { .. } => "resize_result"@,
    })
    &&& opt_string_view(o.id) == Some(command_id(c))
    &&& opt_string_view(o.session) == Some(command_session(c))
    &&& o.ok == ok
    &&& opt_string_view(o.error) == error
    &&& o.reconnect == reconnect
}

fn outcome(command: &WebEventsClientCommand, ok: bool, error: Option<String>, reconnect: bool) -> (r:
    WebEventsCommandOutcome)
    ensures
        outcome_is(r, *command, ok, opt_string_view(error), reconnect),
{
    WebEventsCommandOutcome {
        result_type: web_events_result_type(command),
        id: Some(web_events_command_id(command).to_string()),
        session: Some(web_events_command_session(command).to_string()),
        ok,
        error,
        reconnect,
    }
}

/// Checks the command's request id against the connection's window: a
/// duplicate or a full window is answered without applying the command; a
/// fresh id is recorded and the command is to be applied.
pub fn plan_web_events_command_outcome(command: &WebEventsClientCommand, seen_ids: &mut RequestIdWindow) -> (r:
    CommandPlan)
    requires
        old(seen_ids).wf(),
    ensures
        final(seen_ids).wf(),
        final(seen_ids).view() == admission(old(seen_ids).view(), command_id(*command)).1,
        match admission(old(seen_ids).view(), command_id(*command)).0 {
            IdAdmission::Fresh => r is Apply,
            IdAdmission::Duplicate => r matches CommandPlan::Reject(o) && outcome_is(
                o,
                *command,
                false,
                Some("duplicate request id"@),
                false,
            ),
            IdAdmission::WindowFull => r matches CommandPlan::Reject(o) && outcome_is(
                o,
                *command,
                false,
                Some("request id window exhausted; reconnect required"@),
                true,
            ),
        },
{
    match seen_ids.check_in(web_events_command_id(command)) {
        IdAdmission::Fresh => CommandPlan::Apply,
        IdAdmission::Duplicate => CommandPlan::Reject(
            outcome(command, false, Some("duplicate request id".to_string()), false),
        ),
        IdAdmission::WindowFull => CommandPlan::Reject(
            outcome(
                command,
                false,
                Some("request id window exhausted; reconnect required".to_string()),
                true,
            ),
        ),
    }
}

/// The result of a command that was applied: ok, or the error of applying.
pub fn applied_command_outcome(command: &WebEventsClientCommand, applied: Result<(), String>) -> (r:
    WebEventsCommandOutcome)
    ensures
        match applied {
            Ok(()) => outcome_is(r, *command, true, None, false),
            Err(e) => outcome_is(r, *command, false, Some(e@), false),
        },
{
    match applied {
        Ok(()) => outcome(command, true, None, false),
        Err(e) => outcome(command, false, Some(e), false),
    }
}

/// The JSON object of a command result: `type` and `ok`, then `id`,
/// `session` and `error` when given, and `reconnect` only when set.
pub open spec fn result_object(
    result_type: Seq<char>,
    id: Option<Seq<char>>,
    session: Option<Seq<char>>,
    ok: bool,
    error: Option<Seq<char>>,
    reconnect: bool,
) -> JsonView {
    let base = seq![("type"@, JsonView::Str(result_type)), ("ok"@, JsonView::Bool(ok))];
    let a = match id {
        Some(i) => base.push(("id"@, JsonView::Str(i))),
        None => base,
    };
    let b = match session {
        Some(s) => a.push(("session"@, JsonView::Str(s))),
        None => a,
    };
    let c = match error {
        Some(e) => b.push(("error"@, JsonView::Str(e))),
        None => b,
    };
    JsonView::Object(
        if reconnect {
            c.push(("reconnect"@, JsonView::Bool(true)))
        } else {
            c
        },
    )
}

pub open spec fn str_opt_view(v: Option<&str>) -> Option<Seq<char>> {
    match v {
        Some(s) => Some(s@),
        None => None,
    }
}

fn push_member(ms: &mut Vec<Member>, key: &str, value: Json)
    ensures
        members_view(final(ms)@) == members_view(old(ms)@).push((key@, value@)),
{
    let m = member(key, value);
    assert(old(ms)@.push(m).drop_last() =~= old(ms)@);
    ms.push(m);
}

/// The text of a command result: the compact JSON of `result_object`. Its
/// `type` is never `sessions`, so it cannot be taken for a push frame.
pub fn build_web_events_command_result(
    result_type: &str,
    id: Option<&str>,
    session: Option<&str>,
    ok: bool,
    error: Option<&str>,
    reconnect: bool,
) -> (r: String)
    ensures
        r@ == json_compact(
            result_object(
                result_type@,
                str_opt_view(id),
                str_opt_view(session),
                ok,
                str_opt_view(error),
                reconnect,
            ),
        ),
{
    let mut ms: Vec<Member> = Vec::new();
    assert(members_view(ms@) =~= Seq::<(Seq<char>, JsonView)>::empty());
    push_member(&mut ms, "type", string_value(result_type));
    push_member(&mut ms, "ok", Json::Bool(ok));
    let ghost base = seq![("type"@, JsonView::Str(result_type@)), ("ok"@, JsonView::Bool(ok))];
    assert(members_view(ms@) =~= base);
    if let Some(i) = id {
        push_member(&mut ms, "id", string_value(i));
    }
    let ghost a = match id {
        Some(i) => base.push(("id"@, JsonView::Str(i@))),
        None => base,
    };
    assert(members_view(ms@) == a);
    if let Some(x) = session {
        push_member(&mut ms, "session", string_value(x));
    }
    let ghost b = match session {
        Some(x) => a.push(("session"@, JsonView::Str(x@))),
        None => a,
    };
    assert(members_view(ms@) == b);
    if let Some(e) = error {
        push_member(&mut ms, "error", string_value(e));
    }
    let ghost c = match error {
        Some(e) => b.push(("error"@, JsonView::Str(e@))),
        None => b,
    };
    assert(members_view(ms@) == c);
    if reconnect {
        push_member(&mut ms, "reconnect", Json::Bool(true));
    }
    let doc = Json::Object(ms);
    print_json(&doc)
}

// ---------------------------------------------------------------------------
// Paths, origins and handshakes
// ---------------------------------------------------------------------------

pub open spec fn hex_val(b: u8) -> Option<u8> {
    if 0x30 <= b <= 0x39 {
        Some((b - 0x30) as u8)
    } else if 0x61 <= b <= 0x66 {
        Some((b - 0x61 + 10) as u8)
    } else if 0x41 <= b <= 0x46 {
        Some((b - 0x41 + 10) as u8)
    } else {
        None
    }
}

/// The value of an ASCII hex digit.
pub fn hex_value(byte: u8) -> (r: Option<u8>)
    ensures
        r == hex_val(byte),
{
    if 0x30 <= byte && byte <= 0x39 {
        Some(byte - 0x30)
    } else if 0x61 <= byte && byte <= 0x66 {
        Some(byte - 0x61 + 10)
    } else if 0x41 <= byte && byte <= 0x46 {
        Some(byte - 0x41 + 10)
    } else {
        None
    }
}

/// Why a path segment does not decode.
#[derive(Clone, Copy, Debug, PartialEq, Eq, Structural)]
pub enum DecodeError {
    IncompleteEscape,
    InvalidEscape,
    NotUtf8,
}

impl DecodeError {
    pub fn message(&self) -> (r: &'static str)
        ensures
            r@ == (match *self {
                DecodeError::IncompleteEscape => "owner contains an incomplete percent escape"@,
                DecodeError::InvalidEscape => "owner contains an invalid percent escape"@,
                DecodeError::NotUtf8 => "owner is not valid UTF-8"@,
            }),
    {
        match self {
            DecodeError::IncompleteEscape => "owner contains an incomplete percent escape",
            DecodeError::InvalidEscape => "owner contains an invalid percent escape",
            DecodeError::NotUtf8 => "owner is not valid UTF-8",
        }
    }
}

/// Percent-decoding of URL path bytes: `%` and two hex digits stand for one
/// byte; `+` and every other byte stand for themselves.
pub open spec fn percent_decoded(b: Seq<u8>) -> Result<Seq<u8>, DecodeError>
    decreases b.len(),
{
    if b.len() == 0 {
        Ok(Seq::empty())
    } else if b[0] == 0x25 {
        if b.len() <= 2 {
            Err(DecodeError::IncompleteEscape)
        } else {
            match (hex_val(b[1]), hex_val(b[2])) {
                (Some(h), Some(l)) => match percent_decoded(b.skip(3)) {
                    Ok(rest) => Ok(seq![(h * 16 + l) as u8] + rest),
                    Err(e) => Err(e),
                },
                _ => Err(DecodeError::InvalidEscape),
            }
        }
    } else {
        match percent_decoded(b.skip(1)) {
            Ok(rest) => Ok(seq![b[0]] + rest),
            Err(e) => Err(e),
        }
    }
}

/// The text of a percent-encoded path segment.
pub open spec fn decoded_segment(value: Seq<char>) -> Result<Seq<char>, DecodeError> {
    match percent_decoded(vstd::utf8::encode_utf8(value)) {
        Ok(b) => if vstd::utf8::valid_utf8(b) {
            Ok(vstd::utf8::decode_utf8(b))
        } else {
            Err(DecodeError::NotUtf8)
        },
        Err(e) => Err(e),
    }
}

proof fn lemma_decoded_skip(b: Seq<u8>, i: int, k: int, out: Seq<u8>)
    requires
        0 <= i,
        i + k <= b.len(),
        k == 1 || k == 3,
        k == 3 ==> b[i] == 0x25 && hex_val(b[i + 1]) is Some && hex_val(b[i + 2]) is Some,
        k == 1 ==> b[i] != 0x25,
        out == (if k == 3 {
            seq![(hex_val(b[i + 1])->0 * 16 + hex_val(b[i + 2])->0) as u8]
        } else {
            seq![b[i]]
        }),
    ensures
        percent_decoded(b.skip(i)) == match percent_decoded(b.skip(i + k)) {
            Ok(rest) => Ok::<Seq<u8>, DecodeError>(out + rest),
            Err(e) => Err(e),
        },
{
    let s = b.skip(i);
    assert(s.skip(k) =~= b.skip(i + k));
    assert(s.len() >= k);
    assert(s[0] == b[i]);
    if k == 3 {
        assert(s[1] == b[i + 1] && s[2] == b[i + 2]);
        let h = hex_val(b[i + 1])->0;
        let l = hex_val(b[i + 2])->0;
        assert(hex_val(s[1]) == Some(h) && hex_val(s[2]) == Some(l));
        assert(out == seq![(h * 16 + l) as u8]);
    } else {
        assert(s[0] != 0x25);
        assert(out == seq![s[0]]);
    }
}

/// Decodes a percent-encoded path segment into text.
pub fn percent_decode_path_segment(value: &str) -> (r: Result<String, DecodeError>)
    ensures
        match r {
            Ok(s) => decoded_segment(value@) == Ok::<Seq<char>, DecodeError>(s@),
            Err(e) => decoded_segment(value@) == Err::<Seq<char>, DecodeError>(e),
        },
{
    let bytes = value.as_bytes();
    let ghost b = bytes@;
    let mut decoded: Vec<u8> = Vec::new();
    let mut index: usize = 0;
    assert(b.skip(0) =~= b);
    while index < bytes.len()
        invariant
            b == bytes@,
            b == vstd::utf8::encode_utf8(value@),
            index <= bytes.len(),
            percent_decoded(b) == match percent_decoded(b.skip(index as int)) {
                Ok(rest) => Ok::<Seq<u8>, DecodeError>(decoded@ + rest),
                Err(e) => Err(e),
            },
        decreases bytes.len() - index,
    {
        if bytes[index] == 0x25 {
            if bytes.len() - index <= 2 {
                assert(b.skip(index as int).len() <= 2);
                assert(b.skip(index as int)[0] == b[index as int]);
                return Err(DecodeError::IncompleteEscape);
            }
            let high = match hex_value(bytes[index + 1]) {
                Some(h) => h,
                None => {
                    assert(b.skip(index as int)[0] == b[index as int]);
                    assert(b.skip(index as int)[1] == b[index + 1]);
                    return Err(DecodeError::InvalidEscape);
                },
            };
            let low = match hex_value(bytes[index + 2]) {
                Some(l) => l,
                None => {
                    assert(b.skip(index as int)[0] == b[index as int]);
                    assert(b.skip(index as int)[1] == b[index + 1]);
                    assert(b.skip(index as int)[2] == b[index + 2]);
                    return Err(DecodeError::InvalidEscape);
                },
            };
            let byte: u8 = high * 16 + low;
            proof {
                lemma_decoded_skip(b, index as int, 3, seq![byte]);
                assert((decoded@.push(byte)) =~= decoded@ + seq![byte]);
                assert forall|rest: Seq<u8>| (decoded@ + seq![byte]) + rest =~= decoded@.push(byte) + rest by {}
                assert forall|rest: Seq<u8>| decoded@ + (seq![byte] + rest) =~= decoded@.push(byte) + rest by {}
            }
            decoded.push(byte);
            index = index + 3;
        } else {
            let byte = bytes[index];
            proof {
                lemma_decoded_skip(b, index as int, 1, seq![byte]);
                assert forall|rest: Seq<u8>| decoded@ + (seq![byte] + rest) =~= decoded@.push(byte) + rest by {}
            }
            decoded.push(byte);
            index = index + 1;
        }
    }
    proof {
        assert(b.skip(index as int) =~= Seq::<u8>::empty());
        assert(decoded@ + Seq::<u8>::empty() =~= decoded@);
    }
    let ghost d = decoded@;
    match crate::text::utf8_text(decoded) {
        Some(s) => {
            proof {
                vstd::utf8::encode_utf8_decode_utf8(s@);
            }
            Ok(s)
        },
        None => Err(DecodeError::NotUtf8),
    }
}

/// The owner segment of `<prefix><segment>/close`, when it holds no `/` and
/// no `?`.
pub open spec fn close_segment(path: Seq<char>, prefix: Seq<char>) -> Option<Seq<char>> {
    let rest = path.skip(prefix.len() as int);
    if starts_with(path, prefix) && crate::text::ends_with(rest, "/close"@) {
        let seg = rest.take(rest.len() - 6);
        if crate::text::has_char(seg, '/') || crate::text::has_char(seg, '?') {
            None
        } else {
            Some(seg)
        }
    } else {
        None
    }
}

pub fn close_path_segment(path: &str, prefix: &str) -> (r: Option<String>)
    ensures
        match r {
            Some(s) => close_segment(path@, prefix@) == Some(s@),
            None => close_segment(path@, prefix@) is None,
        },
{
    proof {
        reveal_strlit("/close");
    }
    let p = chars_of(path);
    let q = chars_of(prefix);
    if !crate::text::chars_starts_with(&p, &q) {
        return None;
    }
    let rest = sub_chars(&p, q.len(), p.len());
    assert(rest@ =~= path@.skip(prefix@.len() as int));
    if !crate::text::chars_end_with_str(&rest, "/close") {
        return None;
    }
    let seg = sub_chars(&rest, 0, rest.len() - 6);
    assert(seg@ =~= rest@.take(rest@.len() - 6));
    let s = string_from_chars(&seg);
    if crate::text::str_has_char(s.as_str(), '/') || crate::text::str_has_char(s.as_str(), '?') {
        return None;
    }
    Some(s)
}

/// The authority of an `http://` origin without path, query or fragment.
pub open spec fn origin_authority(origin: Seq<char>) -> Option<Seq<char>> {
    let rest = origin.skip(7);
    if !starts_with(origin, "http://"@) || rest.len() == 0 || crate::text::has_char(rest, '/')
        || crate::text::has_char(rest, '?') || crate::text::has_char(rest, '#') {
        None
    } else {
        Some(rest)
    }
}

pub fn http_origin_authority(origin: &str) -> (r: Option<String>)
    ensures
        match r {
            Some(a) => origin_authority(origin@) == Some(a@),
            None => origin_authority(origin@) is None,
        },
{
    proof {
        reveal_strlit("http://");
    }
    let v = chars_of(origin);
    if !crate::text::chars_start_with_str(&v, "http://") {
        return None;
    }
    let rest = sub_chars(&v, 7, v.len());
    assert(rest@ =~= origin@.skip(7));
    let s = string_from_chars(&rest);
    if rest.len() == 0 || crate::text::str_has_char(s.as_str(), '/') || crate::text::str_has_char(
        s.as_str(),
        '?',
    ) || crate::text::str_has_char(s.as_str(), '#') {
        return None;
    }
    Some(s)
}

/// The index of the last `c` in `s`, or -1.
pub open spec fn last_index(s: Seq<char>, c: char) -> int
    decreases s.len(),
{
    if s.len() == 0 {
        -1
    } else if s.last() == c {
        s.len() - 1
    } else {
        last_index(s.drop_last(), c)
    }
}

proof fn lemma_last_index(s: Seq<char>, c: char)
    ensures
        -1 <= last_index(s, c) < s.len(),
        last_index(s, c) >= 0 ==> s[last_index(s, c)] == c,
        forall|j: int| last_index(s, c) < j < s.len() ==> s[j] != c,
    decreases s.len(),
{
    if s.len() > 0 && s.last() != c {
        lemma_last_index(s.drop_last(), c);
        assert forall|j: int| last_index(s, c) < j < s.len() implies s[j] != c by {
            if j < s.len() - 1 {
                assert(s.drop_last()[j] == s[j]);
            }
        }
    }
}

/// The host of an authority: a bracketed IPv6 literal, or what comes before
/// the last `:` when a non-empty host comes before it and only digits after.
pub open spec fn authority_host_of(a: Seq<char>) -> Seq<char> {
    if a.len() > 0 && a[0] == '[' {
        let e = find_char(a, ']');
        if e < a.len() {
            a.take(e + 1 as int)
        } else {
            a
        }
    } else {
        let c = last_index(a, ':');
        if c > 0 && all_digits(a.skip(c + 1)) {
            a.take(c)
        } else {
            a
        }
    }
}

pub fn authority_host(authority: &str) -> (r: String)
    ensures
        r@ == authority_host_of(authority@),
{
    let v = chars_of(authority);
    if v.len() > 0 && v[0] == '[' {
        let e = find_char_from(&v, 0, ']');
        assert(v@.skip(0) =~= v@);
        if e < v.len() {
            let h = sub_chars(&v, 0, e + 1);
            assert(h@ =~= v@.take(e + 1));
            return string_from_chars(&h);
        }
        return authority.to_string();
    }
    let mut i: usize = v.len();
    assert(v@.take(i as int) =~= v@);
    while i > 0 && v[i - 1] != ':'
        invariant
            i <= v.len(),
            last_index(v@, ':') == last_index(v@.take(i as int), ':'),
        decreases i,
    {
        assert(v@.take(i as int).drop_last() =~= v@.take(i - 1));
        i = i - 1;
    }
    assert(v@.take(v.len() as int) =~= v@);
    if i == 0 {
        assert(v@.take(0) =~= Seq::<char>::empty());
        return authority.to_string();
    }
    let c = i - 1;
    assert(last_index(v@.take(i as int), ':') == c);
    let mut k: usize = i;
    let mut digits = true;
    while k < v.len()
        invariant
            i <= k <= v.len(),
            digits == (forall|m: int| i <= m < k ==> is_digit_char(#[trigger] v@[m])),
        decreases v.len() - k,
    {
        digits = digits && '0' <= v[k] && v[k] <= '9';
        k = k + 1;
    }
    assert(digits == all_digits(v@.skip(i as int))) by {
        if digits {
            assert forall|m: int| 0 <= m < v@.skip(i as int).len() implies is_digit_char(
                #[trigger] v@.skip(i as int)[m],
            ) by {
                assert(v@.skip(i as int)[m] == v@[i + m]);
            }
        } else {
            let m = choose|m: int| i <= m < v.len() && !is_digit_char(#[trigger] v@[m]);
            assert(v@.skip(i as int)[m - i] == v@[m]);
        }
    }
    if c > 0 && digits {
        let h = sub_chars(&v, 0, c);
        assert(h@ =~= v@.take(c as int));
        string_from_chars(&h)
    } else {
        authority.to_string()
    }
}

pub open spec fn loopback_host(h: Seq<char>) -> bool {
    h == "127.0.0.1"@ || h == "localhost"@ || h == "::1"@ || h == "[::1]"@
}

pub open spec fn authority_loopback(a: Seq<char>) -> bool {
    loopback_host(authority_host_of(a))
}

pub fn authority_is_loopback(authority: &str) -> (r: bool)
    ensures
        r == authority_loopback(authority@),
{
    let h = authority_host(authority);
    let v = chars_of(h.as_str());
    chars_eq_str(&v, "127.0.0.1") || chars_eq_str(&v, "localhost") || chars_eq_str(&v, "::1")
        || chars_eq_str(&v, "[::1]")
}

/// Equality ignoring ASCII case.
pub fn authority_eq(left: &str, right: &str) -> (r: bool)
    ensures
        r == (ascii_lowercase(left@) == ascii_lowercase(right@)),
{
    let l = chars_of(left);
    let r = chars_of(right);
    let a = chars_to_ascii_lower(&l);
    let b = chars_to_ascii_lower(&r);
    crate::text::chars_eq(&a, &b)
}

pub open spec fn trimmed_present(v: Option<Seq<char>>) -> Option<Seq<char>> {
    match v {
        Some(s) => if trim(s).len() > 0 {
            Some(trim(s))
        } else {
            None
        },
        None => None,
    }
}

/// A same-origin browser request on a loopback host: the `Origin` is an
/// `http://` origin whose authority and the `Host` are both loopback and
/// equal ignoring ASCII case.
pub open spec fn origin_allowed(origin: Option<Seq<char>>, host: Option<Seq<char>>) -> bool {
    match (trimmed_present(origin), trimmed_present(host)) {
        (Some(o), Some(h)) => match origin_authority(o) {
            Some(a) => authority_loopback(a) && authority_loopback(h) && ascii_lowercase(a)
                == ascii_lowercase(h),
            None => false,
        },
        _ => false,
    }
}

fn trimmed(v: Option<&str>) -> (r: Option<String>)
    ensures
        opt_string_view(r) == trimmed_present(str_opt_view(v)),
{
    match v {
        Some(s) => {
            let c = chars_of(s);
            let t = trim_chars(&c);
            if t.len() > 0 {
                Some(string_from_chars(&t))
            } else {
                None
            }
        },
        None => None,
    }
}

pub fn web_origin_allowed(origin: Option<&str>, host: Option<&str>) -> (r: bool)
    ensures
        r == origin_allowed(str_opt_view(origin), str_opt_view(host)),
{
    let o = match trimmed(origin) {
        Some(o) => o,
        None => return false,
    };
    let h = match trimmed(host) {
        Some(h) => h,
        None => return false,
    };
    let a = match http_origin_authority(o.as_str()) {
        Some(a) => a,
        None => return false,
    };
    if !authority_is_loopback(a.as_str()) || !authority_is_loopback(h.as_str()) {
        return false;
    }
    authority_eq(a.as_str(), h.as_str())
}

/// RFC 6455: the key is base64 that decodes to 16 bytes.
pub open spec fn websocket_key_valid(key: Seq<char>) -> bool {
    trim(key).len() > 0 && match base64_decoding(trim(key)) {
        Some(b) => b.len() == 16,
        None => false,
    }
}

pub fn sec_websocket_key_valid(key: &str) -> (r: bool)
    ensures
        r == websocket_key_valid(key@),
{
    let c = chars_of(key);
    let t = trim_chars(&c);
    if t.len() == 0 {
        return false;
    }
    let k = string_from_chars(&t);
    match base64_decode(k.as_str()) {
        Some(bytes) => bytes.len() == 16,
        None => false,
    }
}

/// The parts of an HTTP request that the WebUI server reads.
#[derive(Clone, Debug)]
pub struct ParsedHttpRequest {
    pub method: String,
    pub path: String,
    pub bridge_header: bool,
    pub host: Option<String>,
    pub origin: Option<String>,
    pub upgrade_websocket: bool,
    pub connection_upgrade: bool,
    pub sec_websocket_key: Option<String>,
    pub sec_websocket_version: Option<String>,
}

/// Why an events WebSocket upgrade is refused.
#[derive(Clone, Copy, Debug, PartialEq, Eq, Structural)]
pub enum HandshakeError {
    NotGet,
    WrongPath,
    MissingUpgrade,
    UnsupportedVersion,
    MissingKey,
    InvalidKey,
    OriginNotAllowed,
}

impl HandshakeError {
    pub fn message(&self) -> (r: &'static str)
        ensures
            r@ == (match *self {
                HandshakeError::NotGet => "WebSocket upgrade requires GET"@,
                HandshakeError::WrongPath => "WebSocket path must be /api/events"@,
                HandshakeError::MissingUpgrade => "missing WebSocket upgrade headers"@,
                HandshakeError::UnsupportedVersion => "unsupported Sec-WebSocket-Version"@,
                HandshakeError::MissingKey => "missing Sec-WebSocket-Key"@,
                HandshakeError::InvalidKey => "invalid Sec-WebSocket-Key"@,
                HandshakeError::OriginNotAllowed => "origin not allowed"@,
            }),
    {
        match self {
            HandshakeError::NotGet => "WebSocket upgrade requires GET",
            HandshakeError::WrongPath => "WebSocket path must be /api/events",
            HandshakeError::MissingUpgrade => "missing WebSocket upgrade headers",
            HandshakeError::UnsupportedVersion => "unsupported Sec-WebSocket-Version",
            HandshakeError::MissingKey => "missing Sec-WebSocket-Key",
            HandshakeError::InvalidKey => "invalid Sec-WebSocket-Key",
            HandshakeError::OriginNotAllowed => "origin not allowed",
        }
    }
}

/// The first check that an events upgrade request fails, in this order.
pub open spec fn handshake_error(r: ParsedHttpRequest) -> Option<HandshakeError> {
    if r.method@ != "GET"@ {
        Some(HandshakeError::NotGet)
    } else if r.path@ != "/api/events"@ {
        Some(HandshakeError::WrongPath)
    } else if !r.upgrade_websocket || !r.connection_upgrade {
        Some(HandshakeError::MissingUpgrade)
    } else if opt_string_view(r.sec_websocket_version) != Some("13"@) {
        Some(HandshakeError::UnsupportedVersion)
    } else {
        match r.sec_websocket_key {
            None => Some(HandshakeError::MissingKey),
            Some(k) => if !websocket_key_valid(k@) {
                Some(HandshakeError::InvalidKey)
            } else if !origin_allowed(opt_string_view(r.origin), opt_string_view(r.host)) {
                Some(HandshakeError::OriginNotAllowed)
            } else {
                None
            },
        }
    }
}

fn as_opt_str(v: &Option<String>) -> (r: Option<&str>)
    ensures
        str_opt_view(r) == opt_string_view(*v),
{
    match v {
        Some(s) => Some(s.as_str()),
        None => None,
    }
}

pub fn validate_events_websocket_request(request: &ParsedHttpRequest) -> (r: Result<(), HandshakeError>)
    ensures
        match r {
            Ok(()) => handshake_error(*request) is None,
            Err(e) => handshake_error(*request) == Some(e),
        },
{
    if !str_eq(request.method.as_str(), "GET") {
        return Err(HandshakeError::NotGet);
    }
    if !str_eq(request.path.as_str(), "/api/events") {
        return Err(HandshakeError::WrongPath);
    }
    if !request.upgrade_websocket || !request.connection_upgrade {
        return Err(HandshakeError::MissingUpgrade);
    }
    let version_ok = match &request.sec_websocket_version {
        Some(v) => str_eq(v.as_str(), "13"),
        None => false,
    };
    if !version_ok {
        return Err(HandshakeError::UnsupportedVersion);
    }
    let key = match &request.sec_websocket_key {
        Some(k) => k,
        None => return Err(HandshakeError::MissingKey),
    };
    if !sec_websocket_key_valid(key.as_str()) {
        return Err(HandshakeError::InvalidKey);
    }
    if !web_origin_allowed(as_opt_str(&request.origin), as_opt_str(&request.host)) {
        return Err(HandshakeError::OriginNotAllowed);
    }
    Ok(())
}

// ---------------------------------------------------------------------------
// HTTP request heads
// ---------------------------------------------------------------------------

/// How many WebUI connections are served at once.
pub const WEB_MAX_ACTIVE_CONNECTIONS: usize = 64;

/// How many runtime IPC connections are served at once.
pub const IPC_MAX_ACTIVE_CONNECTIONS: usize = 64;

/// Whether one more connection may be served while `active` are: a
/// connection past the cap is answered busy and closed.
pub fn connection_admitted(active: usize, limit: usize) -> (r: bool)
    ensures
        r == (active < limit),
{
    active < limit
}

pub const WEB_HTTP_MAX_REQUEST_LINE_BYTES: usize = 8192;
pub const WEB_HTTP_MAX_HEADER_LINE_BYTES: usize = 8192;
pub const WEB_HTTP_MAX_HEADER_COUNT: usize = 64;
pub const WEB_HTTP_MAX_HEADER_BYTES: usize = 32768;

/// Why an HTTP request head is refused.
#[derive(Clone, Copy, Debug, PartialEq, Eq, Structural)]
pub enum HttpHeadError {
    RequestLineNotUtf8,
    MissingMethod,
    MissingPath,
    TooManyHeaders,
    HeadersTooLarge,
    HeaderNotUtf8,
}

impl HttpHeadError {
    pub fn message(&self) -> (r: &'static str)
        ensures
            r@ == (match *self {
                HttpHeadError::RequestLineNotUtf8 => "request line is not valid UTF-8"@,
                HttpHeadError::MissingMethod => "missing HTTP method"@,
                HttpHeadError::MissingPath => "missing HTTP path"@,
                HttpHeadError::TooManyHeaders => "too many HTTP headers; the limit is 64"@,
                HttpHeadError::HeadersTooLarge => "HTTP headers exceed the total size limit of 32768 bytes"@,
                HttpHeadError::HeaderNotUtf8 => "header is not valid UTF-8"@,
            }),
    {
        match self {
            HttpHeadError::RequestLineNotUtf8 => "request line is not valid UTF-8",
            HttpHeadError::MissingMethod => "missing HTTP method",
            HttpHeadError::MissingPath => "missing HTTP path",
            HttpHeadError::TooManyHeaders => "too many HTTP headers; the limit is 64",
            HttpHeadError::HeadersTooLarge => "HTTP headers exceed the total size limit of 32768 bytes",
            HttpHeadError::HeaderNotUtf8 => "header is not valid UTF-8",
        }
    }
}

/// The number of characters before the first white space.
pub open spec fn token_len(s: Seq<char>) -> nat
    decreases s.len(),
{
    if s.len() == 0 || crate::text::is_whitespace(s[0]) {
        0
    } else {
        1 + token_len(s.drop_first())
    }
}

/// `split_whitespace().next()`: the first word and what follows it.
pub open spec fn next_word(s: Seq<char>) -> (Seq<char>, Seq<char>) {
    let t = crate::text::trim_start(s);
    (t.take(token_len(t) as int), t.skip(token_len(t) as int))
}

/// Method and path of a request line.
pub open spec fn request_line_of(line: Seq<char>) -> Result<(Seq<char>, Seq<char>), HttpHeadError> {
    let (method, rest) = next_word(line);
    let (path, _) = next_word(rest);
    if method.len() == 0 {
        Err(HttpHeadError::MissingMethod)
    } else if path.len() == 0 {
        Err(HttpHeadError::MissingPath)
    } else {
        Ok((method, path))
    }
}

fn next_word_of(v: &Vec<char>, start: usize) -> (r: (usize, usize))
    requires
        start <= v.len(),
    ensures
        start <= r.0 <= r.1 <= v.len(),
        next_word(v@.skip(start as int)) == (
            v@.subrange(r.0 as int, r.1 as int),
            v@.skip(r.1 as int),
        ),
{
    let mut i: usize = start;
    assert(v@.skip(start as int).skip(0) =~= v@.skip(start as int));
    while i < v.len() && crate::text::char_is_whitespace(v[i])
        invariant
            start <= i <= v.len(),
            crate::text::trim_start(v@.skip(start as int)) == crate::text::trim_start(v@.skip(i as int)),
        decreases v.len() - i,
    {
        assert(v@.skip(i as int).drop_first() =~= v@.skip(i + 1));
        i = i + 1;
    }
    let ghost t = v@.skip(i as int);
    assert(crate::text::trim_start(t) == t) by {
        if t.len() > 0 {
            assert(t[0] == v@[i as int]);
        }
    }
    let mut j: usize = i;
    while j < v.len() && !crate::text::char_is_whitespace(v[j])
        invariant
            i <= j <= v.len(),
            t == v@.skip(i as int),
            token_len(t) == (j - i) + token_len(v@.skip(j as int)),
        decreases v.len() - j,
    {
        assert(v@.skip(j as int).drop_first() =~= v@.skip(j + 1));
        j = j + 1;
    }
    assert(token_len(v@.skip(j as int)) == 0) by {
        if j < v.len() {
            assert(v@.skip(j as int)[0] == v@[j as int]);
        }
    }
    assert(t.take((j - i) as int) =~= v@.subrange(i as int, j as int));
    assert(t.skip((j - i) as int) =~= v@.skip(j as int));
    (i, j)
}

/// A header line split at its first `:`, both sides trimmed.
pub open spec fn header_parts(h: Seq<char>) -> Option<(Seq<char>, Seq<char>)> {
    let i = find_char(h, ':');
    if i < h.len() {
        Some((trim(h.take(i as int)), trim(h.skip(i + 1 as int))))
    } else {
        None
    }
}

/// Whether one of the comma-separated parts of a `Connection` value is
/// `upgrade`, ignoring ASCII case and white space.
pub open spec fn has_upgrade_token(v: Seq<char>) -> bool
    decreases v.len(),
{
    let i = find_char(v, ',');
    ascii_lowercase(trim(v.take(i as int))) == "upgrade"@ || (i < v.len() && has_upgrade_token(
        v.skip(i + 1 as int),
    ))
}

/// What one header does to the request.
pub open spec fn header_applied(r: ParsedHttpRequest, name: Seq<char>, value: Seq<char>, r2: ParsedHttpRequest) -> bool {
    let n = ascii_lowercase(name);
    let same = r2.method == r.method && r2.path == r.path;
    if n == "x-grok-bridge-webui"@ && value == "1"@ {
        same && r2 == ParsedHttpRequest { bridge_header: true, ..r }
    } else if n == "host"@ {
        same && opt_string_view(r2.host) == Some(value) && r2 == ParsedHttpRequest { host: r2.host, ..r }
    } else if n == "origin"@ {
        same && opt_string_view(r2.origin) == Some(value) && r2 == ParsedHttpRequest { origin: r2.origin, ..r }
    } else if n == "upgrade"@ && ascii_lowercase(value) == "websocket"@ {
        r2 == ParsedHttpRequest { upgrade_websocket: true, ..r }
    } else if n == "connection"@ {
        r2 == ParsedHttpRequest { connection_upgrade: has_upgrade_token(value), ..r }
    } else if n == "sec-websocket-key"@ {
        opt_string_view(r2.sec_websocket_key) == Some(value) && r2 == ParsedHttpRequest {
            sec_websocket_key: r2.sec_websocket_key,
            ..r
        }
    } else if n == "sec-websocket-version"@ {
        opt_string_view(r2.sec_websocket_version) == Some(value) && r2 == ParsedHttpRequest {
            sec_websocket_version: r2.sec_websocket_version,
            ..r
        }
    } else {
        r2 == r
    }
}

/// An HTTP request head read so far: the request, and how many header lines
/// and header bytes were taken.
#[derive(Debug)]
pub struct HttpHead {
    pub request: ParsedHttpRequest,
    pub header_count: usize,
    pub header_bytes: usize,
}

fn lower_str(s: &str) -> (r: Vec<char>)
    ensures
        r@ == ascii_lowercase(s@),
{
    let v = chars_of(s);
    chars_to_ascii_lower(&v)
}

fn connection_has_upgrade(value: &Vec<char>) -> (r: bool)
    ensures
        r == has_upgrade_token(value@),
{
    let mut start: usize = 0;
    let mut found = false;
    assert(value@.skip(0) =~= value@);
    loop
        invariant
            start <= value.len(),
            has_upgrade_token(value@) == (found || has_upgrade_token(value@.skip(start as int))),
        decreases value.len() - start,
    {
        let end = find_char_from(value, start, ',');
        let part = sub_chars(value, start, end);
        let t = trim_chars(&part);
        let l = chars_to_ascii_lower(&t);
        proof {
            assert(part@ =~= value@.skip(start as int).take((end - start) as int));
        }
        if chars_eq_str(&l, "upgrade") {
            found = true;
        }
        if end >= value.len() {
            return found;
        }
        proof {
            assert(value@.skip(start as int).skip((end - start) + 1) =~= value@.skip(end + 1));
        }
        start = end + 1;
    }
}

/// Begins a request head from its request line.
pub fn begin_http_request(line: Vec<u8>) -> (r: Result<HttpHead, HttpHeadError>)
    ensures
        !vstd::utf8::valid_utf8(line@) ==> r == Err::<HttpHead, HttpHeadError>(
            HttpHeadError::RequestLineNotUtf8,
        ),
        vstd::utf8::valid_utf8(line@) ==> match request_line_of(vstd::utf8::decode_utf8(line@)) {
            Err(e) => r == Err::<HttpHead, HttpHeadError>(e),
            Ok((m, p)) => (r matches Ok(h) && h.request.method@ == m && h.request.path@ == p
                && !h.request.bridge_header && h.request.host is None && h.request.origin is None
                && !h.request.upgrade_websocket && !h.request.connection_upgrade
                && h.request.sec_websocket_key is None && h.request.sec_websocket_version is None
                && h.header_count == 0 && h.header_bytes == 0),
        },
{
    let ghost bytes = line@;
    let text = match crate::text::utf8_text(line) {
        Some(t) => t,
        None => return Err(HttpHeadError::RequestLineNotUtf8),
    };
    proof {
        vstd::utf8::encode_utf8_decode_utf8(text@);
    }
    let v = chars_of(text.as_str());
    let (ms, me) = next_word_of(&v, 0);
    assert(v@.skip(0) =~= v@);
    let (ps, pe) = next_word_of(&v, me);
    if me == ms {
        return Err(HttpHeadError::MissingMethod);
    }
    if pe == ps {
        return Err(HttpHeadError::MissingPath);
    }
    let method = string_from_chars(&sub_chars(&v, ms, me));
    let path = string_from_chars(&sub_chars(&v, ps, pe));
    Ok(
        HttpHead {
            request: ParsedHttpRequest {
                method,
                path,
                bridge_header: false,
                host: None,
                origin: None,
                upgrade_websocket: false,
                connection_upgrade: false,
                sec_websocket_key: None,
                sec_websocket_version: None,
            },
            header_count: 0,
            header_bytes: 0,
        },
    )
}

/// Takes one header line (without its line ending). An empty line ends the
/// head (`Ok(true)`). A line counts toward the header limits before it is
/// read, its bytes and its CRLF toward the total; a line without `:` is
/// skipped.
pub fn add_http_header(head: &mut HttpHead, line: Vec<u8>) -> (r: Result<bool, HttpHeadError>)
    ensures
        line@.len() == 0 ==> r == Ok::<bool, HttpHeadError>(true) && *final(head) == *old(head),
        line@.len() > 0 && old(head).header_count + 1 > WEB_HTTP_MAX_HEADER_COUNT ==> r == Err::<
            bool,
            HttpHeadError,
        >(HttpHeadError::TooManyHeaders),
        line@.len() > 0 && old(head).header_count + 1 <= WEB_HTTP_MAX_HEADER_COUNT
            && old(head).header_bytes + line@.len() + 2 > WEB_HTTP_MAX_HEADER_BYTES ==> r == Err::<
            bool,
            HttpHeadError,
        >(HttpHeadError::HeadersTooLarge),
        line@.len() > 0 && old(head).header_count + 1 <= WEB_HTTP_MAX_HEADER_COUNT
            && old(head).header_bytes + line@.len() + 2 <= WEB_HTTP_MAX_HEADER_BYTES ==> {
            &&& final(head).header_count == old(head).header_count + 1
            &&& final(head).header_bytes == old(head).header_bytes + line@.len() + 2
            &&& !vstd::utf8::valid_utf8(line@) ==> r == Err::<bool, HttpHeadError>(
                HttpHeadError::HeaderNotUtf8,
            )
            &&& vstd::utf8::valid_utf8(line@) ==> (r == Ok::<bool, HttpHeadError>(false) && match header_parts(
                vstd::utf8::decode_utf8(line@),
            ) {
                None => final(head).request == old(head).request,
                Some((n, v)) => header_applied(old(head).request, n, v, final(head).request),
            })
        },
{
    if line.len() == 0 {
        return Ok(true);
    }
    if head.header_count >= WEB_HTTP_MAX_HEADER_COUNT {
        return Err(HttpHeadError::TooManyHeaders);
    }
    let total = head.header_bytes.saturating_add(line.len()).saturating_add(2);
    if total > WEB_HTTP_MAX_HEADER_BYTES {
        return Err(HttpHeadError::HeadersTooLarge);
    }
    head.header_count = head.header_count + 1;
    head.header_bytes = total;
    let text = match crate::text::utf8_text(line) {
        Some(t) => t,
        None => return Err(HttpHeadError::HeaderNotUtf8),
    };
    proof {
        vstd::utf8::encode_utf8_decode_utf8(text@);
    }
    let v = chars_of(text.as_str());
    let colon = find_char_from(&v, 0, ':');
    assert(v@.skip(0) =~= v@);
    if colon >= v.len() {
        return Ok(false);
    }
    let name_chars = trim_chars(&sub_chars(&v, 0, colon));
    let value_chars = trim_chars(&sub_chars(&v, colon + 1, v.len()));
    proof {
        assert(v@.subrange(0, colon as int) =~= v@.take(colon as int));
        assert(v@.subrange(colon + 1, v.len() as int) =~= v@.skip(colon + 1));
    }
    let name = string_from_chars(&name_chars);
    let value = string_from_chars(&value_chars);
    let n = lower_str(name.as_str());
    if chars_eq_str(&n, "x-grok-bridge-webui") && str_eq(value.as_str(), "1") {
        head.request.bridge_header = true;
    } else if chars_eq_str(&n, "host") {
        head.request.host = Some(value);
    } else if chars_eq_str(&n, "origin") {
        head.request.origin = Some(value);
    } else if chars_eq_str(&n, "upgrade") && chars_eq_str(&lower_str(value.as_str()), "websocket") {
        head.request.upgrade_websocket = true;
    } else if chars_eq_str(&n, "connection") {
        head.request.connection_upgrade = connection_has_upgrade(&value_chars);
    } else if chars_eq_str(&n, "sec-websocket-key") {
        head.request.sec_websocket_key = Some(value);
    } else if chars_eq_str(&n, "sec-websocket-version") {
        head.request.sec_websocket_version = Some(value);
    }
    Ok(false)
}


// ---------------------------------------------------------------------------
// Routing
// ---------------------------------------------------------------------------

/// A file of the bundled WebUI.
#[derive(Clone, Copy, Debug, PartialEq, Eq, Structural)]
pub enum WebAsset {
    IndexHtml,
    AppJs,
    AppCss,
}

impl WebAsset {
    /// The `Content-Type` the asset is served with.
    pub fn content_type(&self) -> (r: &'static str)
        ensures
            r@ == match *self {
                WebAsset::IndexHtml => "text/html; charset=utf-8"@,
                WebAsset::AppJs => "text/javascript; charset=utf-8"@,
                WebAsset::AppCss => "text/css; charset=utf-8"@,
            },
    {
        match self {
            WebAsset::IndexHtml => "text/html; charset=utf-8",
            WebAsset::AppJs => "text/javascript; charset=utf-8",
            WebAsset::AppCss => "text/css; charset=utf-8",
        }
    }

    /// The file of the bundled WebUI build that holds the asset.
    pub fn bundle_file(&self) -> (r: &'static str)
        ensures
            r@ == match *self {
                WebAsset::IndexHtml => "index.html"@,
                WebAsset::AppJs => "assets/app.js"@,
                WebAsset::AppCss => "assets/app.css"@,
            },
    {
        match self {
            WebAsset::IndexHtml => "index.html",
            WebAsset::AppJs => "assets/app.js",
            WebAsset::AppCss => "assets/app.css",
        }
    }
}

/// Why a WebUI request is answered with an error.
#[derive(Clone, Copy, Debug, PartialEq, Eq, Structural)]
pub enum WebRejection {
    NotFound,
    MissingBridgeHeader,
    BadSegment(DecodeError),
    InvalidClientSessionId,
    InvalidOwner,
}

/// What a WebUI request asks for.
#[derive(Clone, Debug, PartialEq, Eq)]
pub enum WebRoute {
    Events,
    Asset(WebAsset),
    Sessions,
    Version,
    CloseClient(String),
    CloseOwner(String),
    CloseSession(String),
    Rejected(WebRejection),
}

pub enum RouteView {
    Events,
    Asset(WebAsset),
    Sessions,
    Version,
    CloseClient(Seq<char>),
    CloseOwner(Seq<char>),
    CloseSession(Seq<char>),
    Rejected(WebRejection),
}

pub open spec fn route_view(r: WebRoute) -> RouteView {
    match r {
        WebRoute::Events => RouteView::Events,
        WebRoute::Asset(a) => RouteView::Asset(a),
        WebRoute::Sessions => RouteView::Sessions,
        WebRoute::Version => RouteView::Version,
        WebRoute::CloseClient(s) => RouteView::CloseClient(s@),
        WebRoute::CloseOwner(s) => RouteView::CloseOwner(s@),
        WebRoute::CloseSession(s) => RouteView::CloseSession(s@),
        WebRoute::Rejected(e) => RouteView::Rejected(e),
    }
}

/// The bundled file served at a path.
pub open spec fn asset_at(path: Seq<char>) -> Option<WebAsset> {
    if path == "/"@ {
        Some(WebAsset::IndexHtml)
    } else if path == "/assets/app.js"@ {
        Some(WebAsset::AppJs)
    } else if path == "/assets/app.css"@ {
        Some(WebAsset::AppCss)
    } else {
        None
    }
}

/// A close of a group named by a percent-encoded path segment: refused
/// without the WebUI header, or when the segment does not decode or the
/// name is not valid.
pub open spec fn group_close_route(
    path: Seq<char>,
    prefix: Seq<char>,
    bridge_header: bool,
    owner: bool,
) -> RouteView {
    match close_segment(path, prefix) {
        None => RouteView::Rejected(WebRejection::NotFound),
        Some(encoded) => if !bridge_header {
            RouteView::Rejected(WebRejection::MissingBridgeHeader)
        } else {
            match decoded_segment(encoded) {
                Err(e) => RouteView::Rejected(WebRejection::BadSegment(e)),
                Ok(name) => if owner {
                    if valid_owner(name) {
                        RouteView::CloseOwner(name)
                    } else {
                        RouteView::Rejected(WebRejection::InvalidOwner)
                    }
                } else {
                    if valid_identifier(name) {
                        RouteView::CloseClient(name)
                    } else {
                        RouteView::Rejected(WebRejection::InvalidClientSessionId)
                    }
                },
            }
        },
    }
}

/// The route of a request: the events socket, a bundled file, the JSON
/// APIs, and the close actions, which need the WebUI header.
pub open spec fn route_of(method: Seq<char>, path: Seq<char>, bridge_header: bool) -> RouteView {
    if method == "GET"@ && path == "/api/events"@ {
        RouteView::Events
    } else if method == "GET"@ && asset_at(path) is Some {
        RouteView::Asset(asset_at(path)->0)
    } else if method == "GET"@ && path == "/api/sessions"@ {
        RouteView::Sessions
    } else if method == "GET"@ && path == "/api/version"@ {
        RouteView::Version
    } else if method == "POST"@ && starts_with(path, "/api/clients/"@) {
        group_close_route(path, "/api/clients/"@, bridge_header, false)
    } else if method == "POST"@ && starts_with(path, "/api/owners/"@) {
        group_close_route(path, "/api/owners/"@, bridge_header, true)
    } else if method == "POST"@ && starts_with(path, "/api/sessions/"@) {
        match close_segment(path, "/api/sessions/"@) {
            None => RouteView::Rejected(WebRejection::NotFound),
            Some(handle) => if bridge_header {
                RouteView::CloseSession(handle)
            } else {
                RouteView::Rejected(WebRejection::MissingBridgeHeader)
            },
        }
    } else {
        RouteView::Rejected(WebRejection::NotFound)
    }
}

fn group_close(path: &str, prefix: &str, bridge_header: bool, owner: bool) -> (r: WebRoute)
    ensures
        route_view(r) == group_close_route(path@, prefix@, bridge_header, owner),
{
    let encoded = match close_path_segment(path, prefix) {
        Some(e) => e,
        None => return WebRoute::Rejected(WebRejection::NotFound),
    };
    if !bridge_header {
        return WebRoute::Rejected(WebRejection::MissingBridgeHeader);
    }
    let name = match percent_decode_path_segment(encoded.as_str()) {
        Ok(name) => name,
        Err(e) => return WebRoute::Rejected(WebRejection::BadSegment(e)),
    };
    if owner {
        match validate_owner(name.as_str()) {
            Ok(()) => WebRoute::CloseOwner(name),
            Err(_) => WebRoute::Rejected(WebRejection::InvalidOwner),
        }
    } else {
        match validate_identifier(name.as_str(), IdentifierField::ClientSessionId) {
            Ok(()) => WebRoute::CloseClient(name),
            Err(_) => WebRoute::Rejected(WebRejection::InvalidClientSessionId),
        }
    }
}

/// The route of a WebUI request (see `route_of`).
pub fn web_route(method: &str, path: &str, bridge_header: bool) -> (r: WebRoute)
    ensures
        route_view(r) == route_of(method@, path@, bridge_header),
{
    let get = str_eq(method, "GET");
    let post = str_eq(method, "POST");
    if get && str_eq(path, "/api/events") {
        return WebRoute::Events;
    }
    if get {
        if str_eq(path, "/") {
            return WebRoute::Asset(WebAsset::IndexHtml);
        }
        if str_eq(path, "/assets/app.js") {
            return WebRoute::Asset(WebAsset::AppJs);
        }
        if str_eq(path, "/assets/app.css") {
            return WebRoute::Asset(WebAsset::AppCss);
        }
        if str_eq(path, "/api/sessions") {
            return WebRoute::Sessions;
        }
        if str_eq(path, "/api/version") {
            return WebRoute::Version;
        }
    }
    if post {
        let p = chars_of(path);
        if crate::text::chars_start_with_str(&p, "/api/clients/") {
            return group_close(path, "/api/clients/", bridge_header, false);
        }
        if crate::text::chars_start_with_str(&p, "/api/owners/") {
            return group_close(path, "/api/owners/", bridge_header, true);
        }
        if crate::text::chars_start_with_str(&p, "/api/sessions/") {
            return match close_path_segment(path, "/api/sessions/") {
                None => WebRoute::Rejected(WebRejection::NotFound),
                Some(handle) => if bridge_header {
                    WebRoute::CloseSession(handle)
                } else {
                    WebRoute::Rejected(WebRejection::MissingBridgeHeader)
                },
            };
        }
    }
    WebRoute::Rejected(WebRejection::NotFound)
}

/// No request without the WebUI header closes anything.
pub proof fn lemma_close_requires_bridge_header(method: Seq<char>, path: Seq<char>)
    ensures
        !(route_of(method, path, false) is CloseClient),
        !(route_of(method, path, false) is CloseOwner),
        !(route_of(method, path, false) is CloseSession),
{
}

/// The body of a refused request.
pub fn rejection_message(r: WebRejection) -> (s: &'static str)
    ensures
        s@ == (match r {
            WebRejection::NotFound => "not found"@,
            WebRejection::MissingBridgeHeader => "missing WebUI request header"@,
            WebRejection::BadSegment(DecodeError::IncompleteEscape) => "owner contains an incomplete percent escape"@,
            WebRejection::BadSegment(DecodeError::InvalidEscape) => "owner contains an invalid percent escape"@,
            WebRejection::BadSegment(DecodeError::NotUtf8) => "owner is not valid UTF-8"@,
            WebRejection::InvalidClientSessionId => "invalid client session id"@,
            WebRejection::InvalidOwner => "owner must contain between 1 and 128 bytes and no control characters"@,
        }),
{
    match r {
        WebRejection::NotFound => "not found",
        WebRejection::MissingBridgeHeader => "missing WebUI request header",
        WebRejection::BadSegment(e) => e.message(),
        WebRejection::InvalidClientSessionId => "invalid client session id",
        WebRejection::InvalidOwner => "owner must contain between 1 and 128 bytes and no control characters",
    }
}

/// The HTTP status line of a refused request.
pub fn rejection_status(r: WebRejection) -> (s: &'static str)
    ensures
        s@ == (match r {
            WebRejection::NotFound => "404 Not Found"@,
            WebRejection::MissingBridgeHeader => "403 Forbidden"@,
            _ => "400 Bad Request"@,
        }),
{
    match r {
        WebRejection::NotFound => "404 Not Found",
        WebRejection::MissingBridgeHeader => "403 Forbidden",
        _ => "400 Bad Request",
    }
}

} // verus!
