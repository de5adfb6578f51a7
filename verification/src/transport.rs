//! The client side of the runtime connection: which Codex session a client
//! speaks for, and how long it waits for an answer.
use vstd::prelude::*;
use crate::protocol::{valid_identifier, validate_identifier, IdentifierField, ProtocolError, Request};
use crate::text::{chars_of, trim, trim_chars};
use crate::web::opt_string_view;

verus! {

broadcast use vstd::string::group_string_axioms;

/// Extra time a client waits beyond what the server may take.
pub const IPC_RESPONSE_SLACK_MS: u64 = 60000;

/// The client session: the Codex thread id when not blank, else the Codex
/// session id when not blank; it must be a valid identifier.
pub open spec fn client_session_of(thread_id: Option<Seq<char>>, session_id: Option<Seq<char>>) -> Result<
    Option<Seq<char>>,
    ProtocolError,
> {
    let value = match thread_id {
        Some(t) if trim(t).len() > 0 => Some(t),
        _ => match session_id {
            Some(s) if trim(s).len() > 0 => Some(s),
            _ => None,
        },
    };
    match value {
        Some(v) => if valid_identifier(v) {
            Ok(Some(v))
        } else {
            Err(ProtocolError::InvalidIdentifier(IdentifierField::ClientSessionId))
        },
        None => Ok(None),
    }
}

fn present(v: Option<String>) -> (r: Option<String>)
    ensures
        opt_string_view(r) == match opt_string_view(v) {
            Some(t) => if trim(t).len() > 0 {
                Some(t)
            } else {
                None
            },
            None => None,
        },
{
    match v {
        Some(t) => {
            let c = chars_of(t.as_str());
            if trim_chars(&c).len() > 0 {
                Some(t)
            } else {
                None
            }
        },
        None => None,
    }
}

/// The client session that a request speaks for (see `client_session_of`).
pub fn client_session_id_from(thread_id: Option<String>, session_id: Option<String>) -> (r: Result<
    Option<String>,
    ProtocolError,
>)
    ensures
        match r {
            Ok(v) => client_session_of(opt_string_view(thread_id), opt_string_view(session_id))
                == Ok::<Option<Seq<char>>, ProtocolError>(opt_string_view(v)),
            Err(e) => client_session_of(opt_string_view(thread_id), opt_string_view(session_id))
                == Err::<Option<Seq<char>>, ProtocolError>(e),
        },
{
    let value = match present(thread_id) {
        Some(t) => Some(t),
        None => present(session_id),
    };
    if let Some(v) = &value {
        if let Err(e) = validate_identifier(v.as_str(), IdentifierField::ClientSessionId) {
            return Err(e);
        }
    }
    Ok(value)
}

/// How long a client waits for the answer to a request, in milliseconds:
/// what the server may spend on it (a read waits at most 300 s; a wait at
/// most two hours, and five minutes when it names no timeout) plus the
/// slack.
pub open spec fn response_deadline_ms_of(request: Request) -> int {
    (match request {
        Request::Read { wait_ms, .. } => {
            let w = match wait_ms {
                Some(w) => w as int,
                None => 0,
            };
            if w < 300000 {
                w
            } else {
                300000
            }
        },
        Request::Wait { timeout_ms, .. } => {
            let t = match timeout_ms {
                Some(t) => t as int,
                None => 300000,
            };
            if t < 7200000 {
                t
            } else {
                7200000
            }
        },
        _ => 0,
    }) + IPC_RESPONSE_SLACK_MS
}

pub fn response_deadline_ms(request: &Request) -> (r: u64)
    ensures
        r == response_deadline_ms_of(*request),
{
    let base: u64 = match request {
        Request::Read { wait_ms, .. } => {
            let w = match wait_ms {
                Some(w) => *w,
                None => 0,
            };
            if w < 300000 {
                w
            } else {
                300000
            }
        },
        Request::Wait { timeout_ms, .. } => {
            let t = match timeout_ms {
                Some(t) => *t,
                None => 300000,
            };
            if t < 7200000 {
                t
            } else {
                7200000
            }
        },
        _ => 0,
    };
    base + IPC_RESPONSE_SLACK_MS
}

} // verus!
