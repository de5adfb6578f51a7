//! The command line: turning the arguments into one action.
use vstd::prelude::*;
use crate::protocol::{Request, WaitCondition};
use crate::text::{
    concat, parse_u16, parse_u32, parse_u64, parse_unsigned, str_eq, trim, unsigned_digits,
};
use crate::web::opt_string_view;

verus! {

broadcast use vstd::string::group_string_axioms;

// ---------------------------------------------------------------------------
// Errors
// ---------------------------------------------------------------------------

#[derive(Clone, Copy, Debug, PartialEq, Eq, Structural)]
pub enum CliErrorKind {
    NonUnicodeOption,
    UnknownOption,
    DuplicateOption,
    MissingValue,
    NonUnicodeValue,
    EmptyValue,
    MissingRequired,
    InvalidDigit,
    NumberTooLarge,
    UnexpectedArguments,
    UnknownCommand,
    HooksCommandRequired,
    UnknownHooksCommand,
    ServerCommandRequired,
    UnknownServerCommand,
    InterruptWithText,
    SessionWithCreateOptions,
    UnsupportedWaitCondition,
    NoCurrentDir,
}

/// A refused command line: what is wrong, the option, command or value it
/// is about, and the value of an option that is not a number.
#[derive(Clone, Debug)]
pub struct CliError {
    pub kind: CliErrorKind,
    pub subject: String,
    pub value: String,
}

pub type ErrorView = (CliErrorKind, Seq<char>, Seq<char>);

pub open spec fn error_view(e: CliError) -> ErrorView {
    (e.kind, e.subject@, e.value@)
}

/// The message of an error.
pub open spec fn error_text(e: ErrorView) -> Seq<char> {
    let (k, s, v) = e;
    match k {
        CliErrorKind::NonUnicodeOption => "command options must be valid Unicode"@,
        CliErrorKind::UnknownOption => "unknown option: "@ + s,
        CliErrorKind::DuplicateOption => "option was provided more than once: "@ + s,
        CliErrorKind::MissingValue => s + " requires a value"@,
        CliErrorKind::NonUnicodeValue => s + " must be valid Unicode"@,
        CliErrorKind::EmptyValue => s + " requires a non-empty value"@,
        CliErrorKind::MissingRequired => "missing required option: "@ + s,
        CliErrorKind::InvalidDigit => "invalid value for "@ + s + ": "@ + v
            + ": invalid digit found in string"@,
        CliErrorKind::NumberTooLarge => "invalid value for "@ + s + ": "@ + v
            + ": number too large to fit in target type"@,
        CliErrorKind::UnexpectedArguments => "unexpected arguments"@,
        CliErrorKind::UnknownCommand => "unknown command: "@ + s,
        CliErrorKind::HooksCommandRequired => "hooks requires install, status, or uninstall"@,
        CliErrorKind::UnknownHooksCommand => "unknown hooks command: "@ + s,
        CliErrorKind::ServerCommandRequired => "server requires start, status, stop, or ui"@,
        CliErrorKind::UnknownServerCommand => "unknown server command: "@ + s,
        CliErrorKind::InterruptWithText => "--interrupt cannot be combined with --text"@,
        CliErrorKind::SessionWithCreateOptions => "--session cannot be combined with session creation options"@,
        CliErrorKind::UnsupportedWaitCondition => "unsupported wait condition: "@ + s,
        CliErrorKind::NoCurrentDir => "failed to determine the current working directory"@,
    }
}

impl CliError {
    pub fn message(&self) -> (r: String)
        ensures
            r@ == error_text(error_view(*self)),
    {
        let s = self.subject.as_str();
        let v = self.value.as_str();
        match self.kind {
            CliErrorKind::NonUnicodeOption => "command options must be valid Unicode".to_string(),
            CliErrorKind::UnknownOption => concat("unknown option: ", s),
            CliErrorKind::DuplicateOption => concat("option was provided more than once: ", s),
            CliErrorKind::MissingValue => concat(s, " requires a value"),
            CliErrorKind::NonUnicodeValue => concat(s, " must be valid Unicode"),
            CliErrorKind::EmptyValue => concat(s, " requires a non-empty value"),
            CliErrorKind::MissingRequired => concat("missing required option: ", s),
            CliErrorKind::InvalidDigit => {
                let a = concat("invalid value for ", s);
                let b = concat(a.as_str(), ": ");
                let c = concat(b.as_str(), v);
                concat(c.as_str(), ": invalid digit found in string")
            },
            CliErrorKind::NumberTooLarge => {
                let a = concat("invalid value for ", s);
                let b = concat(a.as_str(), ": ");
                let c = concat(b.as_str(), v);
                concat(c.as_str(), ": number too large to fit in target type")
            },
            CliErrorKind::UnexpectedArguments => "unexpected arguments".to_string(),
            CliErrorKind::UnknownCommand => concat("unknown command: ", s),
            CliErrorKind::HooksCommandRequired => "hooks requires install, status, or uninstall".to_string(),
            CliErrorKind::UnknownHooksCommand => concat("unknown hooks command: ", s),
            CliErrorKind::ServerCommandRequired => "server requires start, status, stop, or ui".to_string(),
            CliErrorKind::UnknownServerCommand => concat("unknown server command: ", s),
            CliErrorKind::InterruptWithText => "--interrupt cannot be combined with --text".to_string(),
            CliErrorKind::SessionWithCreateOptions => "--session cannot be combined with session creation options".to_string(),
            CliErrorKind::UnsupportedWaitCondition => concat("unsupported wait condition: ", s),
            CliErrorKind::NoCurrentDir => "failed to determine the current working directory".to_string(),
        }
    }
}

fn error(kind: CliErrorKind, subject: &str) -> (r: CliError)
    ensures
        error_view(r) == (kind, subject@, Seq::<char>::empty()),
{
    CliError { kind, subject: subject.to_string(), value: String::new() }
}

fn bare_error(kind: CliErrorKind) -> (r: CliError)
    ensures
        error_view(r) == (kind, Seq::<char>::empty(), Seq::<char>::empty()),
{
    CliError { kind, subject: String::new(), value: String::new() }
}

// ---------------------------------------------------------------------------
// Options
// ---------------------------------------------------------------------------

pub type Args = Seq<Option<Seq<char>>>;

pub type Opts = Seq<(Seq<char>, Seq<char>)>;

pub open spec fn args_view(args: Seq<Option<String>>) -> Args {
    args.map_values(|a: Option<String>| opt_string_view(a))
}

pub open spec fn opts_view(o: Seq<(String, String)>) -> Opts {
    o.map_values(|p: (String, String)| (p.0@, p.1@))
}

/// The value of the option `name`.
pub open spec fn opt_get(o: Opts, name: Seq<char>) -> Option<Seq<char>>
    decreases o.len(),
{
    if o.len() == 0 {
        None
    } else if o[0].0 == name {
        Some(o[0].1)
    } else {
        opt_get(o.drop_first(), name)
    }
}

/// Options that take no value.
pub open spec fn is_flag(name: Seq<char>) -> bool {
    name == "--always-approve"@ || name == "--interrupt"@
}

/// Reading options from `args` after those already read into `acc`: every
/// name must be allowed and given once; a flag takes no value; any other
/// option takes the next argument, which must be Unicode and not empty.
pub open spec fn options_from(args: Args, allowed: Seq<Seq<char>>, acc: Opts) -> Result<Opts, ErrorView>
    decreases args.len(),
{
    if args.len() == 0 {
        Ok(acc)
    } else {
        match args[0] {
            None => Err((CliErrorKind::NonUnicodeOption, Seq::empty(), Seq::empty())),
            Some(name) => if !allowed.contains(name) {
                Err((CliErrorKind::UnknownOption, name, Seq::empty()))
            } else if opt_get(acc, name) is Some {
                Err((CliErrorKind::DuplicateOption, name, Seq::empty()))
            } else if is_flag(name) {
                options_from(args.skip(1), allowed, acc.push((name, Seq::empty())))
            } else if args.len() < 2 {
                Err((CliErrorKind::MissingValue, name, Seq::empty()))
            } else {
                match args[1] {
                    None => Err((CliErrorKind::NonUnicodeValue, name, Seq::empty())),
                    Some(v) => if v.len() == 0 {
                        Err((CliErrorKind::EmptyValue, name, Seq::empty()))
                    } else {
                        options_from(args.skip(2), allowed, acc.push((name, v)))
                    },
                }
            },
        }
    }
}

pub open spec fn options_of(args: Args, allowed: Seq<Seq<char>>) -> Result<Opts, ErrorView> {
    options_from(args, allowed, Seq::empty())
}

pub open spec fn strs_view(v: Seq<&str>) -> Seq<Seq<char>> {
    v.map_values(|s: &str| s@)
}

fn find_option(o: &Vec<(String, String)>, name: &str) -> (r: Option<usize>)
    ensures
        match r {
            Some(i) => i < o.len() && opt_get(opts_view(o@), name@) == Some(o@[i as int].1@),
            None => opt_get(opts_view(o@), name@) is None,
        },
{
    let ghost ov = opts_view(o@);
    let mut i: usize = 0;
    assert(ov.skip(0) =~= ov);
    while i < o.len()
        invariant
            i <= o.len(),
            ov == opts_view(o@),
            ov.len() == o@.len(),
            opt_get(ov, name@) == opt_get(ov.skip(i as int), name@),
        decreases o.len() - i,
    {
        assert(ov.skip(i as int)[0] == ov[i as int]);
        if str_eq(o[i].0.as_str(), name) {
            return Some(i);
        }
        assert(ov.skip(i as int).drop_first() =~= ov.skip(i + 1));
        i = i + 1;
    }
    None
}

/// The value of the option `name`.
pub fn option_value<'a>(o: &'a Vec<(String, String)>, name: &str) -> (r: Option<&'a str>)
    ensures
        match r {
            Some(v) => opt_get(opts_view(o@), name@) == Some(v@),
            None => opt_get(opts_view(o@), name@) is None,
        },
{
    match find_option(o, name) {
        Some(i) => Some(o[i].1.as_str()),
        None => None,
    }
}

fn owned_option(o: &Vec<(String, String)>, name: &str) -> (r: Option<String>)
    ensures
        opt_string_view(r) == opt_get(opts_view(o@), name@),
{
    match option_value(o, name) {
        Some(v) => Some(v.to_string()),
        None => None,
    }
}

fn has_option(o: &Vec<(String, String)>, name: &str) -> (r: bool)
    ensures
        r == opt_get(opts_view(o@), name@) is Some,
{
    match find_option(o, name) {
        Some(_) => true,
        None => false,
    }
}

fn is_allowed(allowed: &Vec<&str>, name: &str) -> (r: bool)
    ensures
        r == strs_view(allowed@).contains(name@),
{
    let mut i: usize = 0;
    while i < allowed.len()
        invariant
            i <= allowed.len(),
            forall|k: int| 0 <= k < i ==> allowed@[k]@ != name@,
        decreases allowed.len() - i,
    {
        if str_eq(allowed[i], name) {
            assert(strs_view(allowed@)[i as int] == name@);
            return true;
        }
        i = i + 1;
    }
    assert forall|k: int| 0 <= k < strs_view(allowed@).len() implies strs_view(allowed@)[k] != name@ by {
        assert(strs_view(allowed@)[k] == allowed@[k]@);
    }
    false
}

proof fn lemma_opts_push(o: Seq<(String, String)>, p: (String, String))
    ensures
        opts_view(o.push(p)) == opts_view(o).push((p.0@, p.1@)),
{
    assert(opts_view(o.push(p)) =~= opts_view(o).push((p.0@, p.1@)));
}

/// Reads the options in `args` from `start` on (see `options_of`).
pub fn parse_options(args: &Vec<Option<String>>, start: usize, allowed: &Vec<&str>) -> (r: Result<
    Vec<(String, String)>,
    CliError,
>)
    requires
        start <= args.len(),
    ensures
        match r {
            Ok(o) => options_of(args_view(args@).skip(start as int), strs_view(allowed@)) == Ok::<
                Opts,
                ErrorView,
            >(opts_view(o@)),
            Err(e) => options_of(args_view(args@).skip(start as int), strs_view(allowed@)) == Err::<
                Opts,
                ErrorView,
            >(error_view(e)),
        },
{
    let ghost av = args_view(args@);
    let ghost al = strs_view(allowed@);
    let mut options: Vec<(String, String)> = Vec::new();
    let mut index: usize = start;
    assert(opts_view(options@) =~= Seq::<(Seq<char>, Seq<char>)>::empty());
    while index < args.len()
        invariant
            start <= index <= args.len(),
            av == args_view(args@),
            av.len() == args@.len(),
            al == strs_view(allowed@),
            options_of(av.skip(start as int), al) == options_from(
                av.skip(index as int),
                al,
                opts_view(options@),
            ),
        decreases args.len() - index,
    {
        let ghost rest = av.skip(index as int);
        assert(rest[0] == opt_string_view(args@[index as int]));
        let name = match &args[index] {
            Some(n) => n.as_str(),
            None => return Err(bare_error(CliErrorKind::NonUnicodeOption)),
        };
        if !is_allowed(allowed, name) {
            return Err(error(CliErrorKind::UnknownOption, name));
        }
        if has_option(&options, name) {
            return Err(error(CliErrorKind::DuplicateOption, name));
        }
        if str_eq(name, "--always-approve") || str_eq(name, "--interrupt") {
            let p = (name.to_string(), String::new());
            proof {
                lemma_opts_push(options@, p);
                assert(rest.skip(1) =~= av.skip(index + 1));
            }
            options.push(p);
            index = index + 1;
        } else {
            if args.len() - index < 2 {
                return Err(error(CliErrorKind::MissingValue, name));
            }
            assert(rest[1] == opt_string_view(args@[index + 1]));
            let value = match &args[index + 1] {
                Some(v) => v.as_str(),
                None => return Err(error(CliErrorKind::NonUnicodeValue, name)),
            };
            if value.is_empty() {
                return Err(error(CliErrorKind::EmptyValue, name));
            }
            let p = (name.to_string(), value.to_string());
            proof {
                lemma_opts_push(options@, p);
                assert(rest.skip(2) =~= av.skip(index + 2));
            }
            options.push(p);
            index = index + 2;
        }
    }
    assert(av.skip(index as int).len() == 0);
    Ok(options)
}

/// The value of a required option.
pub open spec fn required_of(o: Opts, name: Seq<char>) -> Result<Seq<char>, ErrorView> {
    match opt_get(o, name) {
        Some(v) => Ok(v),
        None => Err((CliErrorKind::MissingRequired, name, Seq::empty())),
    }
}

pub fn required(o: &Vec<(String, String)>, name: &str) -> (r: Result<String, CliError>)
    ensures
        match r {
            Ok(v) => required_of(opts_view(o@), name@) == Ok::<Seq<char>, ErrorView>(v@),
            Err(e) => required_of(opts_view(o@), name@) == Err::<Seq<char>, ErrorView>(
                error_view(e),
            ),
        },
{
    match option_value(o, name) {
        Some(v) => Ok(v.to_string()),
        None => Err(error(CliErrorKind::MissingRequired, name)),
    }
}

/// An option's value as an unsigned number no larger than `max`, as
/// `FromStr` reads it.
pub open spec fn number_text(name: Seq<char>, v: Seq<char>, max: nat) -> Result<nat, ErrorView> {
    match parse_unsigned(v, max) {
        Some(n) => Ok(n),
        None => Err(
            (
                if unsigned_digits(v) is None {
                    CliErrorKind::InvalidDigit
                } else {
                    CliErrorKind::NumberTooLarge
                },
                name,
                v,
            ),
        ),
    }
}

pub open spec fn number_of(o: Opts, name: Seq<char>, max: nat) -> Result<Option<nat>, ErrorView> {
    match opt_get(o, name) {
        None => Ok(None),
        Some(v) => match number_text(name, v, max) {
            Ok(n) => Ok(Some(n)),
            Err(e) => Err(e),
        },
    }
}

pub open spec fn required_number_of(o: Opts, name: Seq<char>, max: nat) -> Result<nat, ErrorView> {
    match required_of(o, name) {
        Err(e) => Err(e),
        Ok(v) => number_text(name, v, max),
    }
}

fn number_error(name: &str, value: &str) -> (r: CliError)
    ensures
        error_view(r) == (
            if unsigned_digits(value@) is None {
                CliErrorKind::InvalidDigit
            } else {
                CliErrorKind::NumberTooLarge
            },
            name@,
            value@,
        ),
{
    let digits = has_unsigned_digits(value);
    CliError {
        kind: if digits {
            CliErrorKind::NumberTooLarge
        } else {
            CliErrorKind::InvalidDigit
        },
        subject: name.to_string(),
        value: value.to_string(),
    }
}

fn has_unsigned_digits(value: &str) -> (r: bool)
    ensures
        r == unsigned_digits(value@) is Some,
{
    let v = crate::text::chars_of(value);
    let start: usize = if v.len() > 0 && v[0] == '+' {
        1
    } else {
        0
    };
    let ghost d = if value@.len() > 0 && value@[0] == '+' {
        value@.drop_first()
    } else {
        value@
    };
    assert(d =~= v@.skip(start as int));
    assert(unsigned_digits(value@) == (if d.len() > 0 && crate::text::all_digits(d) {
        Some(d)
    } else {
        None
    }));
    if start >= v.len() {
        return false;
    }
    let mut k: usize = start;
    while k < v.len()
        invariant
            start <= k <= v.len(),
            d =~= v@.skip(start as int),
            d.len() > 0,
            unsigned_digits(value@) == (if d.len() > 0 && crate::text::all_digits(d) {
                Some(d)
            } else {
                None
            }),
            forall|m: int| start <= m < k ==> crate::text::is_digit_char(#[trigger] v@[m]),
        decreases v.len() - k,
    {
        if !('0' <= v[k] && v[k] <= '9') {
            assert(!crate::text::is_digit_char(d[k - start]));
            return false;
        }
        k = k + 1;
    }
    assert(crate::text::all_digits(d));
    true
}

fn number_u64(o: &Vec<(String, String)>, name: &str) -> (r: Result<Option<u64>, CliError>)
    ensures
        match r {
            Ok(n) => number_of(opts_view(o@), name@, u64::MAX as nat) == match n {
                Some(x) => Ok::<Option<nat>, ErrorView>(Some(x as nat)),
                None => Ok::<Option<nat>, ErrorView>(None),
            },
            Err(e) => number_of(opts_view(o@), name@, u64::MAX as nat) == Err::<
                Option<nat>,
                ErrorView,
            >(error_view(e)),
        },
{
    match option_value(o, name) {
        None => Ok(None),
        Some(v) => match parse_u64(v) {
            Some(n) => Ok(Some(n)),
            None => Err(number_error(name, v)),
        },
    }
}

fn number_u32(o: &Vec<(String, String)>, name: &str) -> (r: Result<Option<u32>, CliError>)
    ensures
        match r {
            Ok(n) => number_of(opts_view(o@), name@, u32::MAX as nat) == match n {
                Some(x) => Ok::<Option<nat>, ErrorView>(Some(x as nat)),
                None => Ok::<Option<nat>, ErrorView>(None),
            },
            Err(e) => number_of(opts_view(o@), name@, u32::MAX as nat) == Err::<
                Option<nat>,
                ErrorView,
            >(error_view(e)),
        },
{
    match option_value(o, name) {
        None => Ok(None),
        Some(v) => match parse_u32(v) {
            Some(n) => Ok(Some(n)),
            None => Err(number_error(name, v)),
        },
    }
}

fn required_u16(o: &Vec<(String, String)>, name: &str) -> (r: Result<u16, CliError>)
    ensures
        match r {
            Ok(n) => required_number_of(opts_view(o@), name@, u16::MAX as nat) == Ok::<
                nat,
                ErrorView,
            >(n as nat),
            Err(e) => required_number_of(opts_view(o@), name@, u16::MAX as nat) == Err::<
                nat,
                ErrorView,
            >(error_view(e)),
        },
{
    let v = match required(o, name) {
        Ok(v) => v,
        Err(e) => return Err(e),
    };
    match parse_u16(v.as_str()) {
        Some(n) => Ok(n),
        None => Err(number_error(name, v.as_str())),
    }
}

// ---------------------------------------------------------------------------
// Actions
// ---------------------------------------------------------------------------

#[derive(Clone, Copy, Debug, PartialEq, Eq, Structural)]
pub enum HooksAction {
    Install,
    Status,
    Uninstall,
}

/// How the terminal UI finds its session: an existing one, or one created
/// with these options.
#[derive(Clone, Debug, PartialEq, Eq)]
pub struct TerminalOptions {
    pub session: Option<String>,
    pub cwd: Option<String>,
    pub prompt: Option<String>,
    pub model: Option<String>,
    pub owner: Option<String>,
    pub always_approve: bool,
}

/// What the command line asks for.
#[derive(Clone, Debug, PartialEq, Eq)]
pub enum Action {
    Rpc { request: Request, auto_start: bool },
    Terminal(TerminalOptions),
    Hooks(HooksAction),
    ServerUi,
    Doctor,
    Help,
    Version,
    InternalHook,
    InternalServer,
}

/// What the command line reads from the environment: the working
/// directory (when it can be determined) and the Codex thread and session
/// ids (when set and Unicode).
#[derive(Clone, Debug)]
pub struct CliEnv {
    pub current_dir: Option<String>,
    pub codex_thread_id: Option<String>,
    pub codex_session_id: Option<String>,
}

pub enum RequestView {
    ServerStatus,
    ServerStop,
    Create(Seq<char>, Option<Seq<char>>, Option<Seq<char>>, Option<Seq<char>>, bool),
    List,
    Heartbeat,
    CloseCodex,
    Show(Seq<char>),
    Read(Seq<char>, Option<u64>, Option<u32>, Option<u64>),
    Send(Seq<char>, Seq<char>),
    Write(Seq<char>, Seq<char>),
    Resize(Seq<char>, u16, u16),
    Wait(Seq<char>, WaitCondition, Option<u64>),
    Close(Seq<char>),
    Hook,
}

pub enum ActionView {
    Rpc(RequestView, bool),
    Terminal(
        Option<Seq<char>>,
        Option<Seq<char>>,
        Option<Seq<char>>,
        Option<Seq<char>>,
        Option<Seq<char>>,
        bool,
    ),
    Hooks(HooksAction),
    ServerUi,
    Doctor,
    Help,
    Version,
    InternalHook,
    InternalServer,
}

pub open spec fn request_view(r: Request) -> RequestView {
    match r {
        Request::ServerStatus => RequestView::ServerStatus,
        Request::ServerStop => RequestView::ServerStop,
        Request::Create { cwd, prompt, model, owner, always_approve } => RequestView::Create(
            cwd@,
            opt_string_view(prompt),
            opt_string_view(model),
            opt_string_view(owner),
            always_approve,
        ),
        Request::List => RequestView::List,
        Request::Heartbeat => RequestView::Heartbeat,
        Request::CloseCodex => RequestView::CloseCodex,
        Request::Show { session } => RequestView::Show(session@),
        Request::Read { session, cursor, limit, wait_ms } => RequestView::Read(
            session@,
            cursor,
            limit,
            wait_ms,
        ),
        Request::Send { session, input } => RequestView::Send(session@, input@),
        Request::Write { session, data_base64 } => RequestView::Write(session@, data_base64@),
        Request::Resize { session, cols, rows } => RequestView::Resize(session@, cols, rows),
        Request::Wait { session, for_condition, timeout_ms } => RequestView::Wait(
            session@,
            for_condition,
            timeout_ms,
        ),
        Request::Close { session } => RequestView::Close(session@),
        Request::HookEvent { .. } => RequestView::Hook,
    }
}

pub open spec fn action_view(a: Action) -> ActionView {
    match a {
        Action::Rpc { request, auto_start } => ActionView::Rpc(request_view(request), auto_start),
        Action::Terminal(t) => ActionView::Terminal(
            opt_string_view(t.session),
            opt_string_view(t.cwd),
            opt_string_view(t.prompt),
            opt_string_view(t.model),
            opt_string_view(t.owner),
            t.always_approve,
        ),
        Action::Hooks(h) => ActionView::Hooks(h),
        Action::ServerUi => ActionView::ServerUi,
        Action::Doctor => ActionView::Doctor,
        Action::Help => ActionView::Help,
        Action::Version => ActionView::Version,
        Action::InternalHook => ActionView::InternalHook,
        Action::InternalServer => ActionView::InternalServer,
    }
}

pub open spec fn action_result(r: Result<Action, CliError>) -> Result<ActionView, ErrorView> {
    match r {
        Ok(a) => Ok(action_view(a)),
        Err(e) => Err(error_view(e)),
    }
}

pub type EnvView = (Option<Seq<char>>, Option<Seq<char>>, Option<Seq<char>>);

pub open spec fn env_view(e: CliEnv) -> EnvView {
    (
        opt_string_view(e.current_dir),
        opt_string_view(e.codex_thread_id),
        opt_string_view(e.codex_session_id),
    )
}

/// The Codex thread id, else the Codex session id, when not blank.
pub open spec fn default_owner_of(env: EnvView) -> Option<Seq<char>> {
    match env.1 {
        Some(t) if trim(t).len() > 0 => Some(t),
        _ => match env.2 {
            Some(s) if trim(s).len() > 0 => Some(s),
            _ => None,
        },
    }
}

pub open spec fn owner_or_default(owner: Option<Seq<char>>, env: EnvView) -> Option<Seq<char>> {
    match owner {
        Some(o) => Some(o),
        None => default_owner_of(env),
    }
}

pub open spec fn unexpected() -> ErrorView {
    (CliErrorKind::UnexpectedArguments, Seq::empty(), Seq::empty())
}

/// A command without arguments.
pub open spec fn bare_command_of(rest: Args, a: ActionView) -> Result<ActionView, ErrorView> {
    if rest.len() == 0 {
        Ok(a)
    } else {
        Err(unexpected())
    }
}

pub open spec fn hooks_command_of(rest: Args) -> Result<ActionView, ErrorView> {
    match if rest.len() > 0 { rest[0] } else { None } {
        None => Err((CliErrorKind::HooksCommandRequired, Seq::empty(), Seq::empty())),
        Some(c) => if rest.len() > 1 {
            Err(unexpected())
        } else if c == "install"@ {
            Ok(ActionView::Hooks(HooksAction::Install))
        } else if c == "status"@ {
            Ok(ActionView::Hooks(HooksAction::Status))
        } else if c == "uninstall"@ {
            Ok(ActionView::Hooks(HooksAction::Uninstall))
        } else {
            Err((CliErrorKind::UnknownHooksCommand, c, Seq::empty()))
        },
    }
}

pub open spec fn server_command_of(rest: Args) -> Result<ActionView, ErrorView> {
    match if rest.len() > 0 { rest[0] } else { None } {
        None => Err((CliErrorKind::ServerCommandRequired, Seq::empty(), Seq::empty())),
        Some(c) => if rest.len() > 1 {
            Err(unexpected())
        } else if c == "start"@ {
            Ok(ActionView::Rpc(RequestView::ServerStatus, true))
        } else if c == "status"@ {
            Ok(ActionView::Rpc(RequestView::ServerStatus, false))
        } else if c == "stop"@ {
            Ok(ActionView::Rpc(RequestView::ServerStop, false))
        } else if c == "ui"@ {
            Ok(ActionView::ServerUi)
        } else {
            Err((CliErrorKind::UnknownServerCommand, c, Seq::empty()))
        },
    }
}

pub open spec fn create_options() -> Seq<Seq<char>> {
    seq!["--cwd"@, "--prompt"@, "--model"@, "--owner"@, "--always-approve"@]
}

pub open spec fn terminal_options() -> Seq<Seq<char>> {
    seq!["--session"@, "--cwd"@, "--prompt"@, "--model"@, "--owner"@, "--always-approve"@]
}

pub open spec fn create_command_of(rest: Args, env: EnvView) -> Result<ActionView, ErrorView> {
    match options_of(rest, create_options()) {
        Err(e) => Err(e),
        Ok(o) => match (match opt_get(o, "--cwd"@) {
            Some(c) => Some(c),
            None => env.0,
        }) {
            None => Err((CliErrorKind::NoCurrentDir, Seq::empty(), Seq::empty())),
            Some(cwd) => Ok(
                ActionView::Rpc(
                    RequestView::Create(
                        cwd,
                        opt_get(o, "--prompt"@),
                        opt_get(o, "--model"@),
                        owner_or_default(opt_get(o, "--owner"@), env),
                        opt_get(o, "--always-approve"@) is Some,
                    ),
                    true,
                ),
            ),
        },
    }
}

/// `--session` attaches to a session and cannot be combined with the
/// options that create one.
pub open spec fn terminal_command_of(rest: Args, env: EnvView) -> Result<ActionView, ErrorView> {
    match options_of(rest, terminal_options()) {
        Err(e) => Err(e),
        Ok(o) => if opt_get(o, "--session"@) is Some && (opt_get(o, "--cwd"@) is Some || opt_get(
            o,
            "--prompt"@,
        ) is Some || opt_get(o, "--model"@) is Some || opt_get(o, "--owner"@) is Some || opt_get(
            o,
            "--always-approve"@,
        ) is Some) {
            Err((CliErrorKind::SessionWithCreateOptions, Seq::empty(), Seq::empty()))
        } else {
            Ok(
                ActionView::Terminal(
                    opt_get(o, "--session"@),
                    opt_get(o, "--cwd"@),
                    opt_get(o, "--prompt"@),
                    opt_get(o, "--model"@),
                    owner_or_default(opt_get(o, "--owner"@), env),
                    opt_get(o, "--always-approve"@) is Some,
                ),
            )
        },
    }
}

pub open spec fn session_command_of(rest: Args, show: bool) -> Result<ActionView, ErrorView> {
    match options_of(rest, seq!["--session"@]) {
        Err(e) => Err(e),
        Ok(o) => match required_of(o, "--session"@) {
            Err(e) => Err(e),
            Ok(s) => Ok(
                ActionView::Rpc(
                    if show {
                        RequestView::Show(s)
                    } else {
                        RequestView::Close(s)
                    },
                    true,
                ),
            ),
        },
    }
}

pub open spec fn read_command_of(rest: Args) -> Result<ActionView, ErrorView> {
    match options_of(rest, seq!["--session"@, "--cursor"@, "--limit"@, "--wait-ms"@]) {
        Err(e) => Err(e),
        Ok(o) => match required_of(o, "--session"@) {
            Err(e) => Err(e),
            Ok(s) => match number_of(o, "--cursor"@, u64::MAX as nat) {
                Err(e) => Err(e),
                Ok(cursor) => match number_of(o, "--limit"@, u32::MAX as nat) {
                    Err(e) => Err(e),
                    Ok(limit) => match number_of(o, "--wait-ms"@, u64::MAX as nat) {
                        Err(e) => Err(e),
                        Ok(wait) => Ok(
                            ActionView::Rpc(
                                RequestView::Read(
                                    s,
                                    match cursor {
                                        Some(n) => Some(n as u64),
                                        None => None,
                                    },
                                    match limit {
                                        Some(n) => Some(n as u32),
                                        None => None,
                                    },
                                    match wait {
                                        Some(n) => Some(n as u64),
                                        None => None,
                                    },
                                ),
                                true,
                            ),
                        ),
                    },
                },
            },
        },
    }
}

/// `--interrupt` sends Ctrl-C and cannot be combined with `--text`.
pub open spec fn send_command_of(rest: Args) -> Result<ActionView, ErrorView> {
    match options_of(rest, seq!["--session"@, "--text"@, "--interrupt"@]) {
        Err(e) => Err(e),
        Ok(o) => match (if opt_get(o, "--interrupt"@) is Some {
            if opt_get(o, "--text"@) is Some {
                Err((CliErrorKind::InterruptWithText, Seq::empty(), Seq::empty()))
            } else {
                Ok(seq!['\u{3}'])
            }
        } else {
            required_of(o, "--text"@)
        }) {
            Err(e) => Err(e),
            Ok(input) => match required_of(o, "--session"@) {
                Err(e) => Err(e),
                Ok(s) => Ok(ActionView::Rpc(RequestView::Send(s, input), true)),
            },
        },
    }
}

pub open spec fn write_command_of(rest: Args) -> Result<ActionView, ErrorView> {
    match options_of(rest, seq!["--session"@, "--data-base64"@]) {
        Err(e) => Err(e),
        Ok(o) => match required_of(o, "--session"@) {
            Err(e) => Err(e),
            Ok(s) => match required_of(o, "--data-base64"@) {
                Err(e) => Err(e),
                Ok(d) => Ok(ActionView::Rpc(RequestView::Write(s, d), true)),
            },
        },
    }
}

pub open spec fn resize_command_of(rest: Args) -> Result<ActionView, ErrorView> {
    match options_of(rest, seq!["--session"@, "--cols"@, "--rows"@]) {
        Err(e) => Err(e),
        Ok(o) => match required_of(o, "--session"@) {
            Err(e) => Err(e),
            Ok(s) => match required_number_of(o, "--cols"@, u16::MAX as nat) {
                Err(e) => Err(e),
                Ok(c) => match required_number_of(o, "--rows"@, u16::MAX as nat) {
                    Err(e) => Err(e),
                    Ok(r) => Ok(ActionView::Rpc(RequestView::Resize(s, c as u16, r as u16), true)),
                },
            },
        },
    }
}

pub open spec fn wait_command_of(rest: Args) -> Result<ActionView, ErrorView> {
    match options_of(rest, seq!["--session"@, "--for"@, "--timeout-ms"@]) {
        Err(e) => Err(e),
        Ok(o) => match required_of(o, "--for"@) {
            Err(e) => Err(e),
            Ok(f) => if f != "tui-idle"@ && f != "exit"@ {
                Err((CliErrorKind::UnsupportedWaitCondition, f, Seq::empty()))
            } else {
                match required_of(o, "--session"@) {
                    Err(e) => Err(e),
                    Ok(s) => match number_of(o, "--timeout-ms"@, u64::MAX as nat) {
                        Err(e) => Err(e),
                        Ok(t) => Ok(
                            ActionView::Rpc(
                                RequestView::Wait(
                                    s,
                                    if f == "tui-idle"@ {
                                        WaitCondition::TuiIdle
                                    } else {
                                        WaitCondition::Exit
                                    },
                                    match t {
                                        Some(n) => Some(n as u64),
                                        None => None,
                                    },
                                ),
                                true,
                            ),
                        ),
                    },
                }
            },
        },
    }
}

/// The action that the command line asks for: nothing or a non-Unicode
/// first argument is help.
pub open spec fn action_of(args: Args, env: EnvView) -> Result<ActionView, ErrorView> {
    match if args.len() > 0 { args[0] } else { None } {
        None => Ok(ActionView::Help),
        Some(c) => {
            let rest = args.skip(1);
            if c == "__hook"@ {
                bare_command_of(rest, ActionView::InternalHook)
            } else if c == "__server"@ {
                bare_command_of(rest, ActionView::InternalServer)
            } else if c == "hooks"@ {
                hooks_command_of(rest)
            } else if c == "server"@ {
                server_command_of(rest)
            } else if c == "create"@ {
                create_command_of(rest, env)
            } else if c == "list"@ {
                bare_command_of(rest, ActionView::Rpc(RequestView::List, true))
            } else if c == "heartbeat"@ {
                bare_command_of(rest, ActionView::Rpc(RequestView::Heartbeat, true))
            } else if c == "close-codex"@ {
                bare_command_of(rest, ActionView::Rpc(RequestView::CloseCodex, true))
            } else if c == "show"@ {
                session_command_of(rest, true)
            } else if c == "read"@ {
                read_command_of(rest)
            } else if c == "send"@ {
                send_command_of(rest)
            } else if c == "write"@ {
                write_command_of(rest)
            } else if c == "resize"@ {
                resize_command_of(rest)
            } else if c == "wait"@ {
                wait_command_of(rest)
            } else if c == "close"@ {
                session_command_of(rest, false)
            } else if c == "terminal"@ {
                terminal_command_of(rest, env)
            } else if c == "doctor"@ || c == "--doctor"@ {
                bare_command_of(rest, ActionView::Doctor)
            } else if c == "help"@ || c == "--help"@ || c == "-h"@ {
                bare_command_of(rest, ActionView::Help)
            } else if c == "--version"@ || c == "-V"@ {
                bare_command_of(rest, ActionView::Version)
            } else {
                Err((CliErrorKind::UnknownCommand, c, Seq::empty()))
            }
        },
    }
}

fn default_owner(env: &CliEnv) -> (r: Option<String>)
    ensures
        opt_string_view(r) == default_owner_of(env_view(*env)),
{
    if let Some(t) = &env.codex_thread_id {
        let c = crate::text::chars_of(t.as_str());
        if crate::text::trim_chars(&c).len() > 0 {
            return Some(t.clone());
        }
    }
    if let Some(x) = &env.codex_session_id {
        let c = crate::text::chars_of(x.as_str());
        if crate::text::trim_chars(&c).len() > 0 {
            return Some(x.clone());
        }
    }
    None
}

fn owner_option(o: &Vec<(String, String)>, env: &CliEnv) -> (r: Option<String>)
    ensures
        opt_string_view(r) == owner_or_default(opt_get(opts_view(o@), "--owner"@), env_view(*env)),
{
    match owned_option(o, "--owner") {
        Some(v) => Some(v),
        None => default_owner(env),
    }
}

fn rpc(request: Request, auto_start: bool) -> (r: Result<Action, CliError>)
    ensures
        r == Ok::<Action, CliError>(Action::Rpc { request, auto_start }),
{
    Ok(Action::Rpc { request, auto_start })
}

fn bare_command(args: &Vec<Option<String>>, a: Action) -> (r: Result<Action, CliError>)
    requires
        args.len() >= 1,
    ensures
        action_result(r) == bare_command_of(args_view(args@).skip(1), action_view(a)),
{
    if args.len() == 1 {
        Ok(a)
    } else {
        Err(bare_error(CliErrorKind::UnexpectedArguments))
    }
}

fn sub_command<'a>(args: &'a Vec<Option<String>>) -> (r: Option<&'a str>)
    requires
        args.len() >= 1,
    ensures
        str_opt(r) == (if args_view(args@).skip(1).len() > 0 {
            args_view(args@).skip(1)[0]
        } else {
            None
        }),
{
    if args.len() < 2 {
        return None;
    }
    assert(args_view(args@).skip(1)[0] == opt_string_view(args@[1]));
    match &args[1] {
        Some(c) => Some(c.as_str()),
        None => None,
    }
}

pub open spec fn str_opt(v: Option<&str>) -> Option<Seq<char>> {
    match v {
        Some(s) => Some(s@),
        None => None,
    }
}

fn parse_hooks(args: &Vec<Option<String>>) -> (r: Result<Action, CliError>)
    requires
        args.len() >= 1,
    ensures
        action_result(r) == hooks_command_of(args_view(args@).skip(1)),
{
    let c = match sub_command(args) {
        Some(c) => c,
        None => return Err(bare_error(CliErrorKind::HooksCommandRequired)),
    };
    if args.len() > 2 {
        return Err(bare_error(CliErrorKind::UnexpectedArguments));
    }
    if str_eq(c, "install") {
        Ok(Action::Hooks(HooksAction::Install))
    } else if str_eq(c, "status") {
        Ok(Action::Hooks(HooksAction::Status))
    } else if str_eq(c, "uninstall") {
        Ok(Action::Hooks(HooksAction::Uninstall))
    } else {
        Err(error(CliErrorKind::UnknownHooksCommand, c))
    }
}

fn parse_server(args: &Vec<Option<String>>) -> (r: Result<Action, CliError>)
    requires
        args.len() >= 1,
    ensures
        action_result(r) == server_command_of(args_view(args@).skip(1)),
{
    let c = match sub_command(args) {
        Some(c) => c,
        None => return Err(bare_error(CliErrorKind::ServerCommandRequired)),
    };
    if args.len() > 2 {
        return Err(bare_error(CliErrorKind::UnexpectedArguments));
    }
    if str_eq(c, "start") {
        rpc(Request::ServerStatus, true)
    } else if str_eq(c, "status") {
        rpc(Request::ServerStatus, false)
    } else if str_eq(c, "stop") {
        rpc(Request::ServerStop, false)
    } else if str_eq(c, "ui") {
        Ok(Action::ServerUi)
    } else {
        Err(error(CliErrorKind::UnknownServerCommand, c))
    }
}

fn options(args: &Vec<Option<String>>, allowed: Vec<&str>, ghost_allowed: Ghost<Seq<Seq<char>>>) -> (r: Result<
    Vec<(String, String)>,
    CliError,
>)
    requires
        args.len() >= 1,
        strs_view(allowed@) == ghost_allowed@,
    ensures
        match r {
            Ok(o) => options_of(args_view(args@).skip(1), ghost_allowed@) == Ok::<Opts, ErrorView>(
                opts_view(o@),
            ),
            Err(e) => options_of(args_view(args@).skip(1), ghost_allowed@) == Err::<
                Opts,
                ErrorView,
            >(error_view(e)),
        },
{
    parse_options(args, 1, &allowed)
}

fn parse_create(args: &Vec<Option<String>>, env: &CliEnv) -> (r: Result<Action, CliError>)
    requires
        args.len() >= 1,
    ensures
        action_result(r) == create_command_of(args_view(args@).skip(1), env_view(*env)),
{
    let allowed = vec!["--cwd", "--prompt", "--model", "--owner", "--always-approve"];
    let ghost al = create_options();
    assert(strs_view(allowed@) =~= al);
    let o = match options(args, allowed, Ghost(al)) {
        Ok(o) => o,
        Err(e) => return Err(e),
    };
    let cwd = match owned_option(&o, "--cwd") {
        Some(c) => c,
        None => match &env.current_dir {
            Some(d) => d.clone(),
            None => return Err(bare_error(CliErrorKind::NoCurrentDir)),
        },
    };
    rpc(
        Request::Create {
            cwd,
            prompt: owned_option(&o, "--prompt"),
            model: owned_option(&o, "--model"),
            owner: owner_option(&o, env),
            always_approve: has_option(&o, "--always-approve"),
        },
        true,
    )
}

fn parse_terminal(args: &Vec<Option<String>>, env: &CliEnv) -> (r: Result<Action, CliError>)
    requires
        args.len() >= 1,
    ensures
        action_result(r) == terminal_command_of(args_view(args@).skip(1), env_view(*env)),
{
    let allowed = vec!["--session", "--cwd", "--prompt", "--model", "--owner", "--always-approve"];
    let ghost al = terminal_options();
    assert(strs_view(allowed@) =~= al);
    let o = match options(args, allowed, Ghost(al)) {
        Ok(o) => o,
        Err(e) => return Err(e),
    };
    let session = owned_option(&o, "--session");
    if session.is_some() && (has_option(&o, "--cwd") || has_option(&o, "--prompt") || has_option(
        &o,
        "--model",
    ) || has_option(&o, "--owner") || has_option(&o, "--always-approve")) {
        return Err(bare_error(CliErrorKind::SessionWithCreateOptions));
    }
    Ok(
        Action::Terminal(
            TerminalOptions {
                session,
                cwd: owned_option(&o, "--cwd"),
                prompt: owned_option(&o, "--prompt"),
                model: owned_option(&o, "--model"),
                owner: owner_option(&o, env),
                always_approve: has_option(&o, "--always-approve"),
            },
        ),
    )
}

fn parse_session_command(args: &Vec<Option<String>>, show: bool) -> (r: Result<Action, CliError>)
    requires
        args.len() >= 1,
    ensures
        action_result(r) == session_command_of(args_view(args@).skip(1), show),
{
    let allowed = vec!["--session"];
    let ghost al = seq!["--session"@];
    assert(strs_view(allowed@) =~= al);
    let o = match options(args, allowed, Ghost(al)) {
        Ok(o) => o,
        Err(e) => return Err(e),
    };
    let session = match required(&o, "--session") {
        Ok(s) => s,
        Err(e) => return Err(e),
    };
    if show {
        rpc(Request::Show { session }, true)
    } else {
        rpc(Request::Close { session }, true)
    }
}

fn parse_read(args: &Vec<Option<String>>) -> (r: Result<Action, CliError>)
    requires
        args.len() >= 1,
    ensures
        action_result(r) == read_command_of(args_view(args@).skip(1)),
{
    let allowed = vec!["--session", "--cursor", "--limit", "--wait-ms"];
    let ghost al = seq!["--session"@, "--cursor"@, "--limit"@, "--wait-ms"@];
    assert(strs_view(allowed@) =~= al);
    let o = match options(args, allowed, Ghost(al)) {
        Ok(o) => o,
        Err(e) => return Err(e),
    };
    let session = match required(&o, "--session") {
        Ok(s) => s,
        Err(e) => return Err(e),
    };
    let cursor = match number_u64(&o, "--cursor") {
        Ok(n) => n,
        Err(e) => return Err(e),
    };
    let limit = match number_u32(&o, "--limit") {
        Ok(n) => n,
        Err(e) => return Err(e),
    };
    let wait_ms = match number_u64(&o, "--wait-ms") {
        Ok(n) => n,
        Err(e) => return Err(e),
    };
    rpc(Request::Read { session, cursor, limit, wait_ms }, true)
}

fn parse_send(args: &Vec<Option<String>>) -> (r: Result<Action, CliError>)
    requires
        args.len() >= 1,
    ensures
        action_result(r) == send_command_of(args_view(args@).skip(1)),
{
    let allowed = vec!["--session", "--text", "--interrupt"];
    let ghost al = seq!["--session"@, "--text"@, "--interrupt"@];
    assert(strs_view(allowed@) =~= al);
    let o = match options(args, allowed, Ghost(al)) {
        Ok(o) => o,
        Err(e) => return Err(e),
    };
    let input = if has_option(&o, "--interrupt") {
        if has_option(&o, "--text") {
            return Err(bare_error(CliErrorKind::InterruptWithText));
        }
        let mut v: Vec<char> = Vec::new();
        v.push('\u{3}');
        assert(v@ =~= seq!['\u{3}']);
        crate::text::string_from_chars(&v)
    } else {
        match required(&o, "--text") {
            Ok(t) => t,
            Err(e) => return Err(e),
        }
    };
    let session = match required(&o, "--session") {
        Ok(s) => s,
        Err(e) => return Err(e),
    };
    rpc(Request::Send { session, input }, true)
}

fn parse_write(args: &Vec<Option<String>>) -> (r: Result<Action, CliError>)
    requires
        args.len() >= 1,
    ensures
        action_result(r) == write_command_of(args_view(args@).skip(1)),
{
    let allowed = vec!["--session", "--data-base64"];
    let ghost al = seq!["--session"@, "--data-base64"@];
    assert(strs_view(allowed@) =~= al);
    let o = match options(args, allowed, Ghost(al)) {
        Ok(o) => o,
        Err(e) => return Err(e),
    };
    let session = match required(&o, "--session") {
        Ok(s) => s,
        Err(e) => return Err(e),
    };
    let data_base64 = match required(&o, "--data-base64") {
        Ok(d) => d,
        Err(e) => return Err(e),
    };
    rpc(Request::Write { session, data_base64 }, true)
}

fn parse_resize(args: &Vec<Option<String>>) -> (r: Result<Action, CliError>)
    requires
        args.len() >= 1,
    ensures
        action_result(r) == resize_command_of(args_view(args@).skip(1)),
{
    let allowed = vec!["--session", "--cols", "--rows"];
    let ghost al = seq!["--session"@, "--cols"@, "--rows"@];
    assert(strs_view(allowed@) =~= al);
    let o = match options(args, allowed, Ghost(al)) {
        Ok(o) => o,
        Err(e) => return Err(e),
    };
    let session = match required(&o, "--session") {
        Ok(s) => s,
        Err(e) => return Err(e),
    };
    let cols = match required_u16(&o, "--cols") {
        Ok(n) => n,
        Err(e) => return Err(e),
    };
    let rows = match required_u16(&o, "--rows") {
        Ok(n) => n,
        Err(e) => return Err(e),
    };
    rpc(Request::Resize { session, cols, rows }, true)
}

fn parse_wait(args: &Vec<Option<String>>) -> (r: Result<Action, CliError>)
    requires
        args.len() >= 1,
    ensures
        action_result(r) == wait_command_of(args_view(args@).skip(1)),
{
    let allowed = vec!["--session", "--for", "--timeout-ms"];
    let ghost al = seq!["--session"@, "--for"@, "--timeout-ms"@];
    assert(strs_view(allowed@) =~= al);
    let o = match options(args, allowed, Ghost(al)) {
        Ok(o) => o,
        Err(e) => return Err(e),
    };
    let f = match required(&o, "--for") {
        Ok(f) => f,
        Err(e) => return Err(e),
    };
    let for_condition = if str_eq(f.as_str(), "tui-idle") {
        WaitCondition::TuiIdle
    } else if str_eq(f.as_str(), "exit") {
        WaitCondition::Exit
    } else {
        return Err(error(CliErrorKind::UnsupportedWaitCondition, f.as_str()));
    };
    let session = match required(&o, "--session") {
        Ok(s) => s,
        Err(e) => return Err(e),
    };
    let timeout_ms = match number_u64(&o, "--timeout-ms") {
        Ok(n) => n,
        Err(e) => return Err(e),
    };
    rpc(Request::Wait { session, for_condition, timeout_ms }, true)
}

/// The action that the command line asks for (see `action_of`); `args`
/// are the arguments after the program name, `None` where one is not
/// Unicode.
pub fn parse_args(args: &Vec<Option<String>>, env: &CliEnv) -> (r: Result<Action, CliError>)
    ensures
        action_result(r) == action_of(args_view(args@), env_view(*env)),
{
    if args.len() == 0 {
        return Ok(Action::Help);
    }
    assert(args_view(args@)[0] == opt_string_view(args@[0]));
    let c = match &args[0] {
        Some(c) => c.as_str(),
        None => return Ok(Action::Help),
    };
    if str_eq(c, "__hook") {
        bare_command(args, Action::InternalHook)
    } else if str_eq(c, "__server") {
        bare_command(args, Action::InternalServer)
    } else if str_eq(c, "hooks") {
        parse_hooks(args)
    } else if str_eq(c, "server") {
        parse_server(args)
    } else if str_eq(c, "create") {
        parse_create(args, env)
    } else if str_eq(c, "list") {
        bare_command(args, Action::Rpc { request: Request::List, auto_start: true })
    } else if str_eq(c, "heartbeat") {
        bare_command(args, Action::Rpc { request: Request::Heartbeat, auto_start: true })
    } else if str_eq(c, "close-codex") {
        bare_command(args, Action::Rpc { request: Request::CloseCodex, auto_start: true })
    } else if str_eq(c, "show") {
        parse_session_command(args, true)
    } else if str_eq(c, "read") {
        parse_read(args)
    } else if str_eq(c, "send") {
        parse_send(args)
    } else if str_eq(c, "write") {
        parse_write(args)
    } else if str_eq(c, "resize") {
        parse_resize(args)
    } else if str_eq(c, "wait") {
        parse_wait(args)
    } else if str_eq(c, "close") {
        parse_session_command(args, false)
    } else if str_eq(c, "terminal") {
        parse_terminal(args, env)
    } else if str_eq(c, "doctor") || str_eq(c, "--doctor") {
        bare_command(args, Action::Doctor)
    } else if str_eq(c, "help") || str_eq(c, "--help") || str_eq(c, "-h") {
        bare_command(args, Action::Help)
    } else if str_eq(c, "--version") || str_eq(c, "-V") {
        bare_command(args, Action::Version)
    } else {
        Err(error(CliErrorKind::UnknownCommand, c))
    }
}

} // verus!
