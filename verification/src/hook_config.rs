//! The Grok hook configuration file: reading which of this tool's hooks it
//! holds, adding them, and taking them out again while every other hook and
//! setting stays as it was.
use vstd::prelude::*;
use crate::hooks::{
    empty_status, hook_event_is_tool, hook_event_names, hook_events, HookInstallStatus,
    HOOK_TIMEOUT_SECONDS,
};
use crate::json::{
    find_member, get, get_array, get_member, get_object, get_str, get_u64, items_view,
    json_parsed, json_pretty, json_view, lemma_items_view, lemma_member_index,
    lemma_member_index_first, lemma_member_index_none, lemma_members_view, lemma_set_member,
    lemma_set_member_same, member, member_index, member_value, members_view, parse_json, set_member,
    print_json_pretty, string_value, Json, JsonView, Member, names_unique, json_sound, reparsed_as,
    parse_depth, decimal_text,
};
use crate::text::str_eq;

verus! {

broadcast use vstd::string::group_string_axioms;

pub const MANAGED_ENV_NAME: &'static str = "GROK_BRIDGE_MANAGED";
pub const MANAGED_ENV_VALUE: &'static str = "1";
pub const PROTOCOL_ENV_NAME: &'static str = "GROK_BRIDGE_HOOK_PROTOCOL";
pub const PROTOCOL_ENV_VALUE: &'static str = "3";

pub type Members = Seq<(Seq<char>, JsonView)>;

/// Why a hook configuration cannot be read or changed.
#[derive(Clone, Debug, PartialEq, Eq)]
pub enum HookConfigError {
    /// The file is not one JSON document; serde_json's message.
    Parse(String),
    /// The document is not a JSON object.
    RootNotObject,
    /// The document's `hooks` member is not a JSON object.
    HooksNotObject,
    /// The hook event at this index of `hook_event_names` is not a JSON array.
    EventNotArray(usize),
}

/// The message of a configuration error; an event index past the nine
/// events names no event.
pub open spec fn config_error_text(e: HookConfigError) -> Seq<char> {
    match e {
        HookConfigError::Parse(m) => "failed to parse the Grok hook configuration: "@ + m@,
        HookConfigError::RootNotObject => "Grok hook configuration root must be a JSON object"@,
        HookConfigError::HooksNotObject => "Grok hook configuration 'hooks' must be a JSON object"@,
        HookConfigError::EventNotArray(i) => if i < 9 {
            "Grok hook event '"@ + hook_event_names()[i as int] + "' must be a JSON array"@
        } else {
            "Grok hook event '"@ + "' must be a JSON array"@
        },
    }
}

impl HookConfigError {
    pub fn message(&self) -> (r: String)
        ensures
            r@ == config_error_text(*self),
    {
        match self {
            HookConfigError::Parse(m) => crate::text::concat(
                "failed to parse the Grok hook configuration: ",
                m.as_str(),
            ),
            HookConfigError::RootNotObject => "Grok hook configuration root must be a JSON object".to_string(),
            HookConfigError::HooksNotObject => "Grok hook configuration 'hooks' must be a JSON object".to_string(),
            HookConfigError::EventNotArray(i) => {
                let events = hook_events();
                if *i < events.len() {
                    let head = crate::text::concat("Grok hook event '", events[*i].name);
                    crate::text::concat(head.as_str(), "' must be a JSON array")
                } else {
                    crate::text::concat("Grok hook event '", "' must be a JSON array")
                }
            },
        }
    }
}

// ---------------------------------------------------------------------------
// Handlers
// ---------------------------------------------------------------------------

/// A handler that this tool manages: its `env` marks it so.
pub open spec fn is_managed_handler(h: JsonView) -> bool {
    match get_object(h, "env"@) {
        Some(env) => member_value(env, MANAGED_ENV_NAME@) == Some(JsonView::Str(MANAGED_ENV_VALUE@)),
        None => false,
    }
}

/// A managed handler that runs `command` with this protocol and timeout.
pub open spec fn is_expected_handler(h: JsonView, command: Seq<char>) -> bool {
    &&& is_managed_handler(h)
    &&& match get_object(h, "env"@) {
        Some(env) => member_value(env, PROTOCOL_ENV_NAME@) == Some(
            JsonView::Str(PROTOCOL_ENV_VALUE@),
        ),
        None => false,
    }
    &&& get_str(h, "type"@) == Some("command"@)
    &&& get_str(h, "command"@) == Some(command)
    &&& get_u64(h, "timeout"@) == Some(HOOK_TIMEOUT_SECONDS)
}

/// How many handlers are managed.
pub open spec fn managed_count(hs: Seq<JsonView>) -> nat
    decreases hs.len(),
{
    if hs.len() == 0 {
        0
    } else {
        managed_count(hs.drop_last()) + if is_managed_handler(hs.last()) {
            1nat
        } else {
            0nat
        }
    }
}

/// The handlers that are not managed, in order.
pub open spec fn kept_handlers(hs: Seq<JsonView>) -> Seq<JsonView>
    decreases hs.len(),
{
    if hs.len() == 0 {
        Seq::<JsonView>::empty()
    } else if is_managed_handler(hs.last()) {
        kept_handlers(hs.drop_last())
    } else {
        kept_handlers(hs.drop_last()).push(hs.last())
    }
}

/// Whether one of the handlers is the expected one.
pub open spec fn any_expected(hs: Seq<JsonView>, command: Seq<char>) -> bool
    decreases hs.len(),
{
    hs.len() > 0 && (any_expected(hs.drop_last(), command) || is_expected_handler(hs.last(), command))
}

// ---------------------------------------------------------------------------
// Groups and events
// ---------------------------------------------------------------------------

/// The handler array of a group.
pub open spec fn group_handlers(g: JsonView) -> Option<Seq<JsonView>> {
    get_array(g, "hooks"@)
}

pub open spec fn group_managed(g: JsonView) -> nat {
    match group_handlers(g) {
        Some(hs) => managed_count(hs),
        None => 0,
    }
}

pub open spec fn groups_managed(gs: Seq<JsonView>) -> nat
    decreases gs.len(),
{
    if gs.len() == 0 {
        0
    } else {
        groups_managed(gs.drop_last()) + group_managed(gs.last())
    }
}

pub open spec fn event_managed(v: JsonView) -> nat {
    match v {
        JsonView::Array(gs) => groups_managed(gs),
        _ => 0,
    }
}

/// How many managed handlers the `hooks` object holds, over all events.
pub open spec fn events_managed(hm: Members) -> nat
    decreases hm.len(),
{
    if hm.len() == 0 {
        0
    } else {
        events_managed(hm.drop_last()) + event_managed(hm.last().1)
    }
}

/// A group that hooks `command` the way this tool installs it: tool events
/// match every tool (`.*`), lifecycle events have no matcher.
pub open spec fn group_matches(g: JsonView, tool: bool, command: Seq<char>) -> bool {
    match g {
        JsonView::Object(ms) => (if tool {
            get_str(g, "matcher"@) == Some(".*"@)
        } else {
            member_index(ms, "matcher"@) < 0
        }) && match group_handlers(g) {
            Some(hs) => any_expected(hs, command),
            None => false,
        },
        _ => false,
    }
}

pub open spec fn any_group_matches(gs: Seq<JsonView>, tool: bool, command: Seq<char>) -> bool
    decreases gs.len(),
{
    gs.len() > 0 && (any_group_matches(gs.drop_last(), tool, command) || group_matches(
        gs.last(),
        tool,
        command,
    ))
}

pub open spec fn event_has_expected(hm: Members, name: Seq<char>, tool: bool, command: Seq<char>) -> bool {
    match member_value(hm, name) {
        Some(JsonView::Array(gs)) => any_group_matches(gs, tool, command),
        _ => false,
    }
}

/// How many of the first `n` installed events have the expected hook.
pub open spec fn events_found(hm: Members, command: Seq<char>, n: nat) -> nat
    decreases n,
{
    if n == 0 {
        0
    } else {
        events_found(hm, command, (n - 1) as nat) + if event_has_expected(
            hm,
            hook_event_names()[n - 1],
            hook_event_is_tool(n - 1),
            command,
        ) {
            1nat
        } else {
            0nat
        }
    }
}

// ---------------------------------------------------------------------------
// Documents
// ---------------------------------------------------------------------------

/// The members of the document's `hooks` object, or none.
pub open spec fn hooks_of(d: JsonView) -> Members {
    match get_object(d, "hooks"@) {
        Some(hm) => hm,
        None => Seq::empty(),
    }
}

/// What keeps a document from being a hook configuration.
pub open spec fn document_error(d: JsonView) -> Option<HookConfigError> {
    match d {
        JsonView::Object(root) => match member_value(root, "hooks"@) {
            None => None,
            Some(JsonView::Object(_)) => None,
            Some(_) => Some(HookConfigError::HooksNotObject),
        },
        _ => Some(HookConfigError::RootNotObject),
    }
}

/// All nine events have exactly the expected hook, and no other managed
/// handler is left anywhere.
pub open spec fn installed(d: JsonView, command: Seq<char>) -> bool {
    events_found(hooks_of(d), command, 9) == 9 && events_managed(hooks_of(d)) == 9
}

/// A group without its managed handlers; gone when only managed handlers
/// were in it.
pub open spec fn stripped_group(g: JsonView) -> Option<JsonView> {
    match g {
        JsonView::Object(ms) => match member_value(ms, "hooks"@) {
            Some(JsonView::Array(hs)) => {
                let k = kept_handlers(hs);
                if k.len() == hs.len() || k.len() > 0 {
                    Some(JsonView::Object(set_member(ms, "hooks"@, JsonView::Array(k))))
                } else {
                    None
                }
            },
            _ => Some(g),
        },
        _ => Some(g),
    }
}

pub open spec fn stripped_groups(gs: Seq<JsonView>) -> Seq<JsonView>
    decreases gs.len(),
{
    if gs.len() == 0 {
        Seq::<JsonView>::empty()
    } else {
        match stripped_group(gs.last()) {
            Some(g) => stripped_groups(gs.drop_last()).push(g),
            None => stripped_groups(gs.drop_last()),
        }
    }
}

/// The events without managed handlers; an event goes when it lost handlers
/// and no group is left in it.
pub open spec fn stripped_events(hm: Members) -> Members
    decreases hm.len(),
{
    if hm.len() == 0 {
        Seq::empty()
    } else {
        let rest = stripped_events(hm.drop_last());
        let (k, v) = hm.last();
        match v {
            JsonView::Array(gs) => if groups_managed(gs) != 0 && stripped_groups(gs).len() == 0 {
                rest
            } else {
                rest.push((k, JsonView::Array(stripped_groups(gs))))
            },
            _ => rest.push((k, v)),
        }
    }
}

/// The document without managed handlers, and how many were taken out.
pub open spec fn removal(d: JsonView) -> Result<(JsonView, nat), HookConfigError> {
    match d {
        JsonView::Object(root) => match member_value(root, "hooks"@) {
            None => Ok((d, 0)),
            Some(JsonView::Object(hm)) => Ok(
                (
                    JsonView::Object(set_member(root, "hooks"@, JsonView::Object(stripped_events(hm)))),
                    events_managed(hm),
                ),
            ),
            Some(_) => Err(HookConfigError::HooksNotObject),
        },
        _ => Ok((d, 0)),
    }
}

/// The handler this tool installs for `command`.
pub open spec fn managed_handler(command: Seq<char>) -> JsonView {
    JsonView::Object(
        seq![
            ("type"@, JsonView::Str("command"@)),
            ("command"@, JsonView::Str(command)),
            ("timeout"@, JsonView::Number("2"@, Some(2u64))),
            ("env"@, JsonView::Object(seq![
                (MANAGED_ENV_NAME@, JsonView::Str(MANAGED_ENV_VALUE@)),
                (PROTOCOL_ENV_NAME@, JsonView::Str(PROTOCOL_ENV_VALUE@)),
            ])),
        ],
    )
}

/// The group this tool installs for `command`.
pub open spec fn managed_group(command: Seq<char>, tool: bool) -> JsonView {
    if tool {
        JsonView::Object(
            seq![
                ("matcher"@, JsonView::Str(".*"@)),
                ("hooks"@, JsonView::Array(seq![managed_handler(command)])),
            ],
        )
    } else {
        JsonView::Object(seq![("hooks"@, JsonView::Array(seq![managed_handler(command)]))])
    }
}

/// The managed group appended to the event `name`, which is created when
/// absent; nothing when the event is not an array.
pub open spec fn with_event(hm: Members, name: Seq<char>, tool: bool, command: Seq<char>) -> Option<
    Members,
> {
    let i = member_index(hm, name);
    if i < 0 {
        Some(hm.push((name, JsonView::Array(seq![managed_group(command, tool)]))))
    } else {
        match hm[i].1 {
            JsonView::Array(gs) => Some(
                hm.update(i, (name, JsonView::Array(gs.push(managed_group(command, tool))))),
            ),
            _ => None,
        }
    }
}

/// The first `n` installed events added in order.
pub open spec fn with_events(hm: Members, command: Seq<char>, n: nat) -> Result<
    Members,
    HookConfigError,
>
    decreases n,
{
    if n == 0 {
        Ok(hm)
    } else {
        match with_events(hm, command, (n - 1) as nat) {
            Ok(h) => match with_event(
                h,
                hook_event_names()[n - 1],
                hook_event_is_tool(n - 1),
                command,
            ) {
                Some(h2) => Ok(h2),
                None => Err(HookConfigError::EventNotArray((n - 1) as usize)),
            },
            Err(e) => Err(e),
        }
    }
}

/// The document with this tool's hooks added for `command`.
pub open spec fn addition(d: JsonView, command: Seq<char>) -> Result<JsonView, HookConfigError> {
    match d {
        JsonView::Object(root) => {
            let root1 = if member_index(root, "hooks"@) >= 0 {
                root
            } else {
                root.push(("hooks"@, JsonView::Object(Seq::empty())))
            };
            match member_value(root1, "hooks"@) {
                Some(JsonView::Object(hm)) => match with_events(hm, command, 9) {
                    Ok(h2) => Ok(JsonView::Object(set_member(root1, "hooks"@, JsonView::Object(h2)))),
                    Err(e) => Err(e),
                },
                _ => Err(HookConfigError::HooksNotObject),
            }
        },
        _ => Err(HookConfigError::RootNotObject),
    }
}

/// Installing into a document: nothing changes when the hooks are already
/// installed; otherwise every managed handler is replaced by the nine
/// expected ones. The flag says whether the document changed.
pub open spec fn installation(d: JsonView, command: Seq<char>) -> Result<
    (JsonView, bool),
    HookConfigError,
> {
    match document_error(d) {
        Some(e) => Err(e),
        None => if installed(d, command) {
            Ok((d, false))
        } else {
            match removal(d) {
                Ok((r, _)) => match addition(r, command) {
                    Ok(a) => Ok((a, a != d)),
                    Err(e) => Err(e),
                },
                Err(e) => Err(e),
            }
        },
    }
}

/// Uninstalling from a document: every managed handler taken out. The flag
/// says whether one was there.
pub open spec fn uninstallation(d: JsonView) -> Result<(JsonView, bool), HookConfigError> {
    match document_error(d) {
        Some(e) => Err(e),
        None => match removal(d) {
            Ok((r, n)) => Ok((r, n != 0)),
            Err(e) => Err(e),
        },
    }
}

// ---------------------------------------------------------------------------
// Executable reading and editing
// ---------------------------------------------------------------------------

pub open spec fn clamp_usize(n: nat) -> nat {
    if n <= usize::MAX {
        n
    } else {
        usize::MAX as nat
    }
}

proof fn lemma_items_push(s: Seq<Json>, x: Json)
    ensures
        items_view(s.push(x)) == items_view(s).push(json_view(x)),
{
    assert(s.push(x).drop_last() =~= s);
}

proof fn lemma_members_push(s: Seq<Member>, x: Member)
    ensures
        members_view(s.push(x)) == members_view(s).push((x.key@, json_view(x.value))),
{
    assert(s.push(x).drop_last() =~= s);
}

proof fn lemma_take_step<A>(s: Seq<A>, k: int)
    requires
        0 <= k < s.len(),
    ensures
        s.take(k + 1) == s.take(k).push(s[k]),
        s.take(k + 1).drop_last() == s.take(k),
        s.take(k + 1).last() == s[k],
{
    assert(s.take(k + 1) =~= s.take(k).push(s[k]));
    assert(s.take(k + 1).drop_last() =~= s.take(k));
}

proof fn lemma_members_view_update(s: Seq<Member>, i: int, m: Member)
    requires
        0 <= i < s.len(),
    ensures
        members_view(s.update(i, m)) == members_view(s).update(i, (m.key@, json_view(m.value))),
{
    lemma_members_view(s);
    lemma_members_view(s.update(i, m));
    assert(members_view(s.update(i, m)) =~= members_view(s).update(i, (m.key@, json_view(m.value))));
}

fn is_managed(h: &Json) -> (r: bool)
    ensures
        r == is_managed_handler(h@),
{
    match get_member(h, "env") {
        Some(env) => match get_member(env, MANAGED_ENV_NAME) {
            Some(Json::Str(v)) => str_eq(v.as_str(), MANAGED_ENV_VALUE),
            _ => false,
        },
        None => false,
    }
}

fn is_expected(h: &Json, command: &str) -> (r: bool)
    ensures
        r == is_expected_handler(h@, command@),
{
    if !is_managed(h) {
        return false;
    }
    let protocol = match get_member(h, "env") {
        Some(env) => match get_member(env, PROTOCOL_ENV_NAME) {
            Some(Json::Str(v)) => str_eq(v.as_str(), PROTOCOL_ENV_VALUE),
            _ => false,
        },
        None => false,
    };
    let kind = match crate::json::get_member_str(h, "type") {
        Some(t) => str_eq(t, "command"),
        None => false,
    };
    let runs = match crate::json::get_member_str(h, "command") {
        Some(c) => str_eq(c, command),
        None => false,
    };
    let timeout = crate::json::get_member_u64(h, "timeout");
    protocol && kind && runs && timeout == Some(HOOK_TIMEOUT_SECONDS)
}

fn strip_handlers(hs: Vec<Json>) -> (r: (Vec<Json>, usize))
    ensures
        items_view(r.0@) == kept_handlers(items_view(hs@)),
        r.1 == managed_count(items_view(hs@)),
{
    let ghost orig = hs@;
    let total = hs.len();
    let mut rest = hs;
    let mut kept: Vec<Json> = Vec::new();
    let mut removed: usize = 0;
    let mut k: usize = 0;
    while rest.len() > 0
        invariant
            k <= orig.len(),
            orig.len() == total,
            rest@ == orig.skip(k as int),
            items_view(kept@) == kept_handlers(items_view(orig.take(k as int))),
            removed == managed_count(items_view(orig.take(k as int))),
            removed <= k,
        decreases rest.len(),
    {
        let h = rest.remove(0);
        proof {
            assert(orig.skip(k as int).remove(0) =~= orig.skip(k + 1));
            lemma_take_step(orig, k as int);
            lemma_items_push(orig.take(k as int), orig[k as int]);
            let iv = items_view(orig.take(k as int));
            assert(iv.push(json_view(h)).drop_last() =~= iv);
        }
        if is_managed(&h) {
            removed = removed + 1;
        } else {
            proof {
                lemma_items_push(kept@, h);
            }
            kept.push(h);
        }
        k = k + 1;
    }
    assert(orig.take(k as int) =~= orig);
    (kept, removed)
}

fn strip_group(g: Json) -> (r: (Option<Json>, usize))
    ensures
        match r.0 {
            Some(x) => stripped_group(g@) == Some(x@),
            None => stripped_group(g@) is None,
        },
        r.1 == group_managed(g@),
{
    proof {
        reveal_strlit("hooks");
    }
    match g {
        Json::Object(ms) => {
            let found = find_member(&ms, "hooks");
            proof {
                lemma_member_index(members_view(ms@), "hooks"@);
                lemma_members_view(ms@);
            }
            match found {
                None => (Some(Json::Object(ms)), 0),
                Some(i) => {
                    let ghost orig = ms@;
                    let mut ms = ms;
                    let m = ms.remove(i);
                    let Member { key, value } = m;
                    match value {
                        Json::Array(hs) => {
                            let ghost hv = items_view(hs@);
                            let (kept, removed) = strip_handlers(hs);
                            proof {
                                lemma_kept_handlers(hv);
                                lemma_items_view(kept@);
                                lemma_items_view(hs@);
                            }
                            if removed == 0 || kept.len() > 0 {
                                let nm = Member { key, value: Json::Array(kept) };
                                ms.insert(i, nm);
                                proof {
                                    assert(ms@ =~= orig.update(i as int, nm));
                                    lemma_members_view_update(orig, i as int, nm);
                                }
                                (Some(Json::Object(ms)), removed)
                            } else {
                                (None, removed)
                            }
                        },
                        other => {
                            let nm = Member { key, value: other };
                            ms.insert(i, nm);
                            proof {
                                assert(ms@ =~= orig);
                            }
                            (Some(Json::Object(ms)), 0)
                        },
                    }
                },
            }
        },
        other => (Some(other), 0),
    }
}

fn strip_groups(gs: Vec<Json>) -> (r: (Vec<Json>, usize))
    ensures
        items_view(r.0@) == stripped_groups(items_view(gs@)),
        r.1 == clamp_usize(groups_managed(items_view(gs@))),
{
    let ghost orig = gs@;
    let total = gs.len();
    let mut rest = gs;
    let mut out: Vec<Json> = Vec::new();
    let mut removed: usize = 0;
    let mut k: usize = 0;
    while rest.len() > 0
        invariant
            k <= orig.len(),
            orig.len() == total,
            rest@ == orig.skip(k as int),
            items_view(out@) == stripped_groups(items_view(orig.take(k as int))),
            removed == clamp_usize(groups_managed(items_view(orig.take(k as int)))),
        decreases rest.len(),
    {
        let g = rest.remove(0);
        proof {
            assert(orig.skip(k as int).remove(0) =~= orig.skip(k + 1));
            lemma_take_step(orig, k as int);
            lemma_items_push(orig.take(k as int), orig[k as int]);
            let iv = items_view(orig.take(k as int));
            assert(iv.push(json_view(g)).drop_last() =~= iv);
        }
        let (stripped, n) = strip_group(g);
        removed = removed.saturating_add(n);
        match stripped {
            Some(x) => {
                proof {
                    lemma_items_push(out@, x);
                }
                out.push(x);
            },
            None => {},
        }
        k = k + 1;
    }
    assert(orig.take(k as int) =~= orig);
    (out, removed)
}

fn strip_events(hm: Vec<Member>) -> (r: (Vec<Member>, usize))
    ensures
        members_view(r.0@) == stripped_events(members_view(hm@)),
        r.1 == clamp_usize(events_managed(members_view(hm@))),
{
    let ghost orig = hm@;
    let total = hm.len();
    let mut rest = hm;
    let mut out: Vec<Member> = Vec::new();
    let mut removed: usize = 0;
    let mut k: usize = 0;
    while rest.len() > 0
        invariant
            k <= orig.len(),
            orig.len() == total,
            rest@ == orig.skip(k as int),
            members_view(out@) == stripped_events(members_view(orig.take(k as int))),
            removed == clamp_usize(events_managed(members_view(orig.take(k as int)))),
        decreases rest.len(),
    {
        let m = rest.remove(0);
        proof {
            assert(orig.skip(k as int).remove(0) =~= orig.skip(k + 1));
            lemma_take_step(orig, k as int);
            lemma_members_push(orig.take(k as int), orig[k as int]);
            let mv = members_view(orig.take(k as int));
            assert(mv.push((m.key@, json_view(m.value))).drop_last() =~= mv);
        }
        let Member { key, value } = m;
        match value {
            Json::Array(gs) => {
                let ghost gv = items_view(gs@);
                let (ngs, n) = strip_groups(gs);
                proof {
                    lemma_items_view(ngs@);
                }
                removed = removed.saturating_add(n);
                if n != 0 && ngs.len() == 0 {
                } else {
                    let nm = Member { key, value: Json::Array(ngs) };
                    proof {
                        lemma_members_push(out@, nm);
                    }
                    out.push(nm);
                }
            },
            other => {
                removed = removed.saturating_add(0);
                let nm = Member { key, value: other };
                proof {
                    lemma_members_push(out@, nm);
                }
                out.push(nm);
            },
        }
        k = k + 1;
    }
    assert(orig.take(k as int) =~= orig);
    (out, removed)
}

pub open spec fn removal_view(r: Result<(Json, usize), HookConfigError>) -> Result<
    (JsonView, nat),
    HookConfigError,
> {
    match r {
        Ok((d, n)) => Ok((d@, n as nat)),
        Err(e) => Err(e),
    }
}

pub open spec fn clamped_removal(r: Result<(JsonView, nat), HookConfigError>) -> Result<
    (JsonView, nat),
    HookConfigError,
> {
    match r {
        Ok((d, n)) => Ok((d, clamp_usize(n))),
        Err(e) => Err(e),
    }
}

/// Takes every managed handler out of the document; the count saturates at
/// `usize::MAX`.
pub fn remove_managed_hooks(doc: Json) -> (r: Result<(Json, usize), HookConfigError>)
    ensures
        removal_view(r) == clamped_removal(removal(doc@)),
{
    proof {
        reveal_strlit("hooks");
    }
    match doc {
        Json::Object(root) => {
            let found = find_member(&root, "hooks");
            proof {
                lemma_member_index(members_view(root@), "hooks"@);
                lemma_members_view(root@);
            }
            match found {
                None => Ok((Json::Object(root), 0)),
                Some(i) => {
                    let ghost orig = root@;
                    let mut root = root;
                    let m = root.remove(i);
                    let Member { key, value } = m;
                    match value {
                        Json::Object(hm) => {
                            let (nhm, n) = strip_events(hm);
                            let nm = Member { key, value: Json::Object(nhm) };
                            root.insert(i, nm);
                            proof {
                                assert(root@ =~= orig.update(i as int, nm));
                                lemma_members_view_update(orig, i as int, nm);
                            }
                            Ok((Json::Object(root), n))
                        },
                        _ => Err(HookConfigError::HooksNotObject),
                    }
                },
            }
        },
        other => Ok((other, 0)),
    }
}

fn managed_handler_json(command: &str) -> (r: Json)
    ensures
        r@ == managed_handler(command@),
{
    let env = vec![
        member(MANAGED_ENV_NAME, string_value(MANAGED_ENV_VALUE)),
        member(PROTOCOL_ENV_NAME, string_value(PROTOCOL_ENV_VALUE)),
    ];
    proof {
        lemma_members_view(env@);
        assert(members_view(env@) =~= seq![
            (MANAGED_ENV_NAME@, JsonView::Str(MANAGED_ENV_VALUE@)),
            (PROTOCOL_ENV_NAME@, JsonView::Str(PROTOCOL_ENV_VALUE@)),
        ]);
    }
    let ms = vec![
        member("type", string_value("command")),
        member("command", string_value(command)),
        member("timeout", Json::Number("2".to_string(), Some(2))),
        member("env", Json::Object(env)),
    ];
    proof {
        lemma_members_view(ms@);
        assert(members_view(ms@) =~= seq![
            ("type"@, JsonView::Str("command"@)),
            ("command"@, JsonView::Str(command@)),
            ("timeout"@, JsonView::Number("2"@, Some(2u64))),
            ("env"@, JsonView::Object(members_view(env@))),
        ]);
    }
    Json::Object(ms)
}

fn managed_group_json(command: &str, tool: bool) -> (r: Json)
    ensures
        r@ == managed_group(command@, tool),
{
    let handlers = vec![managed_handler_json(command)];
    proof {
        lemma_items_view(handlers@);
        assert(items_view(handlers@) =~= seq![managed_handler(command@)]);
    }
    if tool {
        let ms = vec![member("matcher", string_value(".*")), member("hooks", Json::Array(handlers))];
        proof {
            lemma_members_view(ms@);
            assert(members_view(ms@) =~= seq![
                ("matcher"@, JsonView::Str(".*"@)),
                ("hooks"@, JsonView::Array(seq![managed_handler(command@)])),
            ]);
        }
        Json::Object(ms)
    } else {
        let ms = vec![member("hooks", Json::Array(handlers))];
        proof {
            lemma_members_view(ms@);
            assert(members_view(ms@) =~= seq![
                ("hooks"@, JsonView::Array(seq![managed_handler(command@)])),
            ]);
        }
        Json::Object(ms)
    }
}

fn add_event(hm: Vec<Member>, name: &str, tool: bool, command: &str) -> (r: Option<Vec<Member>>)
    ensures
        match r {
            Some(h) => with_event(members_view(hm@), name@, tool, command@) == Some(members_view(h@)),
            None => with_event(members_view(hm@), name@, tool, command@) is None,
        },
{
    let found = find_member(&hm, name);
    proof {
        lemma_member_index(members_view(hm@), name@);
        lemma_members_view(hm@);
    }
    let ghost orig = hm@;
    let mut hm = hm;
    match found {
        None => {
            let group = managed_group_json(command, tool);
            let groups = vec![group];
            proof {
                lemma_items_view(groups@);
                assert(items_view(groups@) =~= seq![managed_group(command@, tool)]);
            }
            let nm = member(name, Json::Array(groups));
            proof {
                lemma_members_push(hm@, nm);
            }
            hm.push(nm);
            Some(hm)
        },
        Some(i) => {
            let m = hm.remove(i);
            let Member { key, value } = m;
            match value {
                Json::Array(gs) => {
                    let mut gs = gs;
                    let group = managed_group_json(command, tool);
                    proof {
                        lemma_items_push(gs@, group);
                    }
                    gs.push(group);
                    let nm = Member { key, value: Json::Array(gs) };
                    hm.insert(i, nm);
                    proof {
                        assert(hm@ =~= orig.update(i as int, nm));
                        lemma_members_view_update(orig, i as int, nm);
                    }
                    Some(hm)
                },
                _ => None,
            }
        },
    }
}

proof fn lemma_with_events_err(hm: Members, command: Seq<char>, m: nat, m2: nat)
    requires
        m <= m2,
        with_events(hm, command, m) is Err,
    ensures
        with_events(hm, command, m2) == with_events(hm, command, m),
    decreases m2,
{
    if m < m2 {
        lemma_with_events_err(hm, command, m, (m2 - 1) as nat);
    }
}

pub open spec fn members_result(r: Result<Vec<Member>, HookConfigError>) -> Result<Members, HookConfigError> {
    match r {
        Ok(h) => Ok(members_view(h@)),
        Err(e) => Err(e),
    }
}

fn add_events(hm: Vec<Member>, command: &str) -> (r: Result<Vec<Member>, HookConfigError>)
    ensures
        members_result(r) == with_events(members_view(hm@), command@, 9),
{
    let events = hook_events();
    let ghost start = members_view(hm@);
    let mut h = hm;
    let mut n: usize = 0;
    while n < 9
        invariant
            n <= 9,
            start == members_view(hm@),
            events@.len() == 9,
            forall|i: int|
                0 <= i < 9 ==> (#[trigger] events@[i]).name@ == hook_event_names()[i]
                    && events@[i].tool_event == hook_event_is_tool(i),
            with_events(start, command@, n as nat) == Ok::<Members, HookConfigError>(
                members_view(h@),
            ),
        decreases 9 - n,
    {
        let spec_entry = events[n];
        match add_event(h, spec_entry.name, spec_entry.tool_event, command) {
            Some(h2) => {
                h = h2;
            },
            None => {
                proof {
                    assert(spec_entry.name@ == hook_event_names()[n as int]);
                    assert(with_events(start, command@, (n + 1) as nat) == Err::<
                        Members,
                        HookConfigError,
                    >(HookConfigError::EventNotArray(n)));
                    lemma_with_events_err(start, command@, (n + 1) as nat, 9);
                }
                return Err(HookConfigError::EventNotArray(n));
            },
        }
        n = n + 1;
    }
    Ok(h)
}

pub open spec fn addition_view(r: Result<Json, HookConfigError>) -> Result<JsonView, HookConfigError> {
    match r {
        Ok(d) => Ok(d@),
        Err(e) => Err(e),
    }
}

/// Adds this tool's group for `command` to each of the nine events.
pub fn add_managed_hooks(doc: Json, command: &str) -> (r: Result<Json, HookConfigError>)
    ensures
        addition_view(r) == addition(doc@, command@),
{
    proof {
        reveal_strlit("hooks");
    }
    match doc {
        Json::Object(root) => {
            let found = find_member(&root, "hooks");
            proof {
                lemma_member_index(members_view(root@), "hooks"@);
                lemma_members_view(root@);
            }
            let mut root = root;
            let i = match found {
                Some(i) => i,
                None => {
                    let empty: Vec<Member> = Vec::new();
                    proof {
                        assert(members_view(empty@) =~= Seq::<(Seq<char>, JsonView)>::empty());
                    }
                    let nm = member("hooks", Json::Object(empty));
                    proof {
                        lemma_members_push(root@, nm);
                        lemma_set_member(
                            members_view(root@),
                            "hooks"@,
                            JsonView::Object(Seq::empty()),
                            "hooks"@,
                        );
                    }
                    root.push(nm);
                    root.len() - 1
                },
            };
            let ghost root1 = root@;
            proof {
                lemma_members_view(root1);
                lemma_member_index(members_view(root1), "hooks"@);
                if found is None {
                    crate::json::lemma_member_index_first(members_view(root1), "hooks"@, i as int);
                }
            }
            let m = root.remove(i);
            let Member { key, value } = m;
            match value {
                Json::Object(hm) => {
                    match add_events(hm, command) {
                        Ok(h2) => {
                            let nm = Member { key, value: Json::Object(h2) };
                            root.insert(i, nm);
                            proof {
                                assert(root@ =~= root1.update(i as int, nm));
                                lemma_members_view_update(root1, i as int, nm);
                            }
                            Ok(Json::Object(root))
                        },
                        Err(e) => Err(e),
                    }
                },
                _ => Err(HookConfigError::HooksNotObject),
            }
        },
        _ => Err(HookConfigError::RootNotObject),
    }
}

fn count_in_handlers(hs: &Vec<Json>) -> (r: usize)
    ensures
        r == managed_count(items_view(hs@)),
{
    let mut n: usize = 0;
    let mut i: usize = 0;
    while i < hs.len()
        invariant
            i <= hs.len(),
            n <= i,
            n == managed_count(items_view(hs@.take(i as int))),
        decreases hs.len() - i,
    {
        proof {
            lemma_take_step(hs@, i as int);
            lemma_items_push(hs@.take(i as int), hs@[i as int]);
            let iv = items_view(hs@.take(i as int));
            assert(iv.push(json_view(hs@[i as int])).drop_last() =~= iv);
        }
        if is_managed(&hs[i]) {
            n = n + 1;
        }
        i = i + 1;
    }
    assert(hs@.take(i as int) =~= hs@);
    n
}

fn group_count(g: &Json) -> (r: usize)
    ensures
        r == group_managed(g@),
{
    match get_member(g, "hooks") {
        Some(Json::Array(hs)) => count_in_handlers(hs),
        _ => 0,
    }
}

fn count_in_groups(gs: &Vec<Json>) -> (r: usize)
    ensures
        r == clamp_usize(groups_managed(items_view(gs@))),
{
    let mut n: usize = 0;
    let mut i: usize = 0;
    while i < gs.len()
        invariant
            i <= gs.len(),
            n == clamp_usize(groups_managed(items_view(gs@.take(i as int)))),
        decreases gs.len() - i,
    {
        proof {
            lemma_take_step(gs@, i as int);
            lemma_items_push(gs@.take(i as int), gs@[i as int]);
            let iv = items_view(gs@.take(i as int));
            assert(iv.push(json_view(gs@[i as int])).drop_last() =~= iv);
        }
        let c = group_count(&gs[i]);
        n = n.saturating_add(c);
        i = i + 1;
    }
    assert(gs@.take(i as int) =~= gs@);
    n
}

/// How many managed handlers the members of a `hooks` object hold; the
/// count saturates at `usize::MAX`.
pub fn count_managed_handlers(hm: &Vec<Member>) -> (r: usize)
    ensures
        r == clamp_usize(events_managed(members_view(hm@))),
{
    let mut n: usize = 0;
    let mut i: usize = 0;
    while i < hm.len()
        invariant
            i <= hm.len(),
            n == clamp_usize(events_managed(members_view(hm@.take(i as int)))),
        decreases hm.len() - i,
    {
        proof {
            lemma_take_step(hm@, i as int);
            lemma_members_push(hm@.take(i as int), hm@[i as int]);
            let mv = members_view(hm@.take(i as int));
            assert(mv.push((hm@[i as int].key@, json_view(hm@[i as int].value))).drop_last() =~= mv);
        }
        let c = match &hm[i].value {
            Json::Array(gs) => count_in_groups(gs),
            _ => 0,
        };
        n = n.saturating_add(c);
        i = i + 1;
    }
    assert(hm@.take(i as int) =~= hm@);
    n
}

fn any_expected_in(hs: &Vec<Json>, command: &str) -> (r: bool)
    ensures
        r == any_expected(items_view(hs@), command@),
{
    let mut found = false;
    let mut i: usize = 0;
    while i < hs.len()
        invariant
            i <= hs.len(),
            found == any_expected(items_view(hs@.take(i as int)), command@),
        decreases hs.len() - i,
    {
        proof {
            lemma_take_step(hs@, i as int);
            lemma_items_push(hs@.take(i as int), hs@[i as int]);
            let iv = items_view(hs@.take(i as int));
            assert(iv.push(json_view(hs@[i as int])).drop_last() =~= iv);
        }
        let e = is_expected(&hs[i], command);
        found = found || e;
        i = i + 1;
    }
    assert(hs@.take(i as int) =~= hs@);
    found
}

fn group_matches_json(g: &Json, tool: bool, command: &str) -> (r: bool)
    ensures
        r == group_matches(g@, tool, command@),
{
    match g {
        Json::Object(ms) => {
            let matcher_ok = if tool {
                match crate::json::get_member_str(g, "matcher") {
                    Some(m) => str_eq(m, ".*"),
                    None => false,
                }
            } else {
                match find_member(ms, "matcher") {
                    Some(_) => false,
                    None => true,
                }
            };
            let handlers_ok = match get_member(g, "hooks") {
                Some(Json::Array(hs)) => any_expected_in(hs, command),
                _ => false,
            };
            matcher_ok && handlers_ok
        },
        _ => false,
    }
}

fn any_group_matches_json(gs: &Vec<Json>, tool: bool, command: &str) -> (r: bool)
    ensures
        r == any_group_matches(items_view(gs@), tool, command@),
{
    let mut found = false;
    let mut i: usize = 0;
    while i < gs.len()
        invariant
            i <= gs.len(),
            found == any_group_matches(items_view(gs@.take(i as int)), tool, command@),
        decreases gs.len() - i,
    {
        proof {
            lemma_take_step(gs@, i as int);
            lemma_items_push(gs@.take(i as int), gs@[i as int]);
            let iv = items_view(gs@.take(i as int));
            assert(iv.push(json_view(gs@[i as int])).drop_last() =~= iv);
        }
        let e = group_matches_json(&gs[i], tool, command);
        found = found || e;
        i = i + 1;
    }
    assert(gs@.take(i as int) =~= gs@);
    found
}

/// Whether the event `name` holds this tool's group for `command`.
pub fn event_has_expected_hook(hm: &Vec<Member>, name: &str, tool: bool, command: &str) -> (r: bool)
    ensures
        r == event_has_expected(members_view(hm@), name@, tool, command@),
{
    let found = find_member(hm, name);
    proof {
        lemma_member_index(members_view(hm@), name@);
        lemma_members_view(hm@);
    }
    match found {
        Some(i) => match &hm[i].value {
            Json::Array(gs) => any_group_matches_json(gs, tool, command),
            _ => false,
        },
        None => false,
    }
}

fn count_events_found(hm: &Vec<Member>, command: &str) -> (r: usize)
    ensures
        r == events_found(members_view(hm@), command@, 9),
{
    let events = hook_events();
    let mut n: usize = 0;
    let mut k: usize = 0;
    while k < 9
        invariant
            k <= 9,
            n <= k,
            events@.len() == 9,
            forall|i: int|
                0 <= i < 9 ==> (#[trigger] events@[i]).name@ == hook_event_names()[i]
                    && events@[i].tool_event == hook_event_is_tool(i),
            n == events_found(members_view(hm@), command@, k as nat),
        decreases 9 - k,
    {
        let e = events[k];
        if event_has_expected_hook(hm, e.name, e.tool_event, command) {
            n = n + 1;
        }
        k = k + 1;
    }
    n
}

/// The installation status that a document shows.
pub open spec fn shows_status(s: HookInstallStatus, path: Seq<char>, d: JsonView, command: Seq<char>, changed: bool) -> bool {
    &&& s.path@ == path
    &&& s.installed == installed(d, command)
    &&& s.changed == changed
    &&& s.events_found == events_found(hooks_of(d), command, 9)
    &&& s.events_expected == 9
}

/// What the document shows of this tool's hooks.
pub fn inspect_document(path: &str, doc: &Json, command: &str) -> (r: HookInstallStatus)
    ensures
        shows_status(r, path@, doc@, command@, false),
{
    proof {
        reveal_strlit("hooks");
    }
    let (found, managed) = match get_member(doc, "hooks") {
        Some(Json::Object(hm)) => (count_events_found(hm, command), count_managed_handlers(hm)),
        _ => {
            proof {
                lemma_events_found_none(Seq::empty(), command@, 9);
            }
            (0, 0)
        },
    };
    HookInstallStatus {
        path: path.to_string(),
        installed: found == 9 && managed == 9,
        changed: false,
        events_found: found,
        events_expected: 9,
    }
}

/// Checks that the document is a JSON object whose `hooks`, when present,
/// is a JSON object.
pub fn validate_document(doc: &Json) -> (r: Result<(), HookConfigError>)
    ensures
        match r {
            Ok(()) => document_error(doc@) is None,
            Err(e) => document_error(doc@) == Some(e),
        },
{
    match doc {
        Json::Object(_) => match get_member(doc, "hooks") {
            None => Ok(()),
            Some(Json::Object(_)) => Ok(()),
            Some(_) => Err(HookConfigError::HooksNotObject),
        },
        _ => Err(HookConfigError::RootNotObject),
    }
}

pub open spec fn edit_view(r: Result<(Json, bool), HookConfigError>) -> Result<(JsonView, bool), HookConfigError> {
    match r {
        Ok((d, c)) => Ok((d@, c)),
        Err(e) => Err(e),
    }
}

/// Installs this tool's hooks for `command` into the document (see
/// `installation`).
pub fn install_document(doc: Json, command: &str) -> (r: Result<(Json, bool), HookConfigError>)
    ensures
        edit_view(r) == installation(doc@, command@),
{
    if let Err(e) = validate_document(&doc) {
        return Err(e);
    }
    let current = inspect_document("", &doc, command);
    if current.installed {
        return Ok((doc, false));
    }
    proof {
        lemma_removal(doc@);
        lemma_installation_installs(doc@, command@);
    }
    let ghost d = doc@;
    let removed = match remove_managed_hooks(doc) {
        Ok((r, _)) => r,
        Err(e) => return Err(e),
    };
    match add_managed_hooks(removed, command) {
        Ok(a) => Ok((a, true)),
        Err(e) => Err(e),
    }
}

/// Takes every managed handler out of the document (see `uninstallation`).
pub fn uninstall_document(doc: Json) -> (r: Result<(Json, bool), HookConfigError>)
    ensures
        edit_view(r) == uninstallation(doc@),
{
    if let Err(e) = validate_document(&doc) {
        return Err(e);
    }
    match remove_managed_hooks(doc) {
        Ok((r, n)) => Ok((r, n != 0)),
        Err(e) => Err(e),
    }
}

// ---------------------------------------------------------------------------
// The file
// ---------------------------------------------------------------------------

/// The new state of the hook file: its status, and the bytes to write when
/// it changed.
#[derive(Debug)]
pub struct HookFileUpdate {
    pub status: HookInstallStatus,
    pub contents: Option<Vec<u8>>,
}

/// The file's bytes for a document: serde_json's pretty print and a newline.
pub open spec fn file_bytes(d: JsonView) -> Seq<u8> {
    json_pretty(d).push(10u8)
}

/// The document in the file, where a missing file is an empty object.
pub open spec fn initial_document(existing: Option<Seq<u8>>) -> Option<JsonView> {
    match existing {
        None => Some(JsonView::Object(Seq::empty())),
        Some(b) => json_parsed(b),
    }
}

pub open spec fn bytes_opt(v: Option<&[u8]>) -> Option<Seq<u8>> {
    match v {
        Some(b) => Some(b@),
        None => None,
    }
}

pub open spec fn contents_view(c: Option<Vec<u8>>) -> Option<Seq<u8>> {
    match c {
        Some(v) => Some(v@),
        None => None,
    }
}

/// The update for a document that an edit produced.
pub open spec fn shows_update(u: HookFileUpdate, path: Seq<char>, d: JsonView, command: Seq<char>, changed: bool) -> bool {
    shows_status(u.status, path, d, command, changed) && contents_view(u.contents) == (if changed {
        Some(file_bytes(d))
    } else {
        None
    })
}

fn file_contents(d: &Json) -> (r: Vec<u8>)
    ensures
        r@ == file_bytes(d@),
        json_sound(d@, parse_depth()) ==> (json_parsed(r@) matches Some(p) && json_sound(p, parse_depth())
            && reparsed_as(p, d@)),
{
    let mut bytes = print_json_pretty(d);
    let ghost printed = bytes@;
    bytes.push(10u8);
    proof {
        assert(bytes@ == printed.push(10u8));
    }
    bytes
}

fn read_document(existing: Option<&[u8]>) -> (r: Result<Json, HookConfigError>)
    ensures
        match r {
            Ok(d) => initial_document(bytes_opt(existing)) == Some(d@) && json_sound(d@, parse_depth()),
            Err(e) => initial_document(bytes_opt(existing)) is None && e is Parse,
        },
{
    match existing {
        None => {
            let empty: Vec<Member> = Vec::new();
            proof {
                assert(members_view(empty@) =~= Seq::<(Seq<char>, JsonView)>::empty());
                assert(names_unique(Seq::<(Seq<char>, JsonView)>::empty()));
            }
            Ok(Json::Object(empty))
        },
        Some(b) => match parse_json(b) {
            Ok(d) => Ok(d),
            Err(m) => Err(HookConfigError::Parse(m)),
        },
    }
}

/// Installs this tool's hooks into the hook file whose current bytes are
/// `existing` (`None` when there is no file).
pub fn install_config(existing: Option<&[u8]>, path: &str, command: &str) -> (r: Result<HookFileUpdate, HookConfigError>)
    ensures
        initial_document(bytes_opt(existing)) is None ==> r matches Err(HookConfigError::Parse(_)),
        initial_document(bytes_opt(existing)) matches Some(d) ==> match installation(d, command@) {
            Ok((a, changed)) => (r matches Ok(u) && shows_update(u, path@, a, command@, changed)),
            Err(e) => r == Err::<HookFileUpdate, HookConfigError>(e),
        },
        r matches Ok(u) ==> (u.contents matches Some(c) ==> (json_parsed(c@) matches Some(p)
            && installation(p, command@) == Ok::<(JsonView, bool), HookConfigError>((p, false)))),
{
    let doc = match read_document(existing) {
        Ok(d) => d,
        Err(e) => return Err(e),
    };
    let ghost d = doc@;
    match install_document(doc, command) {
        Ok((a, changed)) => {
            let mut status = inspect_document(path, &a, command);
            status.changed = changed;
            proof {
                lemma_installation_sound(d, command@);
            }
            let contents = if changed {
                let bytes = file_contents(&a);
                proof {
                    let p = json_parsed(bytes@)->0;
                    lemma_reinstall_changes_nothing(d, command@, p);
                }
                Some(bytes)
            } else {
                None
            };
            Ok(HookFileUpdate { status, contents })
        },
        Err(e) => Err(e),
    }
}

/// The status of the hook file whose current bytes are `existing`.
pub fn status_config(existing: Option<&[u8]>, path: &str, command: &str) -> (r: Result<HookInstallStatus, HookConfigError>)
    ensures
        existing is None ==> (r matches Ok(s) && s.path@ == path@ && !s.installed && !s.changed
            && s.events_found == 0 && s.events_expected == 9),
        existing matches Some(b) ==> (json_parsed(b@) is None ==> r matches Err(HookConfigError::Parse(_))),
        existing matches Some(b) ==> (json_parsed(b@) matches Some(d) ==> match document_error(d) {
            Some(e) => r == Err::<HookInstallStatus, HookConfigError>(e),
            None => (r matches Ok(s) && shows_status(s, path@, d, command@, false)),
        }),
{
    match existing {
        None => Ok(empty_status(path)),
        Some(b) => {
            let doc = match parse_json(b) {
                Ok(d) => d,
                Err(m) => return Err(HookConfigError::Parse(m)),
            };
            if let Err(e) = validate_document(&doc) {
                return Err(e);
            }
            Ok(inspect_document(path, &doc, command))
        },
    }
}

/// Takes every managed handler out of the hook file whose current bytes are
/// `existing`; a missing file stays missing.
pub fn uninstall_config(existing: Option<&[u8]>, path: &str, command: &str) -> (r: Result<HookFileUpdate, HookConfigError>)
    ensures
        existing is None ==> (r matches Ok(u) && !u.status.installed && !u.status.changed
            && u.status.events_found == 0 && u.status.path@ == path@ && u.contents is None),
        existing matches Some(b) ==> (json_parsed(b@) is None ==> r matches Err(HookConfigError::Parse(_))),
        existing matches Some(b) ==> (json_parsed(b@) matches Some(d) ==> match uninstallation(d) {
            Ok((a, changed)) => (r matches Ok(u) && shows_update(u, path@, a, command@, changed)),
            Err(e) => r == Err::<HookFileUpdate, HookConfigError>(e),
        }),
        r matches Ok(u) ==> (u.contents matches Some(c) ==> (json_parsed(c@) matches Some(p)
            && uninstallation(p) == Ok::<(JsonView, bool), HookConfigError>((p, false)))),
{
    match existing {
        None => Ok(HookFileUpdate { status: empty_status(path), contents: None }),
        Some(b) => {
            let doc = match parse_json(b) {
                Ok(d) => d,
                Err(m) => return Err(HookConfigError::Parse(m)),
            };
            let ghost d = doc@;
            match uninstall_document(doc) {
                Ok((a, changed)) => {
                    let mut status = inspect_document(path, &a, command);
                    status.changed = changed;
                    proof {
                        lemma_uninstallation_sound(d);
                    }
                    let contents = if changed {
                        let bytes = file_contents(&a);
                        proof {
                            let p = json_parsed(bytes@)->0;
                            lemma_reuninstall_changes_nothing(d, p);
                        }
                        Some(bytes)
                    } else {
                        None
                    };
                    Ok(HookFileUpdate { status, contents })
                },
                Err(e) => Err(e),
            }
        },
    }
}

// ---------------------------------------------------------------------------
// What removing and adding do
// ---------------------------------------------------------------------------

proof fn lemma_kept_handlers(hs: Seq<JsonView>)
    ensures
        managed_count(kept_handlers(hs)) == 0,
        kept_handlers(hs).len() + managed_count(hs) == hs.len(),
        managed_count(hs) == 0 ==> kept_handlers(hs) == hs,
    decreases hs.len(),
{
    if hs.len() > 0 {
        lemma_kept_handlers(hs.drop_last());
        let k = kept_handlers(hs.drop_last());
        if !is_managed_handler(hs.last()) {
            assert(k.push(hs.last()).drop_last() =~= k);
        }
        if managed_count(hs) == 0 {
            assert(hs.drop_last().push(hs.last()) =~= hs);
        }
    }
}

proof fn lemma_stripped_group(g: JsonView)
    ensures
        match stripped_group(g) {
            Some(g2) => group_managed(g2) == 0,
            None => true,
        },
        group_managed(g) == 0 ==> stripped_group(g) == Some(g),
{
    reveal_strlit("hooks");
    match g {
        JsonView::Object(ms) => match member_value(ms, "hooks"@) {
            Some(JsonView::Array(hs)) => {
                lemma_kept_handlers(hs);
                lemma_set_member(ms, "hooks"@, JsonView::Array(kept_handlers(hs)), "hooks"@);
                if group_managed(g) == 0 {
                    lemma_set_member_same(ms, "hooks"@, JsonView::Array(hs));
                }
            },
            _ => {},
        },
        _ => {},
    }
}

proof fn lemma_stripped_groups(gs: Seq<JsonView>)
    ensures
        groups_managed(stripped_groups(gs)) == 0,
        groups_managed(gs) == 0 ==> stripped_groups(gs) == gs,
    decreases gs.len(),
{
    if gs.len() > 0 {
        lemma_stripped_groups(gs.drop_last());
        lemma_stripped_group(gs.last());
        let r = stripped_groups(gs.drop_last());
        match stripped_group(gs.last()) {
            Some(g) => {
                assert(r.push(g).drop_last() =~= r);
            },
            None => {},
        }
        if groups_managed(gs) == 0 {
            assert(gs.drop_last().push(gs.last()) =~= gs);
        }
    }
}

proof fn lemma_stripped_events(hm: Members)
    ensures
        events_managed(stripped_events(hm)) == 0,
        events_managed(hm) == 0 ==> stripped_events(hm) == hm,
    decreases hm.len(),
{
    if hm.len() > 0 {
        lemma_stripped_events(hm.drop_last());
        let rest = stripped_events(hm.drop_last());
        let (k, v) = hm.last();
        match v {
            JsonView::Array(gs) => {
                lemma_stripped_groups(gs);
                let e = (k, JsonView::Array(stripped_groups(gs)));
                assert(rest.push(e).drop_last() =~= rest);
            },
            _ => {
                assert(rest.push((k, v)).drop_last() =~= rest);
            },
        }
        if events_managed(hm) == 0 {
            assert(hm.drop_last().push(hm.last()) =~= hm);
        }
    }
}

/// After removal no managed handler is left, the count is of those that
/// were there, and the document is still a hook configuration.
proof fn lemma_removal(d: JsonView)
    requires
        document_error(d) is None,
    ensures
        match removal(d) {
            Ok((r, n)) => events_managed(hooks_of(r)) == 0 && n == events_managed(hooks_of(d))
                && document_error(r) is None,
            Err(_) => false,
        },
{
    reveal_strlit("hooks");
    if let JsonView::Object(root) = d {
        if let Some(JsonView::Object(hm)) = member_value(root, "hooks"@) {
            lemma_stripped_events(hm);
            lemma_set_member(root, "hooks"@, JsonView::Object(stripped_events(hm)), "hooks"@);
        }
    }
}

proof fn lemma_events_managed_update(hm: Members, i: int, e: (Seq<char>, JsonView))
    requires
        0 <= i < hm.len(),
    ensures
        events_managed(hm.update(i, e)) + event_managed(hm[i].1) == events_managed(hm)
            + event_managed(e.1),
    decreases hm.len(),
{
    let u = hm.update(i, e);
    if i < hm.len() - 1 {
        assert(u.drop_last() =~= hm.drop_last().update(i, e));
        lemma_events_managed_update(hm.drop_last(), i, e);
    } else {
        assert(u.drop_last() =~= hm.drop_last());
    }
}

proof fn lemma_managed_handler(command: Seq<char>)
    ensures
        is_managed_handler(managed_handler(command)),
        is_expected_handler(managed_handler(command), command),
{
    reveal_strlit("type");
    reveal_strlit("command");
    reveal_strlit("timeout");
    reveal_strlit("env");
    reveal_strlit("GROK_BRIDGE_MANAGED");
    reveal_strlit("GROK_BRIDGE_HOOK_PROTOCOL");
    let env = seq![
        (MANAGED_ENV_NAME@, JsonView::Str(MANAGED_ENV_VALUE@)),
        (PROTOCOL_ENV_NAME@, JsonView::Str(PROTOCOL_ENV_VALUE@)),
    ];
    let ms = seq![
        ("type"@, JsonView::Str("command"@)),
        ("command"@, JsonView::Str(command)),
        ("timeout"@, JsonView::Number("2"@, Some(2u64))),
        ("env"@, JsonView::Object(env)),
    ];
    assert("timeout"@[0] != "command"@[0]);
    assert("type"@.len() == 4 && "command"@.len() == 7 && "timeout"@.len() == 7 && "env"@.len()
        == 3);
    assert(ms[0].0 == "type"@ && ms[1].0 == "command"@ && ms[2].0 == "timeout"@ && ms[3].0
        == "env"@);
    assert forall|j: int| 0 <= j < 2 implies #[trigger] ms[j].0 != "timeout"@ by {
        if j == 0 {
        } else {
        }
    }
    assert forall|j: int| 0 <= j < 3 implies #[trigger] ms[j].0 != "env"@ by {
        if j == 0 {
        } else if j == 1 {
        } else {
        }
    }
    lemma_member_index_first(ms, "type"@, 0);
    lemma_member_index_first(ms, "command"@, 1);
    lemma_member_index_first(ms, "timeout"@, 2);
    lemma_member_index_first(ms, "env"@, 3);
    assert(MANAGED_ENV_NAME@.len() == 19 && PROTOCOL_ENV_NAME@.len() == 25);
    assert(env[0].0 == MANAGED_ENV_NAME@);
    lemma_member_index_first(env, MANAGED_ENV_NAME@, 0);
    lemma_member_index_first(env, PROTOCOL_ENV_NAME@, 1);
}

proof fn lemma_managed_group(command: Seq<char>, tool: bool)
    ensures
        group_managed(managed_group(command, tool)) == 1,
        group_matches(managed_group(command, tool), tool, command),
{
    reveal_strlit("hooks");
    reveal_strlit("matcher");
    lemma_managed_handler(command);
    let h = managed_handler(command);
    assert(seq![h].drop_last() =~= Seq::<JsonView>::empty());
    assert(seq![h].last() == h);
    assert(managed_count(Seq::<JsonView>::empty()) == 0);
    assert(any_expected(Seq::<JsonView>::empty(), command) == false);
    assert(managed_count(seq![h]) == 1);
    assert(any_expected(seq![h], command));
    if tool {
        let ms = seq![("matcher"@, JsonView::Str(".*"@)), ("hooks"@, JsonView::Array(seq![h]))];
        assert("matcher"@.len() == 7 && "hooks"@.len() == 5);
        assert(ms[0].0 == "matcher"@);
        lemma_member_index_first(ms, "matcher"@, 0);
        lemma_member_index_first(ms, "hooks"@, 1);
    } else {
        let ms = seq![("hooks"@, JsonView::Array(seq![h]))];
        assert("matcher"@.len() == 7 && "hooks"@.len() == 5);
        assert(ms[0].0 == "hooks"@);
        assert forall|j: int| 0 <= j < ms.len() implies #[trigger] ms[j].0 != "matcher"@ by {
            assert(j == 0);
        }
        lemma_member_index_first(ms, "hooks"@, 0);
        lemma_member_index_none(ms, "matcher"@);
    }
}

proof fn lemma_with_event(hm: Members, name: Seq<char>, tool: bool, command: Seq<char>, other: Seq<char>)
    ensures
        match with_event(hm, name, tool, command) {
            Some(h2) => events_managed(h2) == events_managed(hm) + 1 && event_has_expected(
                h2,
                name,
                tool,
                command,
            ) && (other != name ==> member_value(h2, other) == member_value(hm, other)),
            None => true,
        },
{
    lemma_member_index(hm, name);
    lemma_managed_group(command, tool);
    let g = managed_group(command, tool);
    let i = member_index(hm, name);
    if i < 0 {
        let v = JsonView::Array(seq![g]);
        let h2 = hm.push((name, v));
        lemma_set_member(hm, name, v, other);
        assert(h2.drop_last() =~= hm);
        assert(seq![g].drop_last() =~= Seq::<JsonView>::empty());
        assert(seq![g].last() == g);
        assert(groups_managed(Seq::<JsonView>::empty()) == 0);
        assert(any_group_matches(Seq::<JsonView>::empty(), tool, command) == false);
        assert(groups_managed(seq![g]) == 1);
        assert(events_managed(h2) == events_managed(hm) + 1);
        assert(member_value(h2, name) == Some(v));
        assert(any_group_matches(seq![g], tool, command));
    } else if let JsonView::Array(gs) = hm[i].1 {
        let v = JsonView::Array(gs.push(g));
        let h2 = hm.update(i, (name, v));
        lemma_set_member(hm, name, v, other);
        lemma_events_managed_update(hm, i, (name, v));
        assert(gs.push(g).drop_last() =~= gs);
        assert(gs.push(g).last() == g);
        assert(groups_managed(gs.push(g)) == groups_managed(gs) + 1);
        assert(events_managed(h2) == events_managed(hm) + 1);
        assert(member_value(h2, name) == Some(v));
        assert(any_group_matches(gs.push(g), tool, command));
    }
}

proof fn lemma_event_names_distinct()
    ensures
        forall|i: int, j: int|
            0 <= i < 9 && 0 <= j < 9 && i != j ==> #[trigger] hook_event_names()[i]
                != #[trigger] hook_event_names()[j],
{
    reveal_strlit("SessionStart");
    reveal_strlit("UserPromptSubmit");
    reveal_strlit("Stop");
    reveal_strlit("StopFailure");
    reveal_strlit("SessionEnd");
    reveal_strlit("PreToolUse");
    reveal_strlit("PostToolUse");
    reveal_strlit("PostToolUseFailure");
    reveal_strlit("Notification");
    let s = hook_event_names();
    assert(s[0].len() == 12 && s[0][0] == 'S');
    assert(s[1].len() == 16 && s[1][0] == 'U');
    assert(s[2].len() == 4 && s[2][0] == 'S');
    assert(s[3].len() == 11 && s[3][0] == 'S');
    assert(s[4].len() == 10 && s[4][0] == 'S');
    assert(s[5].len() == 10 && s[5][0] == 'P');
    assert(s[6].len() == 11 && s[6][0] == 'P');
    assert(s[7].len() == 18 && s[7][0] == 'P');
    assert(s[8].len() == 12 && s[8][0] == 'N');
    assert forall|i: int, j: int| 0 <= i < 9 && 0 <= j < 9 && i != j implies s[i] != s[j] by {
        assert(i == 0 || i == 1 || i == 2 || i == 3 || i == 4 || i == 5 || i == 6 || i == 7 || i
            == 8);
        assert(j == 0 || j == 1 || j == 2 || j == 3 || j == 4 || j == 5 || j == 6 || j == 7 || j
            == 8);
        if s[i] == s[j] {
            assert(s[i].len() == s[j].len());
            assert(s[i][0] == s[j][0]);
        }
    }
}

proof fn lemma_with_events(hm: Members, command: Seq<char>, n: nat)
    requires
        n <= 9,
    ensures
        match with_events(hm, command, n) {
            Ok(h) => events_managed(h) == events_managed(hm) + n && forall|j: int|
                0 <= j < n ==> event_has_expected(
                    h,
                    #[trigger] hook_event_names()[j],
                    hook_event_is_tool(j),
                    command,
                ),
            Err(_) => true,
        },
    decreases n,
{
    if n > 0 {
        lemma_with_events(hm, command, (n - 1) as nat);
        if let Ok(h) = with_events(hm, command, (n - 1) as nat) {
            let name = hook_event_names()[n - 1];
            let tool = hook_event_is_tool(n - 1);
            lemma_with_event(h, name, tool, command, name);
            if let Some(h2) = with_event(h, name, tool, command) {
                lemma_event_names_distinct();
                assert forall|j: int| 0 <= j < n implies event_has_expected(
                    h2,
                    #[trigger] hook_event_names()[j],
                    hook_event_is_tool(j),
                    command,
                ) by {
                    if j < n - 1 {
                        lemma_with_event(h, name, tool, command, hook_event_names()[j]);
                    }
                }
            }
        }
    }
}

proof fn lemma_events_found_all(hm: Members, command: Seq<char>, n: nat)
    requires
        n <= 9,
        forall|j: int|
            0 <= j < n ==> event_has_expected(
                hm,
                #[trigger] hook_event_names()[j],
                hook_event_is_tool(j),
                command,
            ),
    ensures
        events_found(hm, command, n) == n,
    decreases n,
{
    if n > 0 {
        lemma_events_found_all(hm, command, (n - 1) as nat);
        assert(event_has_expected(hm, hook_event_names()[n - 1], hook_event_is_tool(n - 1), command));
    }
}

proof fn lemma_events_found_none(hm: Members, command: Seq<char>, n: nat)
    requires
        events_managed(hm) == 0,
    ensures
        events_found(hm, command, n) == 0,
    decreases n,
{
    if n > 0 {
        lemma_events_found_none(hm, command, (n - 1) as nat);
        lemma_expected_is_counted(hm, hook_event_names()[n - 1], hook_event_is_tool(n - 1), command);
    }
}

proof fn lemma_any_expected_counted(hs: Seq<JsonView>, command: Seq<char>)
    ensures
        any_expected(hs, command) ==> managed_count(hs) > 0,
    decreases hs.len(),
{
    if hs.len() > 0 {
        lemma_any_expected_counted(hs.drop_last(), command);
    }
}

proof fn lemma_any_group_counted(gs: Seq<JsonView>, tool: bool, command: Seq<char>)
    ensures
        any_group_matches(gs, tool, command) ==> groups_managed(gs) > 0,
    decreases gs.len(),
{
    if gs.len() > 0 {
        lemma_any_group_counted(gs.drop_last(), tool, command);
        if let Some(hs) = group_handlers(gs.last()) {
            lemma_any_expected_counted(hs, command);
        }
    }
}

proof fn lemma_member_counted(hm: Members, name: Seq<char>)
    ensures
        match member_value(hm, name) {
            Some(v) => events_managed(hm) >= event_managed(v),
            None => true,
        },
    decreases hm.len(),
{
    if hm.len() > 0 {
        lemma_member_counted(hm.drop_last(), name);
        lemma_member_index(hm.drop_last(), name);
        let i = member_index(hm.drop_last(), name);
        if i >= 0 {
            assert(hm.drop_last()[i] == hm[i]);
        }
    }
}

proof fn lemma_expected_is_counted(hm: Members, name: Seq<char>, tool: bool, command: Seq<char>)
    ensures
        event_has_expected(hm, name, tool, command) ==> events_managed(hm) > 0,
{
    lemma_member_counted(hm, name);
    if let Some(JsonView::Array(gs)) = member_value(hm, name) {
        lemma_any_group_counted(gs, tool, command);
    }
}

/// Adding the hooks to a document without managed handlers installs them.
proof fn lemma_addition(d: JsonView, command: Seq<char>)
    requires
        document_error(d) is None,
        events_managed(hooks_of(d)) == 0,
    ensures
        match addition(d, command) {
            Ok(a) => installed(a, command) && document_error(a) is None,
            Err(_) => true,
        },
{
    reveal_strlit("hooks");
    if let JsonView::Object(root) = d {
        let root1 = if member_index(root, "hooks"@) >= 0 {
            root
        } else {
            root.push(("hooks"@, JsonView::Object(Seq::empty())))
        };
        lemma_set_member(root, "hooks"@, JsonView::Object(Seq::empty()), "hooks"@);
        assert(Seq::<(Seq<char>, JsonView)>::empty().len() == 0);
        if let Some(JsonView::Object(hm)) = member_value(root1, "hooks"@) {
            lemma_with_events(hm, command, 9);
            if let Ok(h2) = with_events(hm, command, 9) {
                lemma_set_member(root1, "hooks"@, JsonView::Object(h2), "hooks"@);
                lemma_events_found_all(h2, command, 9);
            }
        }
    }
}

/// Installing leaves the document with exactly the expected hooks, and it
/// changes the document exactly when they were not installed before.
pub proof fn lemma_installation_installs(d: JsonView, command: Seq<char>)
    ensures
        match installation(d, command) {
            Ok((a, changed)) => installed(a, command) && document_error(a) is None && changed
                == !installed(d, command),
            Err(_) => true,
        },
{
    if document_error(d) is None && !installed(d, command) {
        lemma_removal(d);
        if let Ok((r, _)) = removal(d) {
            lemma_addition(r, command);
        }
    }
}

/// Installing twice is installing once: the second time finds the hooks in
/// place and changes nothing.
pub proof fn lemma_installation_is_idempotent(d: JsonView, command: Seq<char>)
    ensures
        match installation(d, command) {
            Ok((a, _)) => installation(a, command) == Ok::<(JsonView, bool), HookConfigError>(
                (a, false),
            ),
            Err(_) => true,
        },
{
    lemma_installation_installs(d, command);
}

/// Uninstalling takes out every managed handler, so no installed event is
/// left and a second uninstall changes nothing; it reports a change exactly
/// when a managed handler was there.
pub proof fn lemma_uninstallation_clears(d: JsonView, command: Seq<char>)
    ensures
        match uninstallation(d) {
            Ok((r, changed)) => events_managed(hooks_of(r)) == 0 && events_found(
                hooks_of(r),
                command,
                9,
            ) == 0 && !installed(r, command) && changed == (events_managed(hooks_of(d)) != 0)
                && uninstallation(r) == Ok::<(JsonView, bool), HookConfigError>((r, false)),
            Err(_) => true,
        },
{
    reveal_strlit("hooks");
    if document_error(d) is None {
        lemma_removal(d);
        if let Ok((r, n)) = removal(d) {
            lemma_events_found_none(hooks_of(r), command, 9);
            lemma_removal(r);
            if let JsonView::Object(root) = r {
                if let Some(JsonView::Object(hm)) = member_value(root, "hooks"@) {
                    lemma_stripped_events(hm);
                    lemma_set_member_same(root, "hooks"@, JsonView::Object(hm));
                }
            }
        }
    }
}

// ---------------------------------------------------------------------------
// Foreign hooks
// ---------------------------------------------------------------------------

/// The handlers of a group that this tool does not manage.
pub open spec fn group_foreign(g: JsonView) -> Seq<JsonView> {
    match group_handlers(g) {
        Some(hs) => kept_handlers(hs),
        None => Seq::empty(),
    }
}

pub open spec fn groups_foreign(gs: Seq<JsonView>) -> Seq<JsonView>
    decreases gs.len(),
{
    if gs.len() == 0 {
        Seq::empty()
    } else {
        groups_foreign(gs.drop_last()) + group_foreign(gs.last())
    }
}

pub open spec fn event_foreign(v: JsonView) -> Seq<JsonView> {
    match v {
        JsonView::Array(gs) => groups_foreign(gs),
        _ => Seq::empty(),
    }
}

/// Every handler that this tool does not manage, in order, with its event.
pub open spec fn foreign_handlers(hm: Members) -> Seq<(Seq<char>, JsonView)>
    decreases hm.len(),
{
    if hm.len() == 0 {
        Seq::empty()
    } else {
        foreign_handlers(hm.drop_last()) + event_foreign(hm.last().1).map_values(
            |h: JsonView| (hm.last().0, h),
        )
    }
}

proof fn lemma_stripped_group_foreign(g: JsonView)
    ensures
        match stripped_group(g) {
            Some(g2) => group_foreign(g2) == group_foreign(g),
            None => group_foreign(g) == Seq::<JsonView>::empty(),
        },
{
    reveal_strlit("hooks");
    if let JsonView::Object(ms) = g {
        if let Some(JsonView::Array(hs)) = member_value(ms, "hooks"@) {
            lemma_kept_handlers(hs);
            lemma_kept_handlers(kept_handlers(hs));
            lemma_set_member(ms, "hooks"@, JsonView::Array(kept_handlers(hs)), "hooks"@);
        }
    }
}

proof fn lemma_stripped_groups_foreign(gs: Seq<JsonView>)
    ensures
        groups_foreign(stripped_groups(gs)) == groups_foreign(gs),
    decreases gs.len(),
{
    if gs.len() > 0 {
        lemma_stripped_groups_foreign(gs.drop_last());
        lemma_stripped_group_foreign(gs.last());
        let r = stripped_groups(gs.drop_last());
        match stripped_group(gs.last()) {
            Some(g) => {
                assert(r.push(g).drop_last() =~= r);
            },
            None => {
                assert(groups_foreign(gs) =~= groups_foreign(gs.drop_last()));
            },
        }
    }
}

proof fn lemma_event_foreign_kept(k: Seq<char>, v: JsonView)
    ensures
        event_foreign(v).map_values(|h: JsonView| (k, h)) == Seq::<(Seq<char>, JsonView)>::empty()
            <== event_foreign(v).len() == 0,
{
    assert(event_foreign(v).map_values(|h: JsonView| (k, h)).len() == event_foreign(v).len());
    if event_foreign(v).len() == 0 {
        assert(event_foreign(v).map_values(|h: JsonView| (k, h)) =~= Seq::<(Seq<char>, JsonView)>::empty());
    }
}

proof fn lemma_stripped_events_foreign(hm: Members)
    ensures
        foreign_handlers(stripped_events(hm)) == foreign_handlers(hm),
    decreases hm.len(),
{
    if hm.len() > 0 {
        lemma_stripped_events_foreign(hm.drop_last());
        let rest = stripped_events(hm.drop_last());
        let (k, v) = hm.last();
        match v {
            JsonView::Array(gs) => {
                lemma_stripped_groups_foreign(gs);
                let e = (k, JsonView::Array(stripped_groups(gs)));
                assert(rest.push(e).drop_last() =~= rest);
                if groups_managed(gs) != 0 && stripped_groups(gs).len() == 0 {
                    assert(groups_foreign(stripped_groups(gs)) =~= Seq::<JsonView>::empty());
                    lemma_event_foreign_kept(k, v);
                    assert(foreign_handlers(hm) =~= foreign_handlers(hm.drop_last()));
                }
            },
            _ => {
                assert(rest.push((k, v)).drop_last() =~= rest);
            },
        }
    }
}

proof fn lemma_foreign_update(hm: Members, i: int, v: JsonView)
    requires
        0 <= i < hm.len(),
        event_foreign(v) == event_foreign(hm[i].1),
    ensures
        foreign_handlers(hm.update(i, (hm[i].0, v))) == foreign_handlers(hm),
    decreases hm.len(),
{
    let u = hm.update(i, (hm[i].0, v));
    if i < hm.len() - 1 {
        assert(u.drop_last() =~= hm.drop_last().update(i, (hm[i].0, v)));
        lemma_foreign_update(hm.drop_last(), i, v);
    } else {
        assert(u.drop_last() =~= hm.drop_last());
    }
}

proof fn lemma_managed_group_foreign(command: Seq<char>, tool: bool)
    ensures
        group_foreign(managed_group(command, tool)) == Seq::<JsonView>::empty(),
{
    lemma_managed_group(command, tool);
    reveal_strlit("hooks");
    reveal_strlit("matcher");
    lemma_managed_handler(command);
    let h = managed_handler(command);
    assert(seq![h].drop_last() =~= Seq::<JsonView>::empty());
    assert(kept_handlers(Seq::<JsonView>::empty()) == Seq::<JsonView>::empty());
    if tool {
        let ms = seq![("matcher"@, JsonView::Str(".*"@)), ("hooks"@, JsonView::Array(seq![h]))];
        assert("matcher"@.len() == 7 && "hooks"@.len() == 5);
        assert(ms[0].0 == "matcher"@);
        lemma_member_index_first(ms, "hooks"@, 1);
    } else {
        let ms = seq![("hooks"@, JsonView::Array(seq![h]))];
        lemma_member_index_first(ms, "hooks"@, 0);
    }
}

proof fn lemma_with_event_foreign(hm: Members, name: Seq<char>, tool: bool, command: Seq<char>)
    ensures
        match with_event(hm, name, tool, command) {
            Some(h2) => foreign_handlers(h2) == foreign_handlers(hm),
            None => true,
        },
{
    lemma_member_index(hm, name);
    lemma_managed_group_foreign(command, tool);
    let g = managed_group(command, tool);
    let i = member_index(hm, name);
    assert(seq![g].drop_last() =~= Seq::<JsonView>::empty());
    if i < 0 {
        let v = JsonView::Array(seq![g]);
        let h2 = hm.push((name, v));
        assert(h2.drop_last() =~= hm);
        assert(seq![g].last() == g);
        assert(groups_foreign(Seq::<JsonView>::empty()) == Seq::<JsonView>::empty());
        assert(groups_foreign(seq![g]) =~= Seq::<JsonView>::empty());
        lemma_event_foreign_kept(name, v);
        assert(foreign_handlers(h2) =~= foreign_handlers(hm));
    } else if let JsonView::Array(gs) = hm[i].1 {
        let v = JsonView::Array(gs.push(g));
        assert(gs.push(g).drop_last() =~= gs);
        assert(groups_foreign(gs.push(g)) =~= groups_foreign(gs));
        lemma_foreign_update(hm, i, v);
    }
}

proof fn lemma_with_events_foreign(hm: Members, command: Seq<char>, n: nat)
    ensures
        match with_events(hm, command, n) {
            Ok(h) => foreign_handlers(h) == foreign_handlers(hm),
            Err(_) => true,
        },
    decreases n,
{
    if n > 0 {
        lemma_with_events_foreign(hm, command, (n - 1) as nat);
        if let Ok(h) = with_events(hm, command, (n - 1) as nat) {
            lemma_with_event_foreign(h, hook_event_names()[n - 1], hook_event_is_tool(n - 1), command);
        }
    }
}

/// Installing keeps every hook that this tool does not manage, in order and
/// under its event, and every other member of the document.
pub proof fn lemma_installation_keeps_foreign_hooks(d: JsonView, command: Seq<char>, key: Seq<char>)
    requires
        key != "hooks"@,
    ensures
        match installation(d, command) {
            Ok((a, _)) => foreign_handlers(hooks_of(a)) == foreign_handlers(hooks_of(d)) && get(a, key)
                == get(d, key),
            Err(_) => true,
        },
{
    reveal_strlit("hooks");
    if document_error(d) is None && !installed(d, command) {
        if let JsonView::Object(root) = d {
            let r = match member_value(root, "hooks"@) {
                Some(JsonView::Object(hm)) => {
                    lemma_stripped_events_foreign(hm);
                    lemma_set_member(root, "hooks"@, JsonView::Object(stripped_events(hm)), "hooks"@);
                    lemma_set_member(root, "hooks"@, JsonView::Object(stripped_events(hm)), key);
                    set_member(root, "hooks"@, JsonView::Object(stripped_events(hm)))
                },
                _ => root,
            };
            let root1 = if member_index(r, "hooks"@) >= 0 {
                r
            } else {
                r.push(("hooks"@, JsonView::Object(Seq::empty())))
            };
            lemma_set_member(r, "hooks"@, JsonView::Object(Seq::empty()), "hooks"@);
            lemma_set_member(r, "hooks"@, JsonView::Object(Seq::empty()), key);
            if let Some(JsonView::Object(hm)) = member_value(root1, "hooks"@) {
                lemma_with_events_foreign(hm, command, 9);
                if let Ok(h2) = with_events(hm, command, 9) {
                    lemma_set_member(root1, "hooks"@, JsonView::Object(h2), "hooks"@);
                    lemma_set_member(root1, "hooks"@, JsonView::Object(h2), key);
                }
            }
            assert(foreign_handlers(Seq::<(Seq<char>, JsonView)>::empty()) == Seq::<(Seq<char>, JsonView)>::empty());
        }
    }
}

/// Uninstalling keeps every hook that this tool does not manage, in order
/// and under its event, and every other member of the document.
pub proof fn lemma_uninstallation_keeps_foreign_hooks(d: JsonView, key: Seq<char>)
    requires
        key != "hooks"@,
    ensures
        match uninstallation(d) {
            Ok((a, _)) => foreign_handlers(hooks_of(a)) == foreign_handlers(hooks_of(d)) && get(a, key)
                == get(d, key),
            Err(_) => true,
        },
{
    reveal_strlit("hooks");
    if let JsonView::Object(root) = d {
        if let Some(JsonView::Object(hm)) = member_value(root, "hooks"@) {
            lemma_stripped_events_foreign(hm);
            lemma_set_member(root, "hooks"@, JsonView::Object(stripped_events(hm)), "hooks"@);
            lemma_set_member(root, "hooks"@, JsonView::Object(stripped_events(hm)), key);
        }
    }
}


// ---------------------------------------------------------------------------
// The file read back
// ---------------------------------------------------------------------------

/// A value read back is of the kind it was, and a text comes back as it was.
proof fn lemma_reparsed_kind(p: JsonView, v: JsonView)
    requires
        reparsed_as(p, v),
    ensures
        p is Object <==> v is Object,
        p is Array <==> v is Array,
        v is Str ==> p == v,
        p is Str ==> p == v,
{
}

/// A member of a value read back is the member it was, read back.
proof fn lemma_reparsed_member(p: JsonView, v: JsonView, key: Seq<char>)
    requires
        reparsed_as(p, v),
    ensures
        get(v, key) matches Some(x) ==> (get(p, key) matches Some(y) && reparsed_as(y, x)),
        get(v, key) is None ==> get(p, key) is None,
{
    lemma_reparsed_kind(p, v);
    match (p, v) {
        (JsonView::Object(pms), JsonView::Object(ms)) => {
            lemma_member_index(ms, key);
            lemma_member_index(pms, key);
            let i = member_index(ms, key);
            if i >= 0 {
                assert(member_index(pms, ms[i].0) >= 0);
            }
            let j = member_index(pms, key);
            if j >= 0 {
                assert(member_index(ms, pms[j].0) >= 0);
            }
        },
        _ => {},
    }
}

/// Whether a handler is managed does not change when it is read back.
proof fn lemma_managed_reparsed(p: JsonView, v: JsonView)
    requires
        reparsed_as(p, v),
    ensures
        is_managed_handler(p) == is_managed_handler(v),
{
    lemma_reparsed_member(p, v, "env"@);
    if let Some(x) = get(v, "env"@) {
        let y = get(p, "env"@)->0;
        lemma_reparsed_kind(y, x);
        lemma_reparsed_member(y, x, MANAGED_ENV_NAME@);
        if let Some(z) = get(x, MANAGED_ENV_NAME@) {
            lemma_reparsed_kind(get(y, MANAGED_ENV_NAME@)->0, z);
        }
    }
}

/// The expected handler is still expected when it is read back.
proof fn lemma_expected_reparsed(p: JsonView, v: JsonView, command: Seq<char>)
    requires
        reparsed_as(p, v),
        is_expected_handler(v, command),
    ensures
        is_expected_handler(p, command),
{
    lemma_managed_reparsed(p, v);
    lemma_reparsed_member(p, v, "env"@);
    let x = get(v, "env"@)->0;
    let y = get(p, "env"@)->0;
    lemma_reparsed_kind(y, x);
    lemma_reparsed_member(y, x, PROTOCOL_ENV_NAME@);
    lemma_reparsed_kind(get(y, PROTOCOL_ENV_NAME@)->0, get(x, PROTOCOL_ENV_NAME@)->0);
    lemma_reparsed_member(p, v, "type"@);
    lemma_reparsed_kind(get(p, "type"@)->0, get(v, "type"@)->0);
    lemma_reparsed_member(p, v, "command"@);
    lemma_reparsed_kind(get(p, "command"@)->0, get(v, "command"@)->0);
    lemma_reparsed_member(p, v, "timeout"@);
}

/// Two item sequences, the first read back from the second.
pub open spec fn items_reparsed(ps: Seq<JsonView>, vs: Seq<JsonView>) -> bool {
    ps.len() == vs.len() && forall|i: int| 0 <= i < vs.len() ==> reparsed_as(#[trigger] ps[i], vs[i])
}

proof fn lemma_items_reparsed_drop_last(ps: Seq<JsonView>, vs: Seq<JsonView>)
    requires
        items_reparsed(ps, vs),
        vs.len() > 0,
    ensures
        items_reparsed(ps.drop_last(), vs.drop_last()),
        reparsed_as(ps.last(), vs.last()),
{
    assert forall|i: int| 0 <= i < vs.drop_last().len() implies reparsed_as(
        #[trigger] ps.drop_last()[i],
        vs.drop_last()[i],
    ) by {
        assert(reparsed_as(ps[i], vs[i]));
    }
    assert(reparsed_as(ps[vs.len() - 1], vs[vs.len() - 1]));
}

proof fn lemma_array_reparsed(p: JsonView, v: JsonView)
    requires
        reparsed_as(p, v),
        v is Array,
    ensures
        p is Array,
        items_reparsed(p->Array_0, v->Array_0),
{
}

proof fn lemma_managed_count_reparsed(ps: Seq<JsonView>, vs: Seq<JsonView>)
    requires
        items_reparsed(ps, vs),
    ensures
        managed_count(ps) == managed_count(vs),
    decreases vs.len(),
{
    if vs.len() > 0 {
        lemma_items_reparsed_drop_last(ps, vs);
        lemma_managed_count_reparsed(ps.drop_last(), vs.drop_last());
        lemma_managed_reparsed(ps.last(), vs.last());
    }
}

proof fn lemma_any_expected_reparsed(ps: Seq<JsonView>, vs: Seq<JsonView>, command: Seq<char>)
    requires
        items_reparsed(ps, vs),
        any_expected(vs, command),
    ensures
        any_expected(ps, command),
    decreases vs.len(),
{
    lemma_items_reparsed_drop_last(ps, vs);
    if any_expected(vs.drop_last(), command) {
        lemma_any_expected_reparsed(ps.drop_last(), vs.drop_last(), command);
    } else {
        lemma_expected_reparsed(ps.last(), vs.last(), command);
    }
}

/// A group's handler array, read back.
proof fn lemma_group_handlers_reparsed(p: JsonView, v: JsonView)
    requires
        reparsed_as(p, v),
    ensures
        group_handlers(v) matches Some(hs) ==> (group_handlers(p) matches Some(phs) && items_reparsed(
            phs,
            hs,
        )),
        group_handlers(v) is None ==> group_handlers(p) is None,
{
    lemma_reparsed_member(p, v, "hooks"@);
    if let Some(x) = get(v, "hooks"@) {
        let y = get(p, "hooks"@)->0;
        lemma_reparsed_kind(y, x);
        if x is Array {
            lemma_array_reparsed(y, x);
        }
    }
}

proof fn lemma_groups_managed_reparsed(ps: Seq<JsonView>, vs: Seq<JsonView>)
    requires
        items_reparsed(ps, vs),
    ensures
        groups_managed(ps) == groups_managed(vs),
    decreases vs.len(),
{
    if vs.len() > 0 {
        lemma_items_reparsed_drop_last(ps, vs);
        lemma_groups_managed_reparsed(ps.drop_last(), vs.drop_last());
        lemma_group_handlers_reparsed(ps.last(), vs.last());
        if let Some(hs) = group_handlers(vs.last()) {
            lemma_managed_count_reparsed(group_handlers(ps.last())->0, hs);
        }
    }
}

proof fn lemma_event_managed_reparsed(p: JsonView, v: JsonView)
    requires
        reparsed_as(p, v),
    ensures
        event_managed(p) == event_managed(v),
{
    lemma_reparsed_kind(p, v);
    if v is Array {
        lemma_array_reparsed(p, v);
        lemma_groups_managed_reparsed(p->Array_0, v->Array_0);
    }
}

proof fn lemma_group_matches_reparsed(p: JsonView, v: JsonView, tool: bool, command: Seq<char>)
    requires
        reparsed_as(p, v),
        group_matches(v, tool, command),
    ensures
        group_matches(p, tool, command),
{
    lemma_reparsed_kind(p, v);
    lemma_reparsed_member(p, v, "matcher"@);
    if let Some(x) = get(v, "matcher"@) {
        lemma_reparsed_kind(get(p, "matcher"@)->0, x);
    }
    lemma_member_index(p->Object_0, "matcher"@);
    lemma_member_index(v->Object_0, "matcher"@);
    lemma_group_handlers_reparsed(p, v);
    lemma_any_expected_reparsed(group_handlers(p)->0, group_handlers(v)->0, command);
}

proof fn lemma_any_group_matches_reparsed(ps: Seq<JsonView>, vs: Seq<JsonView>, tool: bool, command: Seq<char>)
    requires
        items_reparsed(ps, vs),
        any_group_matches(vs, tool, command),
    ensures
        any_group_matches(ps, tool, command),
    decreases vs.len(),
{
    lemma_items_reparsed_drop_last(ps, vs);
    if any_group_matches(vs.drop_last(), tool, command) {
        lemma_any_group_matches_reparsed(ps.drop_last(), vs.drop_last(), tool, command);
    } else {
        lemma_group_matches_reparsed(ps.last(), vs.last(), tool, command);
    }
}

proof fn lemma_events_found_reparsed(pm: Members, hm: Members, command: Seq<char>, n: nat)
    requires
        reparsed_as(JsonView::Object(pm), JsonView::Object(hm)),
        n <= 9,
    ensures
        events_found(hm, command, n) <= events_found(pm, command, n),
        events_found(pm, command, n) <= n,
    decreases n,
{
    if n > 0 {
        lemma_events_found_reparsed(pm, hm, command, (n - 1) as nat);
        let name = hook_event_names()[n - 1];
        let tool = hook_event_is_tool(n - 1);
        if event_has_expected(hm, name, tool, command) {
            lemma_reparsed_member(JsonView::Object(pm), JsonView::Object(hm), name);
            let x = member_value(hm, name)->0;
            let y = member_value(pm, name)->0;
            lemma_array_reparsed(y, x);
            lemma_any_group_matches_reparsed(y->Array_0, x->Array_0, tool, command);
        }
    }
}

/// The members of `ps` and `vs` pair off by name, each pair with the same
/// count of managed handlers.
spec fn events_matched(ps: Members, vs: Members) -> bool {
    &&& ps.len() == vs.len()
    &&& names_unique(ps)
    &&& names_unique(vs)
    &&& forall|i: int|
        0 <= i < vs.len() ==> member_index(ps, #[trigger] vs[i].0) >= 0 && event_managed(
            ps[member_index(ps, vs[i].0)].1,
        ) == event_managed(vs[i].1)
}

proof fn lemma_events_managed_remove(hm: Members, j: int)
    requires
        0 <= j < hm.len(),
    ensures
        events_managed(hm) == events_managed(hm.remove(j)) + event_managed(hm[j].1),
    decreases hm.len(),
{
    if j == hm.len() - 1 {
        assert(hm.remove(j) =~= hm.drop_last());
    } else {
        lemma_events_managed_remove(hm.drop_last(), j);
        assert(hm.remove(j).drop_last() =~= hm.drop_last().remove(j));
        assert(hm.remove(j).last() == hm.last());
    }
}

/// Counting managed handlers over the events does not depend on the order of
/// the events.
proof fn lemma_events_managed_matched(ps: Members, vs: Members)
    requires
        events_matched(ps, vs),
    ensures
        events_managed(ps) == events_managed(vs),
    decreases vs.len(),
{
    if vs.len() > 0 {
        let n = vs.len() - 1;
        let k = vs[n].0;
        let j = member_index(ps, k);
        lemma_member_index(ps, k);
        let ps2 = ps.remove(j);
        let vs2 = vs.drop_last();
        lemma_events_managed_remove(ps, j);
        assert forall|a: int, b: int| 0 <= a < b < ps2.len() implies #[trigger] ps2[a].0 != #[trigger] ps2[b].0 by {
            let a1 = if a < j { a } else { a + 1 };
            let b1 = if b < j { b } else { b + 1 };
            assert(ps2[a] == ps[a1]);
            assert(ps2[b] == ps[b1]);
            assert(ps[a1].0 != ps[b1].0);
        }
        assert forall|i: int| 0 <= i < vs2.len() implies member_index(ps2, #[trigger] vs2[i].0) >= 0
            && event_managed(ps2[member_index(ps2, vs2[i].0)].1) == event_managed(vs2[i].1) by {
            assert(vs2[i] == vs[i]);
            let name = vs[i].0;
            assert(member_index(ps, name) >= 0);
            let ji = member_index(ps, name);
            lemma_member_index(ps, name);
            assert(vs[i].0 != vs[n].0);
            let ji2 = if ji < j { ji } else { ji - 1 };
            assert(ps2[ji2] == ps[ji]);
            assert forall|x: int| 0 <= x < ji2 implies #[trigger] ps2[x].0 != name by {
                assert(ps2[x].0 != ps2[ji2].0);
            }
            lemma_member_index_first(ps2, name, ji2);
        }
        lemma_events_managed_matched(ps2, vs2);
        assert(vs2.push(vs[n]) =~= vs);
    }
}

/// The events of a hooks object, read back, hold as many managed handlers.
proof fn lemma_events_managed_reparsed(pm: Members, hm: Members)
    requires
        reparsed_as(JsonView::Object(pm), JsonView::Object(hm)),
        names_unique(pm),
        names_unique(hm),
    ensures
        events_managed(pm) == events_managed(hm),
{
    assert forall|i: int| 0 <= i < hm.len() implies member_index(pm, #[trigger] hm[i].0) >= 0
        && event_managed(pm[member_index(pm, hm[i].0)].1) == event_managed(hm[i].1) by {
        lemma_member_index(pm, hm[i].0);
        lemma_event_managed_reparsed(pm[member_index(pm, hm[i].0)].1, hm[i].1);
    }
    lemma_events_managed_matched(pm, hm);
}

/// The `hooks` object of a document read back.
proof fn lemma_hooks_reparsed(p: JsonView, v: JsonView)
    requires
        reparsed_as(p, v),
        json_sound(p, parse_depth()),
        json_sound(v, parse_depth()),
        document_error(v) is None,
    ensures
        document_error(p) is None,
        events_managed(hooks_of(p)) == events_managed(hooks_of(v)),
        reparsed_as(JsonView::Object(hooks_of(p)), JsonView::Object(hooks_of(v))),
{
    lemma_reparsed_kind(p, v);
    lemma_reparsed_member(p, v, "hooks"@);
    let root = v->Object_0;
    let proot = p->Object_0;
    lemma_member_index(root, "hooks"@);
    lemma_member_index(proot, "hooks"@);
    if let Some(x) = get(v, "hooks"@) {
        let y = get(p, "hooks"@)->0;
        lemma_reparsed_kind(y, x);
        assert(json_sound(root[member_index(root, "hooks"@)].1, (parse_depth() - 1) as nat));
        assert(json_sound(proot[member_index(proot, "hooks"@)].1, (parse_depth() - 1) as nat));
        lemma_events_managed_reparsed(y->Object_0, x->Object_0);
    } else {
        assert(reparsed_as(JsonView::Object(Seq::empty()), JsonView::Object(Seq::empty())));
    }
}

/// Installing into the file that an install wrote changes nothing: whatever
/// serde_json reads back from the written document already holds the hooks.
pub proof fn lemma_reinstall_changes_nothing(d: JsonView, command: Seq<char>, p: JsonView)
    requires
        installation(d, command) matches Ok((a, _)) && json_sound(a, parse_depth()) && json_sound(
            p,
            parse_depth(),
        ) && reparsed_as(p, a),
    ensures
        installation(p, command) == Ok::<(JsonView, bool), HookConfigError>((p, false)),
{
    lemma_installation_installs(d, command);
    let a = installation(d, command)->Ok_0.0;
    lemma_hooks_reparsed(p, a);
    lemma_events_found_reparsed(hooks_of(p), hooks_of(a), command, 9);
}

/// Uninstalling from the file that an uninstall wrote changes nothing:
/// whatever serde_json reads back from the written document holds no
/// managed handler.
pub proof fn lemma_reuninstall_changes_nothing(d: JsonView, p: JsonView)
    requires
        uninstallation(d) matches Ok((r, _)) && json_sound(r, parse_depth()) && json_sound(
            p,
            parse_depth(),
        ) && reparsed_as(p, r),
    ensures
        uninstallation(p) == Ok::<(JsonView, bool), HookConfigError>((p, false)),
{
    reveal_strlit("hooks");
    lemma_uninstallation_clears(d, ""@);
    let r = uninstallation(d)->Ok_0.0;
    lemma_removal(d);
    lemma_hooks_reparsed(p, r);
    lemma_stripped_events(hooks_of(p));
    if let JsonView::Object(root) = p {
        if let Some(JsonView::Object(hm)) = member_value(root, "hooks"@) {
            lemma_set_member_same(root, "hooks"@, JsonView::Object(hm));
        }
    }
}


// ---------------------------------------------------------------------------
// Documents that serde_json can hold
// ---------------------------------------------------------------------------

/// Every item is sound to `n`.
pub open spec fn all_sound(s: Seq<JsonView>, n: nat) -> bool {
    forall|i: int| 0 <= i < s.len() ==> json_sound(#[trigger] s[i], n)
}

/// Setting a member keeps an object sound.
proof fn lemma_set_member_sound(ms: Members, key: Seq<char>, v: JsonView, n: nat)
    requires
        json_sound(JsonView::Object(ms), n),
        json_sound(v, (n - 1) as nat),
    ensures
        json_sound(JsonView::Object(set_member(ms, key, v)), n),
{
    lemma_member_index(ms, key);
    let r = set_member(ms, key, v);
    let i = member_index(ms, key);
    assert forall|a: int, b: int| 0 <= a < b < r.len() implies #[trigger] r[a].0 != #[trigger] r[b].0 by {
        if b < ms.len() {
            assert(ms[a].0 != ms[b].0);
        }
    }
    assert forall|x: int| 0 <= x < r.len() implies json_sound(#[trigger] r[x].1, (n - 1) as nat) by {
        if x < ms.len() && x != i {
            assert(r[x] == ms[x]);
            assert(json_sound(ms[x].1, (n - 1) as nat));
        }
    }
}

proof fn lemma_kept_handlers_sound(hs: Seq<JsonView>, n: nat)
    requires
        all_sound(hs, n),
    ensures
        all_sound(kept_handlers(hs), n),
    decreases hs.len(),
{
    if hs.len() > 0 {
        assert(all_sound(hs.drop_last(), n)) by {
            assert forall|i: int| 0 <= i < hs.drop_last().len() implies json_sound(
                #[trigger] hs.drop_last()[i],
                n,
            ) by {
                assert(json_sound(hs[i], n));
            }
        }
        lemma_kept_handlers_sound(hs.drop_last(), n);
        assert(json_sound(hs[hs.len() - 1], n));
    }
}

proof fn lemma_stripped_group_sound(g: JsonView, n: nat)
    requires
        json_sound(g, n),
    ensures
        stripped_group(g) matches Some(x) ==> json_sound(x, n),
{
    if let JsonView::Object(ms) = g {
        lemma_member_index(ms, "hooks"@);
        if let Some(JsonView::Array(hs)) = member_value(ms, "hooks"@) {
            let i = member_index(ms, "hooks"@);
            assert(json_sound(ms[i].1, (n - 1) as nat));
            lemma_kept_handlers_sound(hs, (n - 2) as nat);
            lemma_set_member_sound(ms, "hooks"@, JsonView::Array(kept_handlers(hs)), n);
        }
    }
}

proof fn lemma_stripped_groups_sound(gs: Seq<JsonView>, n: nat)
    requires
        all_sound(gs, n),
    ensures
        all_sound(stripped_groups(gs), n),
    decreases gs.len(),
{
    if gs.len() > 0 {
        assert(all_sound(gs.drop_last(), n)) by {
            assert forall|i: int| 0 <= i < gs.drop_last().len() implies json_sound(
                #[trigger] gs.drop_last()[i],
                n,
            ) by {
                assert(json_sound(gs[i], n));
            }
        }
        lemma_stripped_groups_sound(gs.drop_last(), n);
        assert(json_sound(gs[gs.len() - 1], n));
        lemma_stripped_group_sound(gs.last(), n);
    }
}

proof fn lemma_stripped_events_sound(hm: Members, n: nat)
    requires
        json_sound(JsonView::Object(hm), n),
    ensures
        json_sound(JsonView::Object(stripped_events(hm)), n),
        forall|i: int|
            0 <= i < stripped_events(hm).len() ==> member_index(hm, #[trigger] stripped_events(hm)[i].0)
                >= 0,
    decreases hm.len(),
{
    if hm.len() > 0 {
        let d = hm.drop_last();
        assert(json_sound(JsonView::Object(d), n)) by {
            assert forall|a: int, b: int| 0 <= a < b < d.len() implies #[trigger] d[a].0 != #[trigger] d[b].0 by {
                assert(hm[a].0 != hm[b].0);
            }
            assert forall|x: int| 0 <= x < d.len() implies json_sound(#[trigger] d[x].1, (n - 1) as nat) by {
                assert(json_sound(hm[x].1, (n - 1) as nat));
            }
        }
        lemma_stripped_events_sound(d, n);
        let rest = stripped_events(d);
        let (k, v) = hm.last();
        assert(json_sound(hm[hm.len() - 1].1, (n - 1) as nat));
        lemma_member_index(d, k);
        assert forall|j: int| 0 <= j < d.len() implies #[trigger] d[j].0 != k by {
            assert(hm[j].0 != hm[hm.len() - 1].0);
        }
        assert forall|i: int| 0 <= i < rest.len() implies #[trigger] rest[i].0 != k by {
            assert(member_index(d, rest[i].0) >= 0);
            lemma_member_index(d, rest[i].0);
        }
        let r = stripped_events(hm);
        let nv = match v {
            JsonView::Array(gs) => JsonView::Array(stripped_groups(gs)),
            _ => v,
        };
        if let JsonView::Array(gs) = v {
            lemma_stripped_groups_sound(gs, (n - 2) as nat);
        }
        assert(json_sound(nv, (n - 1) as nat));
        if r.len() > rest.len() {
            assert(r == rest.push((k, nv)));
        } else {
            assert(r == rest);
        }
        assert forall|a: int, b: int| 0 <= a < b < r.len() implies #[trigger] r[a].0 != #[trigger] r[b].0 by {
            if b == rest.len() {
                assert(r[a] == rest[a]);
            } else {
                assert(rest[a].0 != rest[b].0);
            }
        }
        assert forall|x: int| 0 <= x < r.len() implies json_sound(#[trigger] r[x].1, (n - 1) as nat) by {
            if x < rest.len() {
                assert(r[x] == rest[x]);
            }
        }
        assert forall|i: int| 0 <= i < r.len() implies member_index(hm, #[trigger] r[i].0) >= 0 by {
            if i < rest.len() {
                assert(r[i] == rest[i]);
                assert(member_index(d, rest[i].0) >= 0);
            } else {
                lemma_member_index(hm, k);
                if member_index(d, k) < 0 {
                    assert(hm.last().0 == k);
                }
            }
        }
    }
}

/// Taking out the managed handlers keeps a document sound.
pub proof fn lemma_removal_sound(d: JsonView, n: nat)
    requires
        json_sound(d, n),
    ensures
        removal(d) matches Ok((r, _)) ==> json_sound(r, n),
{
    if let JsonView::Object(root) = d {
        lemma_member_index(root, "hooks"@);
        if let Some(JsonView::Object(hm)) = member_value(root, "hooks"@) {
            let i = member_index(root, "hooks"@);
            assert(json_sound(root[i].1, (n - 1) as nat));
            lemma_stripped_events_sound(hm, (n - 1) as nat);
            lemma_set_member_sound(root, "hooks"@, JsonView::Object(stripped_events(hm)), n);
        }
    }
}

proof fn lemma_managed_handler_sound(command: Seq<char>, n: nat)
    requires
        n >= 2,
    ensures
        json_sound(managed_handler(command), n),
{
    reveal_strlit("type");
    reveal_strlit("command");
    reveal_strlit("timeout");
    reveal_strlit("env");
    reveal_strlit("GROK_BRIDGE_MANAGED");
    reveal_strlit("GROK_BRIDGE_HOOK_PROTOCOL");
    reveal_strlit("2");
    assert(decimal_text(2) =~= "2"@);
    let env = seq![
        (MANAGED_ENV_NAME@, JsonView::Str(MANAGED_ENV_VALUE@)),
        (PROTOCOL_ENV_NAME@, JsonView::Str(PROTOCOL_ENV_VALUE@)),
    ];
    let ms = seq![
        ("type"@, JsonView::Str("command"@)),
        ("command"@, JsonView::Str(command)),
        ("timeout"@, JsonView::Number("2"@, Some(2u64))),
        ("env"@, JsonView::Object(env)),
    ];
    assert(env[0].0.len() != env[1].0.len());
    assert(names_unique(env));
    assert forall|x: int| 0 <= x < env.len() implies json_sound(#[trigger] env[x].1, (n - 2) as nat) by {
        if x == 0 {
            assert(env[x].1 == JsonView::Str(MANAGED_ENV_VALUE@));
        } else {
            assert(env[x].1 == JsonView::Str(PROTOCOL_ENV_VALUE@));
        }
    }
    assert(json_sound(JsonView::Object(env), (n - 1) as nat));
    assert forall|a: int, b: int| 0 <= a < b < ms.len() implies #[trigger] ms[a].0 != #[trigger] ms[b].0 by {
        if a == 1 && b == 2 {
            assert(ms[a].0[0] != ms[b].0[0]);
        } else {
            assert(ms[a].0.len() != ms[b].0.len());
        }
    }
    assert forall|x: int| 0 <= x < ms.len() implies json_sound(#[trigger] ms[x].1, (n - 1) as nat) by {
        if x == 0 {
            assert(ms[x].1 == JsonView::Str("command"@));
        } else if x == 1 {
            assert(ms[x].1 == JsonView::Str(command));
        } else if x == 2 {
            assert(ms[x].1 == JsonView::Number("2"@, Some(2u64)));
        } else {
            assert(ms[x].1 == JsonView::Object(env));
        }
    }
    assert(managed_handler(command) == JsonView::Object(ms));
}

proof fn lemma_managed_group_sound(command: Seq<char>, tool: bool, n: nat)
    requires
        n >= 4,
    ensures
        json_sound(managed_group(command, tool), n),
{
    reveal_strlit("hooks");
    reveal_strlit("matcher");
    lemma_managed_handler_sound(command, (n - 2) as nat);
    let h = managed_handler(command);
    assert(json_sound(JsonView::Array(seq![h]), (n - 1) as nat));
    if tool {
        let ms = seq![("matcher"@, JsonView::Str(".*"@)), ("hooks"@, JsonView::Array(seq![h]))];
        assert(ms[0].0.len() != ms[1].0.len());
        assert(names_unique(ms));
        assert forall|x: int| 0 <= x < ms.len() implies json_sound(#[trigger] ms[x].1, (n - 1) as nat) by {
            if x == 0 {
                assert(ms[x].1 == JsonView::Str(".*"@));
            } else {
                assert(ms[x].1 == JsonView::Array(seq![h]));
            }
        }
        assert(managed_group(command, tool) == JsonView::Object(ms));
    } else {
        let ms = seq![("hooks"@, JsonView::Array(seq![h]))];
        assert(names_unique(ms));
        assert forall|x: int| 0 <= x < ms.len() implies json_sound(#[trigger] ms[x].1, (n - 1) as nat) by {
            assert(ms[x].1 == JsonView::Array(seq![h]));
        }
        assert(managed_group(command, tool) == JsonView::Object(ms));
    }
}

proof fn lemma_with_events_sound(hm: Members, command: Seq<char>, k: nat, n: nat)
    requires
        json_sound(JsonView::Object(hm), n),
        n >= 6,
        k <= 9,
    ensures
        with_events(hm, command, k) matches Ok(h) ==> json_sound(JsonView::Object(h), n),
    decreases k,
{
    if k > 0 {
        lemma_with_events_sound(hm, command, (k - 1) as nat, n);
        if let Ok(h) = with_events(hm, command, (k - 1) as nat) {
            let name = hook_event_names()[k - 1];
            let tool = hook_event_is_tool(k - 1);
            let g = managed_group(command, tool);
            lemma_managed_group_sound(command, tool, (n - 2) as nat);
            lemma_member_index(h, name);
            let i = member_index(h, name);
            if i < 0 {
                assert(json_sound(JsonView::Array(seq![g]), (n - 1) as nat));
                lemma_set_member_sound(h, name, JsonView::Array(seq![g]), n);
            } else if let JsonView::Array(gs) = h[i].1 {
                assert(json_sound(h[i].1, (n - 1) as nat));
                assert(json_sound(JsonView::Array(gs.push(g)), (n - 1) as nat)) by {
                    assert forall|x: int| 0 <= x < gs.push(g).len() implies json_sound(
                        #[trigger] gs.push(g)[x],
                        (n - 2) as nat,
                    ) by {
                        if x < gs.len() {
                            assert(json_sound(gs[x], (n - 2) as nat));
                        }
                    }
                }
                lemma_set_member_sound(h, name, JsonView::Array(gs.push(g)), n);
            }
        }
    }
}

/// Adding the hooks keeps a document sound when it may nest seven deep.
proof fn lemma_addition_sound(d: JsonView, command: Seq<char>, n: nat)
    requires
        json_sound(d, n),
        n >= 7,
    ensures
        addition(d, command) matches Ok(a) ==> json_sound(a, n),
{
    reveal_strlit("hooks");
    if let JsonView::Object(root) = d {
        lemma_member_index(root, "hooks"@);
        let root1 = if member_index(root, "hooks"@) >= 0 {
            root
        } else {
            root.push(("hooks"@, JsonView::Object(Seq::empty())))
        };
        if member_index(root, "hooks"@) < 0 {
            assert(names_unique(Seq::<(Seq<char>, JsonView)>::empty()));
            assert(json_sound(JsonView::Object(Seq::empty()), (n - 1) as nat));
            lemma_set_member_sound(root, "hooks"@, JsonView::Object(Seq::empty()), n);
        }
        assert(json_sound(JsonView::Object(root1), n));
        lemma_member_index(root1, "hooks"@);
        if let Some(JsonView::Object(hm)) = member_value(root1, "hooks"@) {
            let i = member_index(root1, "hooks"@);
            assert(json_sound(root1[i].1, (n - 1) as nat));
            lemma_with_events_sound(hm, command, 9, (n - 1) as nat);
            if let Ok(h2) = with_events(hm, command, 9) {
                lemma_set_member_sound(root1, "hooks"@, JsonView::Object(h2), n);
            }
        }
    }
}

/// Installing keeps a document that serde_json can hold one it can hold.
pub proof fn lemma_installation_sound(d: JsonView, command: Seq<char>)
    requires
        json_sound(d, parse_depth()),
    ensures
        installation(d, command) matches Ok((a, _)) ==> json_sound(a, parse_depth()),
{
    lemma_removal_sound(d, parse_depth());
    if let Ok((r, _)) = removal(d) {
        lemma_addition_sound(r, command, parse_depth());
    }
}

/// Uninstalling keeps a document that serde_json can hold one it can hold.
pub proof fn lemma_uninstallation_sound(d: JsonView)
    requires
        json_sound(d, parse_depth()),
    ensures
        uninstallation(d) matches Ok((r, _)) ==> json_sound(r, parse_depth()),
{
    lemma_removal_sound(d, parse_depth());
}

} // verus!
