//! A JSON document as the library reads and edits it, and the calls into
//! serde_json that parse and print one.
use vstd::prelude::*;
use crate::text::{chars_of, str_eq};

verus! {

broadcast use vstd::string::group_string_axioms;

/// One member of a JSON object.
#[derive(Debug)]
pub struct Member {
    pub key: String,
    pub value: Json,
}

/// A JSON value. A number keeps the text that serde_json prints for it and
/// what `as_u64` gives for it; an object keeps its members in order.
#[derive(Debug)]
pub enum Json {
    Null,
    Bool(bool),
    Number(String, Option<u64>),
    Str(String),
    Array(Vec<Json>),
    Object(Vec<Member>),
}

/// The mathematical value of a `Json`.
pub enum JsonView {
    Null,
    Bool(bool),
    Number(Seq<char>, Option<u64>),
    Str(Seq<char>),
    Array(Seq<JsonView>),
    Object(Seq<(Seq<char>, JsonView)>),
}

pub open spec fn json_view(j: Json) -> JsonView
    decreases j,
{
    match j {
        Json::Null => JsonView::Null,
        Json::Bool(b) => JsonView::Bool(b),
        Json::Number(t, n) => JsonView::Number(t@, n),
        Json::Str(s) => JsonView::Str(s@),
        Json::Array(items) => JsonView::Array(items_view(items@)),
        Json::Object(members) => JsonView::Object(members_view(members@)),
    }
}

pub open spec fn items_view(s: Seq<Json>) -> Seq<JsonView>
    decreases s,
{
    if s.len() == 0 {
        Seq::<JsonView>::empty()
    } else {
        items_view(s.drop_last()).push(json_view(s.last()))
    }
}

pub open spec fn members_view(s: Seq<Member>) -> Seq<(Seq<char>, JsonView)>
    decreases s,
{
    if s.len() == 0 {
        Seq::<(Seq<char>, JsonView)>::empty()
    } else {
        members_view(s.drop_last()).push((s.last().key@, json_view(s.last().value)))
    }
}

impl View for Json {
    type V = JsonView;

    open spec fn view(&self) -> JsonView {
        json_view(*self)
    }
}

pub proof fn lemma_items_view(s: Seq<Json>)
    ensures
        items_view(s).len() == s.len(),
        forall|i: int| 0 <= i < s.len() ==> #[trigger] items_view(s)[i] == json_view(s[i]),
    decreases s.len(),
{
    if s.len() > 0 {
        lemma_items_view(s.drop_last());
    }
}

pub proof fn lemma_members_view(s: Seq<Member>)
    ensures
        members_view(s).len() == s.len(),
        forall|i: int|
            0 <= i < s.len() ==> #[trigger] members_view(s)[i] == (s[i].key@, json_view(s[i].value)),
    decreases s.len(),
{
    if s.len() > 0 {
        lemma_members_view(s.drop_last());
    }
}

// ---------------------------------------------------------------------------
// Object members
// ---------------------------------------------------------------------------

/// The index of the first member named `key`, or -1.
pub open spec fn member_index(ms: Seq<(Seq<char>, JsonView)>, key: Seq<char>) -> int
    decreases ms.len(),
{
    if ms.len() == 0 {
        -1
    } else if member_index(ms.drop_last(), key) >= 0 {
        member_index(ms.drop_last(), key)
    } else if ms.last().0 == key {
        ms.len() - 1
    } else {
        -1
    }
}

/// `Map::get`: the value of the member named `key`.
pub open spec fn member_value(ms: Seq<(Seq<char>, JsonView)>, key: Seq<char>) -> Option<JsonView> {
    let i = member_index(ms, key);
    if i >= 0 {
        Some(ms[i].1)
    } else {
        None
    }
}

/// `Value::get(key)`: a member of an object; nothing for other values.
pub open spec fn get(v: JsonView, key: Seq<char>) -> Option<JsonView> {
    match v {
        JsonView::Object(ms) => member_value(ms, key),
        _ => None,
    }
}

/// `Value::get(key)` then `Value::as_str`.
pub open spec fn get_str(v: JsonView, key: Seq<char>) -> Option<Seq<char>> {
    match get(v, key) {
        Some(JsonView::Str(s)) => Some(s),
        _ => None,
    }
}

/// `Value::get(key)` then `Value::as_u64`.
pub open spec fn get_u64(v: JsonView, key: Seq<char>) -> Option<u64> {
    match get(v, key) {
        Some(JsonView::Number(_, n)) => n,
        _ => None,
    }
}

/// `Value::get(key)` then `Value::as_array`.
pub open spec fn get_array(v: JsonView, key: Seq<char>) -> Option<Seq<JsonView>> {
    match get(v, key) {
        Some(JsonView::Array(items)) => Some(items),
        _ => None,
    }
}

/// `Value::get(key)` then `Value::as_object`.
pub open spec fn get_object(v: JsonView, key: Seq<char>) -> Option<Seq<(Seq<char>, JsonView)>> {
    match get(v, key) {
        Some(JsonView::Object(ms)) => Some(ms),
        _ => None,
    }
}

pub proof fn lemma_member_index(ms: Seq<(Seq<char>, JsonView)>, key: Seq<char>)
    ensures
        -1 <= member_index(ms, key) < ms.len(),
        member_index(ms, key) >= 0 ==> ms[member_index(ms, key)].0 == key,
        forall|j: int|
            0 <= j < ms.len() && (member_index(ms, key) < 0 || j < member_index(ms, key))
                ==> #[trigger] ms[j].0 != key,
    decreases ms.len(),
{
    if ms.len() > 0 {
        let d = ms.drop_last();
        lemma_member_index(d, key);
        assert forall|j: int|
            0 <= j < ms.len() && (member_index(ms, key) < 0 || j < member_index(ms, key)) implies #[trigger] ms[j].0
            != key by {
            if j < ms.len() - 1 {
                assert(ms[j] == d[j]);
            }
        }
    }
}

/// `key` set to `v`: the first member of that name replaced, or a new one
/// added at the end.
pub open spec fn set_member(ms: Seq<(Seq<char>, JsonView)>, key: Seq<char>, v: JsonView) -> Seq<
    (Seq<char>, JsonView),
> {
    let i = member_index(ms, key);
    if i >= 0 {
        ms.update(i, (key, v))
    } else {
        ms.push((key, v))
    }
}

/// Replacing the value of a member keeps every name where it was.
pub proof fn lemma_update_keeps_index(
    ms: Seq<(Seq<char>, JsonView)>,
    i: int,
    v: JsonView,
    key: Seq<char>,
)
    requires
        0 <= i < ms.len(),
    ensures
        member_index(ms.update(i, (ms[i].0, v)), key) == member_index(ms, key),
    decreases ms.len(),
{
    let u = ms.update(i, (ms[i].0, v));
    if i < ms.len() - 1 {
        assert(u.drop_last() =~= ms.drop_last().update(i, (ms[i].0, v)));
        lemma_update_keeps_index(ms.drop_last(), i, v, key);
    } else {
        assert(u.drop_last() =~= ms.drop_last());
    }
}

/// What a member holds after `set_member`.
pub proof fn lemma_set_member(ms: Seq<(Seq<char>, JsonView)>, key: Seq<char>, v: JsonView, other: Seq<char>)
    ensures
        member_value(set_member(ms, key, v), key) == Some(v),
        other != key ==> member_value(set_member(ms, key, v), other) == member_value(ms, other),
        other != key ==> member_index(set_member(ms, key, v), other) == member_index(ms, other),
{
    lemma_member_index(ms, key);
    let i = member_index(ms, key);
    if i >= 0 {
        lemma_update_keeps_index(ms, i, v, key);
        lemma_update_keeps_index(ms, i, v, other);
        lemma_member_index(ms, other);
        if other != key && member_index(ms, other) >= 0 {
            assert(member_index(ms, other) != i);
        }
    } else {
        let p = ms.push((key, v));
        assert(p.drop_last() =~= ms);
        lemma_member_index(ms, other);
    }
}

/// Setting a member to the value it already has changes nothing.
pub proof fn lemma_set_member_same(ms: Seq<(Seq<char>, JsonView)>, key: Seq<char>, v: JsonView)
    requires
        member_value(ms, key) == Some(v),
    ensures
        set_member(ms, key, v) == ms,
{
    lemma_member_index(ms, key);
    assert(set_member(ms, key, v) =~= ms);
}

/// The first index `i` such that no member before `i` is named `key` and the
/// member at `i` is: that is `member_index`.
pub proof fn lemma_member_index_first(ms: Seq<(Seq<char>, JsonView)>, key: Seq<char>, i: int)
    requires
        0 <= i < ms.len(),
        ms[i].0 == key,
        forall|j: int| 0 <= j < i ==> #[trigger] ms[j].0 != key,
    ensures
        member_index(ms, key) == i,
    decreases ms.len(),
{
    lemma_member_index(ms, key);
    if i < ms.len() - 1 {
        lemma_member_index_first(ms.drop_last(), key, i);
    } else {
        lemma_member_index(ms.drop_last(), key);
    }
}

/// No member is named `key`.
pub proof fn lemma_member_index_none(ms: Seq<(Seq<char>, JsonView)>, key: Seq<char>)
    requires
        forall|j: int| 0 <= j < ms.len() ==> #[trigger] ms[j].0 != key,
    ensures
        member_index(ms, key) == -1,
{
    lemma_member_index(ms, key);
}

/// The index of the first member named `key`.
pub fn find_member(ms: &Vec<Member>, key: &str) -> (r: Option<usize>)
    ensures
        match r {
            Some(i) => member_index(members_view(ms@), key@) == i as int,
            None => member_index(members_view(ms@), key@) == -1,
        },
{
    proof {
        lemma_members_view(ms@);
    }
    let ghost mv = members_view(ms@);
    let mut i: usize = 0;
    while i < ms.len()
        invariant
            i <= ms.len(),
            mv == members_view(ms@),
            mv.len() == ms@.len(),
            forall|k: int| 0 <= k < mv.len() ==> #[trigger] mv[k] == (ms@[k].key@, json_view(ms@[k].value)),
            forall|j: int| 0 <= j < i ==> #[trigger] mv[j].0 != key@,
        decreases ms.len() - i,
    {
        if str_eq(ms[i].key.as_str(), key) {
            proof {
                lemma_member_index_first(mv, key@, i as int);
            }
            return Some(i);
        }
        i = i + 1;
    }
    proof {
        lemma_member_index_none(mv, key@);
    }
    None
}

/// `Value::get(key)`.
pub fn get_member<'a>(v: &'a Json, key: &str) -> (r: Option<&'a Json>)
    ensures
        match r {
            Some(m) => get(v@, key@) == Some(m@),
            None => get(v@, key@) is None,
        },
{
    match v {
        Json::Object(ms) => {
            proof {
                lemma_members_view(ms@);
            }
            let found = find_member(ms, key);
            proof {
                lemma_member_index(members_view(ms@), key@);
            }
            match found {
                Some(i) => Some(&ms[i].value),
                None => None,
            }
        },
        _ => None,
    }
}

/// `Value::get(key)` then `Value::as_str`.
pub fn get_member_str<'a>(v: &'a Json, key: &str) -> (r: Option<&'a str>)
    ensures
        match r {
            Some(s) => get_str(v@, key@) == Some(s@),
            None => get_str(v@, key@) is None,
        },
{
    match get_member(v, key) {
        Some(Json::Str(s)) => Some(s.as_str()),
        _ => None,
    }
}

/// `Value::get(key)` then `Value::as_u64`.
pub fn get_member_u64(v: &Json, key: &str) -> (r: Option<u64>)
    ensures
        r == get_u64(v@, key@),
{
    match get_member(v, key) {
        Some(Json::Number(_, n)) => *n,
        _ => None,
    }
}

/// A text value.
pub fn string_value(s: &str) -> (r: Json)
    ensures
        r@ == JsonView::Str(s@),
{
    Json::Str(s.to_string())
}

/// A member.
pub fn member(key: &str, value: Json) -> (r: Member)
    ensures
        r.key@ == key@,
        r.value == value,
{
    Member { key: key.to_string(), value }
}

// ---------------------------------------------------------------------------
// Documents as serde_json holds them
// ---------------------------------------------------------------------------

/// The decimal digits of `k`, as `u64`'s `Display` prints them.
pub open spec fn decimal_text(k: nat) -> Seq<char>
    decreases k,
{
    if k < 10 {
        seq![seq!['0', '1', '2', '3', '4', '5', '6', '7', '8', '9'][k as int]]
    } else {
        decimal_text(k / 10).push(seq!['0', '1', '2', '3', '4', '5', '6', '7', '8', '9'][(k % 10) as int])
    }
}

/// No two members have the same name.
pub open spec fn names_unique(ms: Seq<(Seq<char>, JsonView)>) -> bool {
    forall|i: int, j: int| 0 <= i < j < ms.len() ==> #[trigger] ms[i].0 != #[trigger] ms[j].0
}

/// A value that serde_json can hold and read back: every object holds each
/// name once, a number that `as_u64` reads as `k` is printed as the digits
/// of `k`, and arrays and objects nest at most `depth` deep.
pub open spec fn json_sound(v: JsonView, depth: nat) -> bool
    decreases v,
{
    match v {
        JsonView::Number(t, n) => match n {
            Some(k) => t == decimal_text(k as nat),
            None => true,
        },
        JsonView::Array(items) => depth > 0 && forall|i: int|
            0 <= i < items.len() ==> json_sound(#[trigger] items[i], (depth - 1) as nat),
        JsonView::Object(ms) => depth > 0 && names_unique(ms) && forall|i: int|
            0 <= i < ms.len() ==> json_sound(#[trigger] ms[i].1, (depth - 1) as nat),
        _ => true,
    }
}

/// How deep serde_json's parser lets arrays and objects nest.
pub open spec fn parse_depth() -> nat {
    127
}

/// `p` is what serde_json reads back from a print of `v`: null, booleans,
/// texts and numbers that `as_u64` reads come back as they were, another
/// number comes back as a number or null, an array comes back item by item,
/// and an object comes back with the same names, each with the value read
/// back from the one it had (serde_json orders the names).
pub open spec fn reparsed_as(p: JsonView, v: JsonView) -> bool
    decreases v,
{
    match v {
        JsonView::Null => p == JsonView::Null,
        JsonView::Bool(b) => p == JsonView::Bool(b),
        JsonView::Str(s) => p == JsonView::Str(s),
        JsonView::Number(t, n) => match n {
            Some(k) => p == v,
            None => p is Number || p is Null,
        },
        JsonView::Array(items) => match p {
            JsonView::Array(ps) => ps.len() == items.len() && forall|i: int|
                0 <= i < items.len() ==> reparsed_as(#[trigger] ps[i], items[i]),
            _ => false,
        },
        JsonView::Object(ms) => match p {
            JsonView::Object(pms) => {
                &&& pms.len() == ms.len()
                &&& forall|i: int| 0 <= i < pms.len() ==> member_index(ms, #[trigger] pms[i].0) >= 0
                &&& forall|i: int|
                    0 <= i < ms.len() ==> member_index(pms, #[trigger] ms[i].0) >= 0 && reparsed_as(
                        pms[member_index(pms, ms[i].0)].1,
                        ms[i].1,
                    )
            },
            _ => false,
        },
    }
}

// ---------------------------------------------------------------------------
// serde_json
// ---------------------------------------------------------------------------

#[verifier::external_type_specification]
#[verifier::external_body]
pub struct ExJsonValue(serde_json::Value);

/// What `serde_json::from_slice::<serde_json::Value>` gives for bytes, as a
/// `JsonView`, or nothing when the bytes are not one JSON document.
pub uninterp spec fn json_parsed(bytes: Seq<u8>) -> Option<JsonView>;

/// What `serde_json::to_vec_pretty` prints for a value.
pub uninterp spec fn json_pretty(value: JsonView) -> Seq<u8>;

/// What `serde_json::Value::to_string` prints for a value.
pub uninterp spec fn json_compact(value: JsonView) -> Seq<char>;

/// A `serde_json::Value` as a `Json`, one for one: a number by its printed
/// text and `as_u64`, an object by its members in the map's order.
#[verifier::external_body]
fn from_value(value: serde_json::Value) -> Json {
    match value {
        serde_json::Value::Null => Json::Null,
        serde_json::Value::Bool(b) => Json::Bool(b),
        serde_json::Value::Number(n) => Json::Number(n.to_string(), n.as_u64()),
        serde_json::Value::String(s) => Json::Str(s),
        serde_json::Value::Array(items) => Json::Array(items.into_iter().map(from_value).collect()),
        serde_json::Value::Object(map) => Json::Object(
            map.into_iter().map(|(key, value)| Member { key, value: from_value(value) }).collect(),
        ),
    }
}

/// A `Json` as a `serde_json::Value`, one for one: a number from its text.
#[verifier::external_body]
fn to_value(value: &Json) -> serde_json::Value {
    match value {
        Json::Null => serde_json::Value::Null,
        Json::Bool(b) => serde_json::Value::Bool(*b),
        Json::Number(text, _) => text.parse::<serde_json::Number>().map_or(
            serde_json::Value::Null,
            serde_json::Value::Number,
        ),
        Json::Str(s) => serde_json::Value::String(s.clone()),
        Json::Array(items) => serde_json::Value::Array(items.iter().map(to_value).collect()),
        Json::Object(members) => serde_json::Value::Object(
            members.iter().map(|m| (m.key.clone(), to_value(&m.value))).collect(),
        ),
    }
}

/// Calls `serde_json::from_slice::<serde_json::Value>` (serde_json 1.0). The
/// contract states that a document is the named parse of the bytes, and that
/// it is sound: a `serde_json::Map` holds each name once, a number that
/// `as_u64` reads is a `u64` and prints as its digits, and the parser refuses
/// to nest deeper than its recursion limit of 128 (the 128th nested array or
/// object fails). On an error the crate's message comes back, and nothing is
/// stated of its text.
#[verifier::external_body]
pub(crate) fn parse_json(bytes: &[u8]) -> (r: Result<Json, String>)
    ensures
        match r {
            Ok(j) => json_parsed(bytes@) == Some(j@) && json_sound(j@, parse_depth()),
            Err(_) => json_parsed(bytes@) is None,
        },
{
    serde_json::from_slice::<serde_json::Value>(bytes).map(from_value).map_err(|e| e.to_string())
}

/// Calls `serde_json::to_vec_pretty` (serde_json 1.0) on the value; printing a
/// `serde_json::Value` cannot fail. The contract states that the bytes are
/// the named print of the value; that `from_slice` skips whitespace after a
/// document, so a line feed after the print reads the same; and that, for a
/// sound value, `from_slice` reads the print back as a sound document related
/// to the value by `reparsed_as` (the value goes through a `serde_json::Map`,
/// which orders the names; strings are escaped and read back as they were;
/// a number that `as_u64` reads is parsed from its digits, printed by `itoa`
/// and read back as the same `u64`; any other number text becomes a float,
/// a negative integer, or null when it does not parse; the value nests no
/// deeper than the parser allows).
#[verifier::external_body]
pub(crate) fn print_json_pretty(value: &Json) -> (r: Vec<u8>)
    ensures
        r@ == json_pretty(value@),
        json_parsed(r@) == json_parsed(r@.push(10u8)),
        json_parsed(r@) is Some || !json_sound(value@, parse_depth()),
        json_parsed(r@) matches Some(p) ==> (!json_sound(value@, parse_depth()) || (json_sound(
            p,
            parse_depth(),
        ) && reparsed_as(p, value@))),
{
    serde_json::to_vec_pretty(&to_value(value)).unwrap_or_default()
}

/// Calls `serde_json::Value::to_string` (serde_json 1.0) on the value. The
/// contract states that the text is the named print of the value.
#[verifier::external_body]
pub(crate) fn print_json(value: &Json) -> (r: String)
    ensures
        r@ == json_compact(value@),
{
    to_value(value).to_string()
}

} // verus!
