//! Release tags: normalising, semantic version parsing and comparison, and the
//! cached state of the latest-release check.
use vstd::prelude::*;
use crate::json::{get_member_str, get_str, json_parsed, parse_json};
use crate::text::{
    chars_of, digits_value, is_digit_char, parse_u64, parse_unsigned, string_from_chars,
    trim, trim_chars,
};

verus! {

broadcast use vstd::string::group_string_axioms;

pub const RELEASES_LATEST_URL: &'static str = "https://github.com/luodaoyi/grok-bridge-rs/releases/latest";

// ---------------------------------------------------------------------------
// Tags and versions
// ---------------------------------------------------------------------------

/// `trim_start_matches(['v', 'V'])`.
pub open spec fn strip_v(s: Seq<char>) -> Seq<char>
    decreases s.len(),
{
    if s.len() > 0 && (s[0] == 'v' || s[0] == 'V') {
        strip_v(s.drop_first())
    } else {
        s
    }
}

/// A release tag without surrounding white space and without its `v` prefix.
pub open spec fn normalized_tag(s: Seq<char>) -> Seq<char> {
    trim(strip_v(trim(s)))
}

/// The index of the first `c` in `s`, or the length of `s` when there is none.
pub open spec fn find_char(s: Seq<char>, c: char) -> nat
    decreases s.len(),
{
    if s.len() == 0 || s[0] == c {
        0
    } else {
        1 + find_char(s.drop_first(), c)
    }
}

/// The number of ASCII digits that `s` starts with.
pub open spec fn digit_run(s: Seq<char>) -> nat
    decreases s.len(),
{
    if s.len() == 0 || !is_digit_char(s[0]) {
        0
    } else {
        1 + digit_run(s.drop_first())
    }
}

/// `major.minor.patch`: exactly three dot-separated parts of the normalised
/// tag; major and minor parse as `u64`, and so do the leading digits of
/// the patch part (so `1.2.3-beta` is `(1, 2, 3)`).
pub open spec fn semver_of(s: Seq<char>) -> Option<(u64, u64, u64)> {
    let v = normalized_tag(s);
    let i = find_char(v, '.');
    let rest = v.skip(i + 1 as int);
    let j = find_char(rest, '.');
    let tail = rest.skip(j + 1 as int);
    if i >= v.len() || j >= rest.len() || find_char(tail, '.') < tail.len() {
        None
    } else {
        match (
            parse_unsigned(v.take(i as int), u64::MAX as nat),
            parse_unsigned(rest.take(j as int), u64::MAX as nat),
            parse_unsigned(tail.take(digit_run(tail) as int), u64::MAX as nat),
        ) {
            (Some(a), Some(b), Some(c)) => Some((a as u64, b as u64, c as u64)),
            _ => None,
        }
    }
}

/// Lexicographic order of version triples.
pub open spec fn triple_lt(a: (u64, u64, u64), b: (u64, u64, u64)) -> bool {
    a.0 < b.0 || (a.0 == b.0 && (a.1 < b.1 || (a.1 == b.1 && a.2 < b.2)))
}

/// Whether `latest` names a newer release than `current`: by version when
/// both parse, else whenever the normalised tags differ.
pub open spec fn outdated(current: Seq<char>, latest: Seq<char>) -> bool {
    match (semver_of(current), semver_of(latest)) {
        (Some(c), Some(l)) => triple_lt(c, l),
        _ => normalized_tag(latest) != normalized_tag(current),
    }
}

/// When both tags parse as versions, `latest` is newer exactly when its
/// major version is greater, or the majors agree and its minor version is
/// greater, or both agree and its patch is greater; the same version, or an
/// older one, is never newer. Newer is a strict order: never both ways.
pub proof fn lemma_outdated_by_version(current: Seq<char>, latest: Seq<char>)
    requires
        semver_of(current) is Some,
        semver_of(latest) is Some,
    ensures
        ({
            let c = semver_of(current)->0;
            let l = semver_of(latest)->0;
            &&& c.0 < l.0 ==> outdated(current, latest)
            &&& c.0 == l.0 && c.1 < l.1 ==> outdated(current, latest)
            &&& c.0 == l.0 && c.1 == l.1 && c.2 < l.2 ==> outdated(current, latest)
            &&& c.0 > l.0 ==> !outdated(current, latest)
            &&& c.0 == l.0 && c.1 > l.1 ==> !outdated(current, latest)
            &&& c.0 == l.0 && c.1 == l.1 && c.2 >= l.2 ==> !outdated(current, latest)
            &&& outdated(current, latest) ==> !outdated(latest, current)
            &&& c != l ==> (outdated(current, latest) || outdated(latest, current))
        }),
{
}

fn strip_v_chars(v: &Vec<char>) -> (r: Vec<char>)
    ensures
        r@ == strip_v(v@),
{
    let mut i: usize = 0;
    assert(v@.skip(0) =~= v@);
    while i < v.len() && (v[i] == 'v' || v[i] == 'V')
        invariant
            i <= v.len(),
            strip_v(v@) == strip_v(v@.skip(i as int)),
        decreases v.len() - i,
    {
        assert(v@.skip(i as int).drop_first() =~= v@.skip(i + 1));
        i = i + 1;
    }
    let mut r: Vec<char> = Vec::new();
    let mut k: usize = i;
    while k < v.len()
        invariant
            i <= k <= v.len(),
            strip_v(v@) == v@.skip(i as int),
            r@ == v@.subrange(i as int, k as int),
        decreases v.len() - k,
    {
        r.push(v[k]);
        k = k + 1;
    }
    assert(r@ =~= v@.skip(i as int));
    r
}

fn normalized_chars(tag: &str) -> (r: Vec<char>)
    ensures
        r@ == normalized_tag(tag@),
{
    let v = chars_of(tag);
    let t = trim_chars(&v);
    let s = strip_v_chars(&t);
    trim_chars(&s)
}

/// `tag` trimmed, without leading `v`/`V`, and trimmed again.
pub fn normalize_tag(tag: &str) -> (r: String)
    ensures
        r@ == normalized_tag(tag@),
{
    let v = normalized_chars(tag);
    string_from_chars(&v)
}

pub(crate) fn find_char_from(v: &Vec<char>, start: usize, c: char) -> (r: usize)
    requires
        start <= v.len(),
    ensures
        r == start + find_char(v@.skip(start as int), c),
        r <= v.len(),
{
    let mut i: usize = start;
    while i < v.len() && v[i] != c
        invariant
            start <= i <= v.len(),
            start + find_char(v@.skip(start as int), c) == i + find_char(v@.skip(i as int), c),
        decreases v.len() - i,
    {
        assert(v@.skip(i as int).drop_first() =~= v@.skip(i + 1));
        i = i + 1;
    }
    proof {
        r_bound(v@.skip(i as int), c);
    }
    i
}

proof fn r_bound(s: Seq<char>, c: char)
    ensures
        find_char(s, c) <= s.len(),
        find_char(s, c) < s.len() ==> s[find_char(s, c) as int] == c,
    decreases s.len(),
{
    if s.len() > 0 && s[0] != c {
        r_bound(s.drop_first(), c);
    }
}

fn digit_run_from(v: &Vec<char>, start: usize) -> (r: usize)
    requires
        start <= v.len(),
    ensures
        r == start + digit_run(v@.skip(start as int)),
        r <= v.len(),
{
    let mut i: usize = start;
    while i < v.len() && '0' <= v[i] && v[i] <= '9'
        invariant
            start <= i <= v.len(),
            start + digit_run(v@.skip(start as int)) == i + digit_run(v@.skip(i as int)),
        decreases v.len() - i,
    {
        assert(v@.skip(i as int).drop_first() =~= v@.skip(i + 1));
        i = i + 1;
    }
    i
}

pub(crate) fn sub_chars(v: &Vec<char>, lo: usize, hi: usize) -> (r: Vec<char>)
    requires
        lo <= hi <= v.len(),
    ensures
        r@ == v@.subrange(lo as int, hi as int),
{
    let mut r: Vec<char> = Vec::new();
    let mut k: usize = lo;
    while k < hi
        invariant
            lo <= k <= hi <= v.len(),
            r@ == v@.subrange(lo as int, k as int),
        decreases hi - k,
    {
        r.push(v[k]);
        k = k + 1;
    }
    r
}

fn parse_part(v: &Vec<char>, lo: usize, hi: usize) -> (r: Option<u64>)
    requires
        lo <= hi <= v.len(),
    ensures
        match r {
            Some(n) => parse_unsigned(v@.subrange(lo as int, hi as int), u64::MAX as nat) == Some(
                n as nat,
            ),
            None => parse_unsigned(v@.subrange(lo as int, hi as int), u64::MAX as nat) is None,
        },
{
    let part = sub_chars(v, lo, hi);
    let text = string_from_chars(&part);
    parse_u64(text.as_str())
}

/// `(major, minor, patch)` of a release tag, when it has that shape.
pub fn parse_semver(version: &str) -> (r: Option<(u64, u64, u64)>)
    ensures
        r == semver_of(version@),
{
    let v = normalized_chars(version);
    let ghost s = v@;
    let i = find_char_from(&v, 0, '.');
    assert(v@.skip(0) =~= v@);
    if i >= v.len() {
        return None;
    }
    let j = find_char_from(&v, i + 1, '.');
    let ghost rest = s.skip(i + 1);
    assert(v@.skip(i + 1) == rest);
    if j >= v.len() {
        return None;
    }
    let k = find_char_from(&v, j + 1, '.');
    let ghost tail = rest.skip(j - i);
    assert(v@.skip(j + 1) =~= tail);
    if k < v.len() {
        return None;
    }
    let d = digit_run_from(&v, j + 1);
    let major = parse_part(&v, 0, i);
    let minor = parse_part(&v, i + 1, j);
    let patch = parse_part(&v, j + 1, d);
    assert(s.subrange(0, i as int) =~= s.take(i as int));
    assert(s.subrange(i + 1, j as int) =~= rest.take(j - i - 1));
    assert(s.subrange(j + 1, d as int) =~= tail.take(d - j - 1));
    match (major, minor, patch) {
        (Some(a), Some(b), Some(c)) => Some((a, b, c)),
        _ => None,
    }
}

fn triple_less(a: (u64, u64, u64), b: (u64, u64, u64)) -> (r: bool)
    ensures
        r == triple_lt(a, b),
{
    a.0 < b.0 || (a.0 == b.0 && (a.1 < b.1 || (a.1 == b.1 && a.2 < b.2)))
}

fn vec_chars_eq(x: &Vec<char>, y: &Vec<char>) -> (r: bool)
    ensures
        r == (x@ == y@),
{
    crate::text::chars_eq(x, y)
}

/// Whether `latest` is newer than `current` (see `outdated`).
pub fn is_outdated(current: &str, latest: &str) -> (r: bool)
    ensures
        r == outdated(current@, latest@),
{
    match (parse_semver(current), parse_semver(latest)) {
        (Some(c), Some(l)) => triple_less(c, l),
        _ => {
            let a = normalized_chars(latest);
            let b = normalized_chars(current);
            !vec_chars_eq(&a, &b)
        },
    }
}

/// No tag is newer than itself.
pub proof fn lemma_not_outdated_against_itself(tag: Seq<char>)
    ensures
        !outdated(tag, tag),
{
}

/// Of two tags that both parse as versions, at most one is newer than the
/// other.
pub proof fn lemma_outdated_is_asymmetric(a: Seq<char>, b: Seq<char>)
    requires
        semver_of(a) is Some,
        semver_of(b) is Some,
    ensures
        !(outdated(a, b) && outdated(b, a)),
{
}

// ---------------------------------------------------------------------------
// Latest release
// ---------------------------------------------------------------------------

#[derive(Clone, Debug, PartialEq, Eq)]
pub struct LatestRelease {
    pub version: String,
    pub release_url: String,
}

#[derive(Clone, Copy, Debug, PartialEq, Eq, Structural)]
pub enum ReleaseError {
    /// The response body is not JSON.
    InvalidJson,
    /// The release document has no string `tag_name`.
    MissingTag,
    /// `tag_name` is empty once normalised.
    EmptyTag,
}

/// What a release document with these `tag_name` and `html_url` members
/// stands for: the normalised tag, and the page URL unless it is absent or
/// empty (then the generic latest-release page).
pub open spec fn release_of(tag: Option<Seq<char>>, html_url: Option<Seq<char>>) -> Result<
    (Seq<char>, Seq<char>),
    ReleaseError,
> {
    match tag {
        None => Err(ReleaseError::MissingTag),
        Some(t) => if normalized_tag(t).len() == 0 {
            Err(ReleaseError::EmptyTag)
        } else {
            Ok(
                (
                    normalized_tag(t),
                    match html_url {
                        Some(u) => if u.len() > 0 {
                            u
                        } else {
                            RELEASES_LATEST_URL@
                        },
                        None => RELEASES_LATEST_URL@,
                    },
                ),
            )
        },
    }
}

pub open spec fn release_view(r: Result<LatestRelease, ReleaseError>) -> Result<
    (Seq<char>, Seq<char>),
    ReleaseError,
> {
    match r {
        Ok(l) => Ok((l.version@, l.release_url@)),
        Err(e) => Err(e),
    }
}

pub open spec fn opt_view(v: Option<&str>) -> Option<Seq<char>> {
    match v {
        Some(s) => Some(s@),
        None => None,
    }
}

/// The latest release described by the `tag_name` and `html_url` string
/// members of GitHub's release document.
pub fn latest_release_from_fields(tag: Option<&str>, html_url: Option<&str>) -> (r: Result<
    LatestRelease,
    ReleaseError,
>)
    ensures
        release_view(r) == release_of(opt_view(tag), opt_view(html_url)),
{
    let t = match tag {
        Some(t) => t,
        None => return Err(ReleaseError::MissingTag),
    };
    let version = normalize_tag(t);
    if version.as_str().is_empty() {
        return Err(ReleaseError::EmptyTag);
    }
    let release_url = match html_url {
        Some(u) => if !u.is_empty() {
            u.to_string()
        } else {
            RELEASES_LATEST_URL.to_string()
        },
        None => RELEASES_LATEST_URL.to_string(),
    };
    Ok(LatestRelease { version, release_url })
}

/// What GitHub's latest-release response body stands for.
pub open spec fn release_of_body(body: Seq<u8>) -> Result<(Seq<char>, Seq<char>), ReleaseError> {
    match json_parsed(body) {
        Some(d) => release_of(get_str(d, "tag_name"@), get_str(d, "html_url"@)),
        None => Err(ReleaseError::InvalidJson),
    }
}

/// The latest release read from the body of GitHub's latest-release response.
pub fn parse_latest_release(body: &[u8]) -> (r: Result<LatestRelease, ReleaseError>)
    ensures
        release_view(r) == release_of_body(body@),
{
    match parse_json(body) {
        Ok(d) => latest_release_from_fields(get_member_str(&d, "tag_name"), get_member_str(&d, "html_url")),
        Err(_) => Err(ReleaseError::InvalidJson),
    }
}

// ---------------------------------------------------------------------------
// Cached check state
// ---------------------------------------------------------------------------

#[derive(Clone, Debug, PartialEq, Eq)]
pub struct VersionStatus {
    pub current: String,
    pub latest: Option<String>,
    pub update_available: bool,
    pub release_url: String,
    pub checked_at_ms: Option<u64>,
}

/// What the server knows of releases: the running version and the outcome of
/// the last check.
#[derive(Clone, Debug)]
pub struct VersionChecker {
    pub current: String,
    pub latest: Option<String>,
    pub release_url: String,
    pub checked_at_ms: Option<u64>,
}

impl VersionChecker {
    /// A checker for the running version `current` that has not checked yet.
    pub fn with_current(current: &str) -> (r: Self)
        ensures
            r.current@ == current@,
            r.latest is None,
            r.release_url@ == RELEASES_LATEST_URL@,
            r.checked_at_ms is None,
    {
        VersionChecker {
            current: current.to_string(),
            latest: None,
            release_url: RELEASES_LATEST_URL.to_string(),
            checked_at_ms: None,
        }
    }

    /// The status reported to clients: an update is available exactly when a
    /// latest version is known and is newer than the running one.
    pub fn status(&self) -> (r: VersionStatus)
        ensures
            r.current@ == self.current@,
            r.latest == self.latest,
            r.update_available == (match self.latest {
                Some(l) => outdated(self.current@, l@),
                None => false,
            }),
            r.release_url@ == self.release_url@,
            r.checked_at_ms == self.checked_at_ms,
    {
        let update_available = match &self.latest {
            Some(l) => is_outdated(self.current.as_str(), l.as_str()),
            None => false,
        };
        VersionStatus {
            current: self.current.clone(),
            latest: self.latest.clone(),
            update_available,
            release_url: self.release_url.clone(),
            checked_at_ms: self.checked_at_ms,
        }
    }

    /// A successful check at `now`.
    pub fn record_release(&mut self, release: LatestRelease, now: u64)
        ensures
            final(self).current == old(self).current,
            final(self).latest == Some(release.version),
            final(self).release_url == release.release_url,
            final(self).checked_at_ms == Some(now),
    {
        self.latest = Some(release.version);
        self.release_url = release.release_url;
        self.checked_at_ms = Some(now);
    }

    /// A failed check at `now`: what was known stays.
    pub fn record_failure(&mut self, now: u64)
        ensures
            final(self).current == old(self).current,
            final(self).latest == old(self).latest,
            final(self).release_url == old(self).release_url,
            final(self).checked_at_ms == Some(now),
    {
        self.checked_at_ms = Some(now);
    }

    /// Records a known latest release as if checked at time 1.
    pub fn seed_latest(&mut self, version: &str, release_url: &str)
        ensures
            final(self).current == old(self).current,
            final(self).latest matches Some(l) && l@ == version@,
            final(self).release_url@ == release_url@,
            final(self).checked_at_ms == Some(1u64),
    {
        self.latest = Some(version.to_string());
        self.release_url = release_url.to_string();
        self.checked_at_ms = Some(1);
    }
}

} // verus!
