//! Where the runtime's IPC socket lives on Unix, and which file system
//! entries on the way there are trusted. The caller inspects the file system
//! (without following symlinks) and hands the facts over; the rules that
//! decide what may be used, created, served or removed are here.
use crate::session::{is_absolute_path, join_path, join_path_chars};
use crate::text::{byte_len, decimal, decimal_chars, utf8_len};
use vstd::prelude::*;

verus! {

/// A byte budget for the socket path that fits `sockaddr_un` on Linux (107
/// usable bytes) and macOS (103) with room to spare.
pub const UNIX_SOCKET_PATH_MAX_BYTES: usize = 100;

/// Owner-only mode of the runtime directory (0o700).
pub const RUNTIME_DIR_MODE: u32 = 448;

/// Owner-only mode of the runtime socket and its startup lock (0o600).
pub const RUNTIME_SOCKET_MODE: u32 = 384;

/// The file name of the socket inside the runtime directory.
pub const RUNTIME_SOCKET_NAME: &'static str = "runtime.sock";

/// What a path names, as `lstat` reports it.
#[derive(Clone, Copy, Debug, PartialEq, Eq, Structural)]
pub enum EntryKind {
    Directory,
    Symlink,
    Socket,
    File,
    Other,
}

/// The facts about one file system entry that the trust rules read.
#[derive(Clone, Copy, Debug, PartialEq, Eq, Structural)]
pub struct EntryMeta {
    pub kind: EntryKind,
    pub uid: u32,
    pub mode: u32,
}

/// Why an entry was refused.
#[derive(Clone, Copy, Debug, PartialEq, Eq, Structural)]
pub enum EntryRefusal {
    /// A symlink is never followed or touched.
    Symlink,
    /// The entry is of another kind than was needed.
    WrongKind(EntryKind),
    /// The entry belongs to this other user.
    ForeignOwner(u32),
}

/// The name of the per-user runtime: `grok-bridge-runtime-v1-u` and the uid.
pub open spec fn identity_of(uid: u32) -> Seq<char> {
    "grok-bridge-runtime-v1-u"@ + decimal(uid as nat)
}

pub fn runtime_identity(uid: u32) -> (r: String)
    ensures
        r@ == identity_of(uid),
{
    let digits = decimal_chars(uid as u64);
    let mut out = crate::text::chars_of("grok-bridge-runtime-v1-u");
    let ghost head = out@;
    let mut i: usize = 0;
    while i < digits.len()
        invariant
            i <= digits@.len(),
            out@ == head + digits@.take(i as int),
        decreases digits.len() - i,
    {
        out.push(digits[i]);
        proof {
            assert(digits@.take(i + 1) =~= digits@.take(i as int).push(digits@[i as int]));
        }
        i = i + 1;
    }
    proof {
        assert(digits@.take(digits@.len() as int) =~= digits@);
    }
    crate::text::string_from_chars(&out)
}

/// A character of a Windows runtime name: ASCII letters and digits in lower
/// case and `-` are kept, anything else becomes `-`.
pub open spec fn name_char(c: char) -> char {
    if ('a' <= c <= 'z') || ('0' <= c <= '9') || c == '-' {
        c
    } else if 'A' <= c <= 'Z' {
        crate::text::ascii_lower(c)
    } else {
        '-'
    }
}

/// The runtime name on Windows: `grok-bridge-runtime-v1-`, then the user's
/// domain and name (`default` when the name is unset), joined by `-`.
pub open spec fn windows_identity_of(user: Option<Seq<char>>, domain: Option<Seq<char>>) -> Seq<char> {
    let u = match user {
        Some(u) => u,
        None => "default"@,
    };
    let d = match domain {
        Some(d) => d,
        None => Seq::<char>::empty(),
    };
    "grok-bridge-runtime-v1-"@ + (d + "-"@ + u).map_values(|c: char| name_char(c))
}

pub fn windows_runtime_identity(user: Option<&str>, domain: Option<&str>) -> (r: String)
    ensures
        r@ == windows_identity_of(
            match user {
                Some(u) => Some(u@),
                None => None,
            },
            match domain {
                Some(d) => Some(d@),
                None => None,
            },
        ),
{
    let mut raw: Vec<char> = match domain {
        Some(d) => crate::text::chars_of(d),
        None => Vec::new(),
    };
    crate::text::push_str(&mut raw, "-");
    match user {
        Some(u) => crate::text::push_str(&mut raw, u),
        None => crate::text::push_str(&mut raw, "default"),
    }
    let mut out = crate::text::chars_of("grok-bridge-runtime-v1-");
    let ghost head = out@;
    let mut i: usize = 0;
    while i < raw.len()
        invariant
            i <= raw@.len(),
            out@ == head + raw@.take(i as int).map_values(|c: char| name_char(c)),
        decreases raw.len() - i,
    {
        let c = raw[i];
        let n = if ('a' <= c && c <= 'z') || ('0' <= c && c <= '9') || c == '-' {
            c
        } else if 'A' <= c && c <= 'Z' {
            crate::text::char_to_ascii_lower(c)
        } else {
            '-'
        };
        out.push(n);
        proof {
            assert(raw@.take(i + 1).map_values(|c: char| name_char(c)) =~= raw@.take(i as int).map_values(
                |c: char| name_char(c),
            ).push(name_char(c)));
        }
        i = i + 1;
    }
    proof {
        assert(raw@.take(raw@.len() as int) =~= raw@);
    }
    crate::text::string_from_chars(&out)
}

/// Root and the current user are the owners that cannot be replaced.
pub open spec fn trusted_owner(uid: u32, expected_uid: u32) -> bool {
    uid == 0 || uid == expected_uid
}

/// Another user can rename entries in a group- or world-writable directory,
/// unless its sticky bit is set.
pub open spec fn replaceable_by_others(mode: u32) -> bool {
    mode & 18u32 != 0 && mode & 512u32 == 0
}

/// One ancestor of a runtime base: it must exist; a symlink is allowed only
/// where asked for and only with a trusted owner; anything else must be a
/// directory with a trusted owner that no other user can rename entries in.
pub open spec fn ancestor_trusted(m: Option<EntryMeta>, expected_uid: u32, allow_symlinks: bool) -> bool {
    match m {
        None => false,
        Some(m) => if m.kind == EntryKind::Symlink {
            allow_symlinks && trusted_owner(m.uid, expected_uid)
        } else {
            m.kind == EntryKind::Directory && trusted_owner(m.uid, expected_uid)
                && !replaceable_by_others(m.mode)
        },
    }
}

pub open spec fn chain_trusted(chain: Seq<Option<EntryMeta>>, expected_uid: u32, allow_symlinks: bool) -> bool {
    forall|i: int| 0 <= i < chain.len() ==> #[trigger] ancestor_trusted(chain[i], expected_uid, allow_symlinks)
}

/// Whether every entry from a path up to `/` is trusted. `chain` holds the
/// path's own entry first, then each ancestor's.
pub fn ancestor_chain_trusted(chain: &Vec<Option<EntryMeta>>, expected_uid: u32, allow_symlinks: bool) -> (r: bool)
    ensures
        r == chain_trusted(chain@, expected_uid, allow_symlinks),
{
    let mut i: usize = 0;
    while i < chain.len()
        invariant
            i <= chain@.len(),
            forall|k: int| 0 <= k < i ==> #[trigger] ancestor_trusted(chain@[k], expected_uid, allow_symlinks),
        decreases chain.len() - i,
    {
        let ok = match chain[i] {
            None => false,
            Some(m) => match m.kind {
                EntryKind::Symlink => allow_symlinks && (m.uid == 0 || m.uid == expected_uid),
                EntryKind::Directory => (m.uid == 0 || m.uid == expected_uid) && !(m.mode & 18u32 != 0
                    && m.mode & 512u32 == 0),
                _ => false,
            },
        };
        if !ok {
            assert(!ancestor_trusted(chain@[i as int], expected_uid, allow_symlinks));
            return false;
        }
        i = i + 1;
    }
    true
}

/// The entry named by a candidate base itself. A configured base must be a
/// real directory of this user that only this user can enter; a fallback
/// base may be a directory or a symlink to one.
pub open spec fn base_entry_ok(m: EntryMeta, expected_uid: u32, require_owner_only: bool) -> bool {
    if require_owner_only {
        m.kind == EntryKind::Directory && m.uid == expected_uid && m.mode & 63u32 == 0
    } else {
        m.kind == EntryKind::Directory || m.kind == EntryKind::Symlink
    }
}

/// The trusted canonical form of a candidate base, if it is trusted: the
/// path is absolute, its entry passes, it resolves to an absolute path, and
/// both its own ancestor chain (symlinks allowed) and that of its resolved
/// form (no symlinks) are trusted.
pub open spec fn trusted_base_of(
    path: Seq<char>,
    meta: Option<EntryMeta>,
    canonical: Option<Seq<char>>,
    chain: Seq<Option<EntryMeta>>,
    canonical_chain: Seq<Option<EntryMeta>>,
    expected_uid: u32,
    require_owner_only: bool,
) -> Option<Seq<char>> {
    if !is_absolute_path(path) {
        None
    } else {
        match (meta, canonical) {
            (Some(m), Some(c)) => if base_entry_ok(m, expected_uid, require_owner_only)
                && is_absolute_path(c) && chain_trusted(chain, expected_uid, true)
                && chain_trusted(canonical_chain, expected_uid, false) {
                Some(c)
            } else {
                None
            },
            _ => None,
        }
    }
}

/// Decides whether a candidate runtime base can be used (see
/// `trusted_base_of`). `meta` is the base's own entry, `canonical` its
/// resolved path, `chain` and `canonical_chain` the entries from each of the
/// two paths up to `/`.
pub fn trusted_runtime_base(
    path: &str,
    meta: Option<EntryMeta>,
    canonical: Option<String>,
    chain: &Vec<Option<EntryMeta>>,
    canonical_chain: &Vec<Option<EntryMeta>>,
    expected_uid: u32,
    require_owner_only: bool,
) -> (r: Option<String>)
    ensures
        crate::web::opt_string_view(r) == trusted_base_of(
            path@,
            meta,
            crate::web::opt_string_view(canonical),
            chain@,
            canonical_chain@,
            expected_uid,
            require_owner_only,
        ),
{
    if !starts_with_slash(path) {
        return None;
    }
    let m = match meta {
        Some(m) => m,
        None => return None,
    };
    let entry_ok = if require_owner_only {
        m.kind == EntryKind::Directory && m.uid == expected_uid && m.mode & 63u32 == 0
    } else {
        m.kind == EntryKind::Directory || m.kind == EntryKind::Symlink
    };
    if !entry_ok {
        return None;
    }
    let c = match canonical {
        Some(c) => c,
        None => return None,
    };
    if !starts_with_slash(c.as_str()) {
        return None;
    }
    if !ancestor_chain_trusted(chain, expected_uid, true) || !ancestor_chain_trusted(
        canonical_chain,
        expected_uid,
        false,
    ) {
        return None;
    }
    Some(c)
}

fn starts_with_slash(s: &str) -> (r: bool)
    ensures
        r == is_absolute_path(s@),
{
    let v = crate::text::chars_of(s);
    v.len() > 0 && v[0] == '/'
}

/// The socket path for a runtime directory named `identity` under `base`.
pub open spec fn socket_path_of(base: Seq<char>, identity: Seq<char>) -> Seq<char> {
    join_path(join_path(base, identity), "runtime.sock"@)
}

pub fn runtime_socket_path(base: &str, identity: &str) -> (r: String)
    ensures
        r@ == socket_path_of(base@, identity@),
{
    let dir = join_path_chars(base, identity);
    join_path_chars(dir.as_str(), RUNTIME_SOCKET_NAME)
}

/// The first trusted candidate base (in the order given) whose socket path
/// stays within `max_bytes`.
pub open spec fn chosen_base(c: Seq<Option<Seq<char>>>, identity: Seq<char>, max_bytes: nat) -> Option<Seq<char>>
    decreases c.len(),
{
    if c.len() == 0 {
        None
    } else {
        match c[0] {
            Some(b) if utf8_len(socket_path_of(b, identity)) <= max_bytes => Some(b),
            _ => chosen_base(c.drop_first(), identity, max_bytes),
        }
    }
}

pub open spec fn opt_views(v: Seq<Option<String>>) -> Seq<Option<Seq<char>>> {
    v.map_values(|x: Option<String>| crate::web::opt_string_view(x))
}

/// The runtime directory: `identity` under the first trusted base whose
/// socket path fits, or `None` when no base does. `bases` holds the trusted
/// form of each candidate in order of preference (`None` for an untrusted
/// one): the configured runtime base, the temporary directory, `/tmp`.
pub fn select_runtime_dir(bases: &Vec<Option<String>>, identity: &str, max_bytes: usize) -> (r: Option<String>)
    ensures
        crate::web::opt_string_view(r) == match chosen_base(opt_views(bases@), identity@, max_bytes as nat) {
            Some(b) => Some(join_path(b, identity@)),
            None => None,
        },
{
    let mut i: usize = 0;
    assert(opt_views(bases@).skip(0) =~= opt_views(bases@));
    while i < bases.len()
        invariant
            i <= bases@.len(),
            chosen_base(opt_views(bases@), identity@, max_bytes as nat) == chosen_base(
                opt_views(bases@).skip(i as int),
                identity@,
                max_bytes as nat,
            ),
        decreases bases.len() - i,
    {
        let ghost rest = opt_views(bases@).skip(i as int);
        assert(rest[0] == crate::web::opt_string_view(bases@[i as int]));
        assert(rest.drop_first() =~= opt_views(bases@).skip(i + 1));
        if let Some(base) = &bases[i] {
            let socket = runtime_socket_path(base.as_str(), identity);
            if byte_len(socket.as_str()) <= max_bytes {
                return Some(join_path_chars(base.as_str(), identity));
            }
        }
        i = i + 1;
    }
    proof {
        assert(opt_views(bases@).skip(bases@.len() as int) =~= Seq::<Option<Seq<char>>>::empty());
    }
    None
}

/// The private runtime directory: a missing one is created (`Ok(false)`), an
/// existing one must be a real directory of this user (`Ok(true)`).
pub open spec fn private_dir_verdict_of(m: Option<EntryMeta>, expected_uid: u32) -> Result<bool, EntryRefusal> {
    match m {
        None => Ok(false),
        Some(m) => if m.kind == EntryKind::Symlink {
            Err(EntryRefusal::Symlink)
        } else if m.kind != EntryKind::Directory {
            Err(EntryRefusal::WrongKind(m.kind))
        } else if m.uid != expected_uid {
            Err(EntryRefusal::ForeignOwner(m.uid))
        } else {
            Ok(true)
        },
    }
}

pub fn private_dir_verdict(m: Option<EntryMeta>, expected_uid: u32) -> (r: Result<bool, EntryRefusal>)
    ensures
        r == private_dir_verdict_of(m, expected_uid),
{
    match m {
        None => Ok(false),
        Some(m) => match m.kind {
            EntryKind::Symlink => Err(EntryRefusal::Symlink),
            EntryKind::Directory => if m.uid != expected_uid {
                Err(EntryRefusal::ForeignOwner(m.uid))
            } else {
                Ok(true)
            },
            k => Err(EntryRefusal::WrongKind(k)),
        },
    }
}

/// A leftover socket may be removed only when it is a socket of this user;
/// nothing there is `Ok(false)`.
pub open spec fn stale_socket_verdict_of(m: Option<EntryMeta>, expected_uid: u32) -> Result<bool, EntryRefusal> {
    match m {
        None => Ok(false),
        Some(m) => match socket_refusal(m, expected_uid) {
            Some(e) => Err(e),
            None => Ok(true),
        },
    }
}

/// What is wrong with an entry that should be this user's socket.
pub open spec fn socket_refusal(m: EntryMeta, expected_uid: u32) -> Option<EntryRefusal> {
    if m.kind == EntryKind::Symlink {
        Some(EntryRefusal::Symlink)
    } else if m.kind != EntryKind::Socket {
        Some(EntryRefusal::WrongKind(m.kind))
    } else if m.uid != expected_uid {
        Some(EntryRefusal::ForeignOwner(m.uid))
    } else {
        None
    }
}

fn check_socket(m: EntryMeta, expected_uid: u32) -> (r: Option<EntryRefusal>)
    ensures
        r == socket_refusal(m, expected_uid),
{
    match m.kind {
        EntryKind::Symlink => Some(EntryRefusal::Symlink),
        EntryKind::Socket => if m.uid != expected_uid {
            Some(EntryRefusal::ForeignOwner(m.uid))
        } else {
            None
        },
        k => Some(EntryRefusal::WrongKind(k)),
    }
}

pub fn stale_socket_verdict(m: Option<EntryMeta>, expected_uid: u32) -> (r: Result<bool, EntryRefusal>)
    ensures
        r == stale_socket_verdict_of(m, expected_uid),
{
    match m {
        None => Ok(false),
        Some(m) => match check_socket(m, expected_uid) {
            Some(e) => Err(e),
            None => Ok(true),
        },
    }
}

/// A freshly bound socket is served only when it is this user's socket;
/// `Ok(true)` when its permission bits still have to be narrowed to 0o600.
pub fn bound_socket_verdict(m: EntryMeta, expected_uid: u32) -> (r: Result<bool, EntryRefusal>)
    ensures
        r == match socket_refusal(m, expected_uid) {
            Some(e) => Err(e),
            None => Ok(m.mode & 511u32 != RUNTIME_SOCKET_MODE),
        },
{
    match check_socket(m, expected_uid) {
        Some(e) => Err(e),
        None => Ok(m.mode & 511u32 != RUNTIME_SOCKET_MODE),
    }
}

/// Whether the permission bits of `mode` are exactly `wanted`.
pub fn mode_is(mode: u32, wanted: u32) -> (r: bool)
    ensures
        r == (mode & 511u32 == wanted),
{
    mode & 511u32 == wanted
}

/// The startup lock must be a regular file of this user.
pub fn startup_lock_acceptable(m: EntryMeta, expected_uid: u32) -> (r: bool)
    ensures
        r == (m.kind == EntryKind::File && m.uid == expected_uid),
{
    m.kind == EntryKind::File && m.uid == expected_uid
}

/// Nothing outside the chosen base is used: the runtime directory is the
/// identity directly under a candidate that was trusted, and its socket path
/// fits the budget.
pub proof fn lemma_chosen_base_is_trusted_and_fits(c: Seq<Option<Seq<char>>>, identity: Seq<char>, max_bytes: nat)
    requires
        chosen_base(c, identity, max_bytes) is Some,
    ensures
        exists|i: int| 0 <= i < c.len() && c[i] == chosen_base(c, identity, max_bytes),
        utf8_len(socket_path_of(chosen_base(c, identity, max_bytes)->0, identity)) <= max_bytes,
    decreases c.len(),
{
    match c[0] {
        Some(b) if utf8_len(socket_path_of(b, identity)) <= max_bytes => {
            assert(c[0] == chosen_base(c, identity, max_bytes));
        },
        _ => {
            lemma_chosen_base_is_trusted_and_fits(c.drop_first(), identity, max_bytes);
            let i = choose|i: int|
                0 <= i < c.drop_first().len() && c.drop_first()[i] == chosen_base(
                    c.drop_first(),
                    identity,
                    max_bytes,
                );
            assert(c[i + 1] == c.drop_first()[i]);
        },
    }
}

} // verus!
