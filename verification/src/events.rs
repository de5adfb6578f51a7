//! The WebUI events stream: terminal entries (screen snapshots and output
//! deltas), how one session's entries are planned from its transcript, and
//! how entries are split and packed into frames under a size bound.
use vstd::prelude::*;
use crate::codec::{base64_decode, base64_decoding, base64_encode, base64_encoding};
use crate::transcript::{Transcript, TranscriptView, MAX_READ_BYTES};
use crate::text::{str_eq, byte_len, decimal, decimal_chars, hex_digit, hex_digit_char, push_str, string_from_chars, utf8_len};

verus! {

broadcast use vstd::string::group_string_axioms;

// ---------------------------------------------------------------------------
// Terminal entries and frames
// ---------------------------------------------------------------------------

/// Terminal bytes for one session: a screen snapshot (`reset`) or raw
/// output, base64-encoded, covering the stream range `cursor..next_cursor`.
#[derive(Clone, Debug, PartialEq, Eq)]
pub struct TerminalStreamEntry {
    pub session: String,
    pub reset: bool,
    pub cursor: u64,
    pub next_cursor: u64,
    pub data_base64: String,
}

pub struct EntryView {
    pub session: Seq<char>,
    pub reset: bool,
    pub cursor: u64,
    pub next_cursor: u64,
    pub data: Seq<char>,
}

impl View for TerminalStreamEntry {
    type V = EntryView;

    open spec fn view(&self) -> EntryView {
        EntryView {
            session: self.session@,
            reset: self.reset,
            cursor: self.cursor,
            next_cursor: self.next_cursor,
            data: self.data_base64@,
        }
    }
}

pub open spec fn entries_view(es: Seq<TerminalStreamEntry>) -> Seq<EntryView> {
    es.map_values(|e: TerminalStreamEntry| e@)
}

/// One character inside a JSON string, escaped as serde_json escapes it:
/// `"` and `\\` with a backslash, the C0 controls with their short escape
/// or as `\u00XX` (lowercase hex); everything else as it is.
pub open spec fn json_escape_char(c: char) -> Seq<char> {
    let u = c as u32;
    if c == '"' {
        seq!['\\', '"']
    } else if c == '\\' {
        seq!['\\', '\\']
    } else if u == 8 {
        seq!['\\', 'b']
    } else if u == 9 {
        seq!['\\', 't']
    } else if u == 10 {
        seq!['\\', 'n']
    } else if u == 12 {
        seq!['\\', 'f']
    } else if u == 13 {
        seq!['\\', 'r']
    } else if u < 32 {
        seq!['\\', 'u', '0', '0', hex_digit((u / 16) as nat), hex_digit((u % 16) as nat)]
    } else {
        seq![c]
    }
}

pub open spec fn json_escaped(s: Seq<char>) -> Seq<char>
    decreases s.len(),
{
    if s.len() == 0 {
        Seq::empty()
    } else {
        json_escaped(s.drop_last()) + json_escape_char(s.last())
    }
}

/// A text as a JSON string.
pub open spec fn json_string_text(s: Seq<char>) -> Seq<char> {
    seq!['"'] + json_escaped(s) + seq!['"']
}

/// The JSON text of an entry, its members in field order.
pub open spec fn entry_text(e: EntryView) -> Seq<char> {
    "{\"session\":"@ + json_string_text(e.session) + ",\"reset\":"@ + (if e.reset {
        "true"@
    } else {
        "false"@
    }) + ",\"cursor\":"@ + decimal(e.cursor as nat) + ",\"next_cursor\":"@ + decimal(
        e.next_cursor as nat,
    ) + ",\"data_base64\":"@ + json_string_text(e.data) + "}"@
}

/// The entries' texts, separated by commas.
pub open spec fn entries_text(es: Seq<EntryView>) -> Seq<char>
    decreases es.len(),
{
    if es.len() == 0 {
        Seq::empty()
    } else if es.len() == 1 {
        entry_text(es[0])
    } else {
        entries_text(es.drop_last()) + seq![','] + entry_text(es.last())
    }
}

/// The text of a frame: the sessions metadata (a JSON array, as given) and
/// the terminal entries.
pub open spec fn frame_text(sessions: Seq<char>, es: Seq<EntryView>) -> Seq<char> {
    "{\"type\":\"sessions\",\"sessions\":"@ + sessions + ",\"terminals\":["@ + entries_text(es)
        + "]}"@
}

/// Whether a frame's UTF-8 encoding stays within `max` bytes.
pub open spec fn frame_fits(sessions: Seq<char>, es: Seq<EntryView>, max: nat) -> bool {
    utf8_len(frame_text(sessions, es)) <= max
}

fn push_json_escaped_char(out: &mut Vec<char>, c: char)
    ensures
        final(out)@ == old(out)@ + json_escape_char(c),
{
    let u = c as u32;
    if c == '"' {
        out.push('\\');
        out.push('"');
    } else if c == '\\' {
        out.push('\\');
        out.push('\\');
    } else if u == 8 {
        out.push('\\');
        out.push('b');
    } else if u == 9 {
        out.push('\\');
        out.push('t');
    } else if u == 10 {
        out.push('\\');
        out.push('n');
    } else if u == 12 {
        out.push('\\');
        out.push('f');
    } else if u == 13 {
        out.push('\\');
        out.push('r');
    } else if u < 32 {
        out.push('\\');
        out.push('u');
        out.push('0');
        out.push('0');
        out.push(hex_digit_char((u / 16) as u8));
        out.push(hex_digit_char((u % 16) as u8));
    } else {
        out.push(c);
    }
    assert(final(out)@ =~= old(out)@ + json_escape_char(c));
}

/// Appends `s` as a JSON string.
fn push_json_string(out: &mut Vec<char>, s: &str)
    ensures
        final(out)@ == old(out)@ + json_string_text(s@),
{
    let v = crate::text::chars_of(s);
    let ghost head = out@;
    out.push('"');
    let mut i: usize = 0;
    while i < v.len()
        invariant
            i <= v@.len(),
            v@ == s@,
            out@ == head + seq!['"'] + json_escaped(v@.take(i as int)),
        decreases v.len() - i,
    {
        push_json_escaped_char(out, v[i]);
        proof {
            assert(v@.take(i + 1).drop_last() =~= v@.take(i as int));
            assert(v@.take(i + 1).last() == v@[i as int]);
        }
        i = i + 1;
    }
    assert(v@.take(v@.len() as int) =~= v@);
    out.push('"');
    assert(out@ =~= head + json_string_text(s@));
}

fn push_decimal(out: &mut Vec<char>, n: u64)
    ensures
        final(out)@ == old(out)@ + decimal(n as nat),
{
    let d = decimal_chars(n);
    crate::session::append_chars(out, &d);
}

/// Appends the JSON text of an entry.
fn push_entry_text(out: &mut Vec<char>, e: &TerminalStreamEntry)
    ensures
        final(out)@ == old(out)@ + entry_text(e@),
{
    let ghost head = out@;
    push_str(out, "{\"session\":");
    push_json_string(out, e.session.as_str());
    push_str(out, ",\"reset\":");
    if e.reset {
        push_str(out, "true");
    } else {
        push_str(out, "false");
    }
    push_str(out, ",\"cursor\":");
    push_decimal(out, e.cursor);
    push_str(out, ",\"next_cursor\":");
    push_decimal(out, e.next_cursor);
    push_str(out, ",\"data_base64\":");
    push_json_string(out, e.data_base64.as_str());
    push_str(out, "}");
    assert(out@ =~= head + entry_text(e@));
}

/// The text of a frame.
pub fn frame_string(sessions: &str, entries: &Vec<TerminalStreamEntry>) -> (r: String)
    ensures
        r@ == frame_text(sessions@, entries_view(entries@)),
{
    let ghost ev = entries_view(entries@);
    let mut out: Vec<char> = Vec::new();
    push_str(&mut out, "{\"type\":\"sessions\",\"sessions\":");
    push_str(&mut out, sessions);
    push_str(&mut out, ",\"terminals\":[");
    let ghost head = out@;
    let mut i: usize = 0;
    while i < entries.len()
        invariant
            i <= entries.len(),
            ev == entries_view(entries@),
            out@ == head + entries_text(ev.take(i as int)),
        decreases entries.len() - i,
    {
        assert(ev.take(i + 1).drop_last() =~= ev.take(i as int));
        assert(ev.take(i + 1).last() == entries@[i as int]@);
        if i > 0 {
            out.push(',');
        } else {
            assert(ev.take(0) =~= Seq::<EntryView>::empty());
        }
        push_entry_text(&mut out, &entries[i]);
        proof {
            if i == 0 {
                assert(ev.take(1)[0] == entries@[0]@);
            }
        }
        i = i + 1;
    }
    assert(ev.take(entries.len() as int) =~= ev);
    push_str(&mut out, "]}");
    string_from_chars(&out)
}

/// Whether a frame of these entries stays within `max` bytes.
pub fn fits_in_frame(sessions: &str, entries: &Vec<TerminalStreamEntry>, max: usize) -> (r: bool)
    ensures
        r == frame_fits(sessions@, entries_view(entries@), max as nat),
{
    let text = frame_string(sessions, entries);
    byte_len(text.as_str()) <= max
}


// ---------------------------------------------------------------------------
// Splitting an entry to fit
// ---------------------------------------------------------------------------

/// Why frames cannot be planned.
#[derive(Clone, Copy, Debug, PartialEq, Eq, Structural)]
pub enum PackError {
    /// The sessions metadata alone exceeds the bound.
    SessionsTooLarge,
    /// An oversized entry's data is not base64.
    InvalidData,
    /// An oversized entry carries no data to split.
    EmptyPayload,
    /// Not even one byte of an entry fits in a frame.
    NoBytesFit,
    /// The final piece of a split entry does not fit with its end cursor.
    PieceTooLarge,
}

/// The message of a planning error for frames of at most `max` bytes with
/// the sessions metadata `sessions`.
pub open spec fn pack_error_text(e: PackError, sessions: Seq<char>, max: nat) -> Seq<char> {
    match e {
        PackError::SessionsTooLarge => "web events sessions metadata exceeds max_message_bytes ("@ + decimal(
            utf8_len(frame_text(sessions, Seq::empty())),
        ) + " > "@ + decimal(max) + ")"@,
        PackError::InvalidData => "terminal data_base64 is invalid"@,
        PackError::EmptyPayload => "web events terminal entry exceeds max_message_bytes with empty payload"@,
        PackError::NoBytesFit => "web events cannot fit any terminal payload bytes within max_message_bytes ("@
            + decimal(max) + ")"@,
        PackError::PieceTooLarge => "web events terminal chunk still exceeds max_message_bytes after split"@,
    }
}

impl PackError {
    pub fn message(&self, sessions: &str, max: usize) -> (r: String)
        ensures
            r@ == pack_error_text(*self, sessions@, max as nat),
    {
        let mut out: Vec<char> = Vec::new();
        match self {
            PackError::SessionsTooLarge => {
                let empty: Vec<TerminalStreamEntry> = Vec::new();
                assert(entries_view(empty@) =~= Seq::<EntryView>::empty());
                let frame = frame_string(sessions, &empty);
                let len = byte_len(frame.as_str());
                push_str(&mut out, "web events sessions metadata exceeds max_message_bytes (");
                let d = decimal_chars(len as u64);
                crate::session::append_chars(&mut out, &d);
                push_str(&mut out, " > ");
                let m = decimal_chars(max as u64);
                crate::session::append_chars(&mut out, &m);
                push_str(&mut out, ")");
            },
            PackError::InvalidData => push_str(&mut out, "terminal data_base64 is invalid"),
            PackError::EmptyPayload => push_str(
                &mut out,
                "web events terminal entry exceeds max_message_bytes with empty payload",
            ),
            PackError::NoBytesFit => {
                push_str(&mut out, "web events cannot fit any terminal payload bytes within max_message_bytes (");
                let m = decimal_chars(max as u64);
                crate::session::append_chars(&mut out, &m);
                push_str(&mut out, ")");
            },
            PackError::PieceTooLarge => push_str(
                &mut out,
                "web events terminal chunk still exceeds max_message_bytes after split",
            ),
        }
        assert(out@ =~= pack_error_text(*self, sessions@, max as nat));
        string_from_chars(&out)
    }
}

/// A durable cursor to store once a frame is sent: session and cursor.
pub type CommitView = Option<(Seq<char>, u64)>;

pub open spec fn commit_view(c: Option<(String, u64)>) -> CommitView {
    match c {
        Some((s, n)) => Some((s@, n)),
        None => None,
    }
}

pub open spec fn planned_view(ps: Seq<(TerminalStreamEntry, Option<(String, u64)>)>) -> Seq<
    (EntryView, CommitView),
> {
    ps.map_values(|p: (TerminalStreamEntry, Option<(String, u64)>)| (p.0@, commit_view(p.1)))
}

/// `a + b`, saturating at `u64::MAX`.
pub open spec fn sat_add(a: u64, b: nat) -> u64 {
    if a + b > u64::MAX {
        u64::MAX
    } else {
        (a + b) as u64
    }
}

pub proof fn lemma_sat_add_twice(a: u64, x: nat, y: nat)
    ensures
        sat_add(sat_add(a, x), y) == sat_add(a, x + y),
{
}

pub open spec fn seq_sum(s: Seq<nat>) -> nat
    decreases s.len(),
{
    if s.len() == 0 {
        0
    } else {
        seq_sum(s.drop_last()) + s.last()
    }
}

/// Positive sizes that add up to `total`.
pub open spec fn chunking(total: nat, sizes: Seq<nat>) -> bool {
    &&& forall|k: int| 0 <= k < sizes.len() ==> #[trigger] sizes[k] > 0
    &&& seq_sum(sizes) == total
}

/// The piece of `n` bytes at offset `off` of an entry's decoded data, with
/// the stream cursors that follow from the entry's; the piece that reaches
/// the end keeps the entry's own end cursor.
pub open spec fn candidate(e: EntryView, raw: Seq<u8>, off: nat, n: nat) -> EntryView {
    let cur = sat_add(e.cursor, off);
    EntryView {
        session: e.session,
        reset: e.reset && off == 0,
        cursor: cur,
        next_cursor: if off + n == raw.len() {
            e.next_cursor
        } else {
            sat_add(cur, n)
        },
        data: base64_encoding(raw.subrange(off as int, (off + n) as int)),
    }
}

/// Piece `k` of a split: the candidate; the piece that reaches the end
/// carries the commit.
pub open spec fn piece(e: EntryView, raw: Seq<u8>, sizes: Seq<nat>, k: int, commit: CommitView) -> (
    EntryView,
    CommitView,
) {
    let off = seq_sum(sizes.take(k));
    let c = candidate(e, raw, off, sizes[k]);
    if off + sizes[k] == raw.len() {
        (c, commit)
    } else {
        (c, None)
    }
}

/// `ps` splits the entry's decoded data `raw` into consecutive pieces of
/// these sizes, each of which fits in a frame as a candidate.
pub open spec fn split_into(
    sessions: Seq<char>,
    max: nat,
    e: EntryView,
    commit: CommitView,
    raw: Seq<u8>,
    sizes: Seq<nat>,
    ps: Seq<(EntryView, CommitView)>,
) -> bool {
    &&& chunking(raw.len(), sizes)
    &&& ps.len() == sizes.len()
    &&& forall|k: int|
        0 <= k < sizes.len() ==> {
            &&& #[trigger] ps[k] == piece(e, raw, sizes, k, commit)
            &&& frame_fits(sessions, seq![candidate(e, raw, seq_sum(sizes.take(k)), sizes[k])], max)
            &&& base64_decoding(ps[k].0.data) == Some(
                raw.subrange(seq_sum(sizes.take(k)) as int, (seq_sum(sizes.take(k)) + sizes[k]) as int),
            )
        }
}

/// The pieces of an entry: the entry itself when it fits in a frame alone,
/// else a split of its decoded data.
pub open spec fn valid_split(
    sessions: Seq<char>,
    max: nat,
    e: EntryView,
    commit: CommitView,
    ps: Seq<(EntryView, CommitView)>,
) -> bool {
    if frame_fits(sessions, seq![e], max) {
        ps == seq![(e, commit)]
    } else {
        (base64_decoding(e.data) matches Some(raw) && exists|sizes: Seq<nat>|
            #[trigger] split_into(sessions, max, e, commit, raw, sizes, ps))
    }
}

proof fn lemma_split_into_intro(
    sessions: Seq<char>,
    max: nat,
    e: EntryView,
    commit: CommitView,
    raw: Seq<u8>,
    sizes: Seq<nat>,
    ps: Seq<(EntryView, CommitView)>,
)
    requires
        seq_sum(sizes) == raw.len(),
        forall|k: int| 0 <= k < sizes.len() ==> #[trigger] sizes[k] > 0,
        ps.len() == sizes.len(),
        forall|k: int|
            0 <= k < sizes.len() ==> {
                &&& #[trigger] ps[k] == piece(e, raw, sizes, k, commit)
                &&& frame_fits(sessions, seq![candidate(e, raw, seq_sum(sizes.take(k)), sizes[k])], max)
                &&& base64_decoding(ps[k].0.data) == Some(
                    raw.subrange(seq_sum(sizes.take(k)) as int, (seq_sum(sizes.take(k)) + sizes[k]) as int),
                )
            },
    ensures
        split_into(sessions, max, e, commit, raw, sizes, ps),
{
}

proof fn lemma_valid_split_intro(
    sessions: Seq<char>,
    max: nat,
    e: EntryView,
    commit: CommitView,
    raw: Seq<u8>,
    sizes: Seq<nat>,
    ps: Seq<(EntryView, CommitView)>,
)
    requires
        !frame_fits(sessions, seq![e], max),
        base64_decoding(e.data) == Some(raw),
        split_into(sessions, max, e, commit, raw, sizes, ps),
    ensures
        valid_split(sessions, max, e, commit, ps),
{
    let r = base64_decoding(e.data)->0;
    assert(r == raw);
    assert(split_into(sessions, max, e, commit, r, sizes, ps));
}

proof fn lemma_no_byte_fits_intro(sessions: Seq<char>, max: nat, e: EntryView, raw: Seq<u8>, off: nat)
    requires
        base64_decoding(e.data) == Some(raw),
        off < raw.len(),
        !frame_fits(sessions, seq![candidate(e, raw, off, 1)], max),
    ensures
        base64_decoding(e.data) matches Some(r) && exists|o: nat|
            o < r.len() && !frame_fits(sessions, seq![#[trigger] candidate(e, r, o, 1)], max),
{
    let r = base64_decoding(e.data)->0;
    assert(r == raw);
    assert(!frame_fits(sessions, seq![candidate(e, r, off, 1)], max));
}

proof fn lemma_seq_sum_push(s: Seq<nat>, x: nat)
    ensures
        seq_sum(s.push(x)) == seq_sum(s) + x,
{
    assert(s.push(x).drop_last() =~= s);
}

fn sub_bytes(v: &Vec<u8>, start: usize, end: usize) -> (r: Vec<u8>)
    requires
        start <= end <= v.len(),
    ensures
        r@ == v@.subrange(start as int, end as int),
{
    let mut r: Vec<u8> = Vec::new();
    let mut i = start;
    while i < end
        invariant
            start <= i <= end <= v.len(),
            r@ == v@.subrange(start as int, i as int),
        decreases end - i,
    {
        r.push(v[i]);
        assert(v@.subrange(start as int, i + 1) =~= v@.subrange(start as int, i as int).push(v@[i as int]));
        i = i + 1;
    }
    r
}

fn copy_entry(e: &TerminalStreamEntry) -> (r: TerminalStreamEntry)
    ensures
        r@ == e@,
{
    TerminalStreamEntry {
        session: e.session.clone(),
        reset: e.reset,
        cursor: e.cursor,
        next_cursor: e.next_cursor,
        data_base64: e.data_base64.clone(),
    }
}

fn copy_commit(c: &Option<(String, u64)>) -> (r: Option<(String, u64)>)
    ensures
        commit_view(r) == commit_view(*c),
{
    match c {
        Some((s, n)) => Some((s.clone(), *n)),
        None => None,
    }
}

/// Splits an entry into ordered pieces that each fit in a frame with the
/// sessions metadata (see `valid_split`). A snapshot keeps `reset` on its
/// first piece only, and the durable cursor is committed with the last.
pub fn split_terminal_entry_to_fit(
    entry: TerminalStreamEntry,
    commit: Option<(String, u64)>,
    sessions: &str,
    max: usize,
) -> (r: Result<Vec<(TerminalStreamEntry, Option<(String, u64)>)>, PackError>)
    ensures
        match r {
            Ok(ps) => valid_split(sessions@, max as nat, entry@, commit_view(commit), planned_view(ps@))
                && forall|k: int|
                0 <= k < ps@.len() ==> frame_fits(
                    sessions@,
                    seq![#[trigger] planned_view(ps@)[k].0],
                    max as nat,
                ),
            Err(PackError::InvalidData) => !frame_fits(sessions@, seq![entry@], max as nat)
                && base64_decoding(entry.data_base64@) is None,
            Err(PackError::EmptyPayload) => !frame_fits(sessions@, seq![entry@], max as nat)
                && base64_decoding(entry.data_base64@) == Some(Seq::<u8>::empty()),
            Err(PackError::NoBytesFit) => !frame_fits(sessions@, seq![entry@], max as nat) && (
            base64_decoding(entry.data_base64@) matches Some(raw) && exists|off: nat|
                off < raw.len() && !frame_fits(
                    sessions@,
                    seq![#[trigger] candidate(entry@, raw, off, 1)],
                    max as nat,
                )),
            Err(_) => false,
        },
{
    let whole = vec![copy_entry(&entry)];
    assert(entries_view(whole@) =~= seq![entry@]);
    if fits_in_frame(sessions, &whole, max) {
        let r = vec![(entry, commit)];
        assert(planned_view(r@) =~= seq![(entry@, commit_view(commit))]);
        assert(planned_view(r@)[0].0 == entry@);
        return Ok(r);
    }
    let raw = match base64_decode(entry.data_base64.as_str()) {
        Some(raw) => raw,
        None => return Err(PackError::InvalidData),
    };
    if raw.len() == 0 {
        assert(raw@ =~= Seq::<u8>::empty());
        return Err(PackError::EmptyPayload);
    }
    let ghost e = entry@;
    let ghost cv = commit_view(commit);
    let ghost sv = sessions@;
    let mut pieces: Vec<(TerminalStreamEntry, Option<(String, u64)>)> = Vec::new();
    let mut offset: usize = 0;
    let mut stream_cursor: u64 = entry.cursor;
    let ghost mut sizes: Seq<nat> = Seq::empty();
    while offset < raw.len()
        invariant
            e == entry@,
            cv == commit_view(commit),
            sv == sessions@,
            base64_decoding(e.data) == Some(raw@),
            !frame_fits(sv, seq![e], max as nat),
            0 < raw.len(),
            offset <= raw.len(),
            seq_sum(sizes) == offset,
            forall|k: int| 0 <= k < sizes.len() ==> #[trigger] sizes[k] > 0,
            pieces.len() == sizes.len(),
            offset < raw.len() ==> stream_cursor == sat_add(e.cursor, offset as nat),
            forall|k: int|
                0 <= k < sizes.len() ==> {
                    &&& #[trigger] planned_view(pieces@)[k] == piece(e, raw@, sizes, k, cv)
                    &&& frame_fits(sv, seq![candidate(e, raw@, seq_sum(sizes.take(k)), sizes[k])], max as nat)
                    &&& base64_decoding(planned_view(pieces@)[k].0.data) == Some(
                        raw@.subrange(seq_sum(sizes.take(k)) as int, (seq_sum(sizes.take(k)) + sizes[k]) as int),
                    )
                },
        decreases raw.len() - offset,
    {
        let remaining = raw.len() - offset;
        let mut lo: usize = 1;
        let mut hi: usize = remaining;
        let mut best: usize = 0;
        while lo <= hi
            invariant
                e == entry@,
                sv == sessions@,
                offset < raw.len(),
                remaining == raw.len() - offset,
                stream_cursor == sat_add(e.cursor, offset as nat),
                1 <= lo,
                hi <= remaining,
                best <= remaining,
                hi + 1 >= lo,
                best == 0 ==> lo == 1,
                best > 0 ==> frame_fits(sv, seq![candidate(e, raw@, offset as nat, best as nat)], max as nat),
                best == 0 && hi < remaining ==> !frame_fits(
                    sv,
                    seq![candidate(e, raw@, offset as nat, (hi + 1) as nat)],
                    max as nat,
                ),
            decreases hi + 1 - lo,
        {
            let mid = lo + (hi - lo) / 2;
            let chunk = sub_bytes(&raw, offset, offset + mid);
            let probe = TerminalStreamEntry {
                session: entry.session.clone(),
                reset: entry.reset && offset == 0,
                cursor: stream_cursor,
                next_cursor: if offset + mid == raw.len() {
                    entry.next_cursor
                } else {
                    stream_cursor.saturating_add(mid as u64)
                },
                data_base64: base64_encode(chunk.as_slice()),
            };
            assert(probe@ == candidate(e, raw@, offset as nat, mid as nat));
            let single = vec![probe];
            assert(entries_view(single@) =~= seq![candidate(e, raw@, offset as nat, mid as nat)]);
            if fits_in_frame(sessions, &single, max) {
                best = mid;
                if mid == hi {
                    hi = mid - 1;
                } else {
                    lo = mid + 1;
                }
            } else {
                hi = mid - 1;
            }
        }
        if best == 0 {
            proof {
                lemma_no_byte_fits_intro(sv, max as nat, e, raw@, offset as nat);
            }
            return Err(PackError::NoBytesFit);
        }
        let chunk = sub_bytes(&raw, offset, offset + best);
        let is_last = offset + best >= raw.len();
        let next_cursor = if is_last {
            entry.next_cursor
        } else {
            stream_cursor.saturating_add(best as u64)
        };
        let item = TerminalStreamEntry {
            session: entry.session.clone(),
            reset: entry.reset && offset == 0,
            cursor: stream_cursor,
            next_cursor,
            data_base64: base64_encode(chunk.as_slice()),
        };
        let item_commit = if is_last {
            copy_commit(&commit)
        } else {
            None
        };
        let ghost old_sizes = sizes;
        let ghost old_pieces = planned_view(pieces@);
        pieces.push((item, item_commit));
        proof {
            sizes = sizes.push(best as nat);
            lemma_seq_sum_push(old_sizes, best as nat);
            let n = old_sizes.len() as int;
            assert(sizes.take(n) =~= old_sizes);
            assert(planned_view(pieces@) =~= old_pieces.push((item@, commit_view(item_commit))));
            assert(item@.data == base64_encoding(raw@.subrange(offset as int, offset + best)));
            assert(planned_view(pieces@)[n] == piece(e, raw@, sizes, n, cv));
            assert forall|k: int| 0 <= k < sizes.len() implies {
                &&& #[trigger] planned_view(pieces@)[k] == piece(e, raw@, sizes, k, cv)
                &&& frame_fits(sv, seq![candidate(e, raw@, seq_sum(sizes.take(k)), sizes[k])], max as nat)
                &&& base64_decoding(planned_view(pieces@)[k].0.data) == Some(
                    raw@.subrange(seq_sum(sizes.take(k)) as int, (seq_sum(sizes.take(k)) + sizes[k]) as int),
                )
            } by {
                if k < n {
                    assert(sizes.take(k) =~= old_sizes.take(k));
                    assert(sizes[k] == old_sizes[k]);
                    assert(planned_view(pieces@)[k] == old_pieces[k]);
                }
            }
            lemma_sat_add_twice(e.cursor, offset as nat, best as nat);
        }
        offset = offset + best;
        stream_cursor = next_cursor;
    }
    proof {
        assert(chunking(raw@.len(), sizes));
        assert(planned_view(pieces@).len() == sizes.len());
        assert(forall|k: int|
            0 <= k < sizes.len() ==> {
                &&& #[trigger] planned_view(pieces@)[k] == piece(e, raw@, sizes, k, cv)
                &&& frame_fits(sv, seq![candidate(e, raw@, seq_sum(sizes.take(k)), sizes[k])], max as nat)
            });
        lemma_split_into_intro(sv, max as nat, e, cv, raw@, sizes, planned_view(pieces@));
        assert forall|k: int| 0 <= k < pieces@.len() implies frame_fits(
            sv,
            seq![#[trigger] planned_view(pieces@)[k].0],
            max as nat,
        ) by {
            assert(planned_view(pieces@)[k] == piece(e, raw@, sizes, k, cv));
        }
        lemma_valid_split_intro(sv, max as nat, e, cv, raw@, sizes, planned_view(pieces@));
    }
    Ok(pieces)
}


/// The pieces' decoded data, in order (a piece that is not base64 adds
/// nothing).
pub open spec fn decoded_data(ps: Seq<(EntryView, CommitView)>) -> Seq<u8>
    decreases ps.len(),
{
    if ps.len() == 0 {
        Seq::empty()
    } else {
        decoded_data(ps.drop_last()) + match base64_decoding(ps.last().0.data) {
            Some(b) => b,
            None => Seq::empty(),
        }
    }
}

proof fn lemma_split_prefix_bytes(
    sessions: Seq<char>,
    max: nat,
    e: EntryView,
    commit: CommitView,
    raw: Seq<u8>,
    sizes: Seq<nat>,
    ps: Seq<(EntryView, CommitView)>,
    k: int,
)
    requires
        split_into(sessions, max, e, commit, raw, sizes, ps),
        0 <= k <= sizes.len(),
    ensures
        seq_sum(sizes.take(k)) <= raw.len(),
        decoded_data(ps.take(k)) == raw.subrange(0, seq_sum(sizes.take(k)) as int),
    decreases k,
{
    if k == 0 {
        assert(ps.take(0) =~= Seq::<(EntryView, CommitView)>::empty());
        assert(sizes.take(0) =~= Seq::<nat>::empty());
        assert(raw.subrange(0, 0) =~= Seq::<u8>::empty());
    } else {
        lemma_split_prefix_bytes(sessions, max, e, commit, raw, sizes, ps, k - 1);
        lemma_seq_sum_prefix(sizes, k);
        assert(sizes.take(k).drop_last() =~= sizes.take(k - 1));
        assert(ps.take(k).drop_last() =~= ps.take(k - 1));
        assert(ps.take(k).last() == ps[k - 1]);
        let off = seq_sum(sizes.take(k - 1));
        assert(base64_decoding(ps[k - 1].0.data) == Some(
            raw.subrange(off as int, (off + sizes[k - 1]) as int),
        ));
        assert(raw.subrange(0, off as int) + raw.subrange(off as int, (off + sizes[k - 1]) as int)
            =~= raw.subrange(0, (off + sizes[k - 1]) as int));
    }
}

proof fn lemma_seq_sum_prefix(sizes: Seq<nat>, k: int)
    requires
        0 <= k <= sizes.len(),
    ensures
        seq_sum(sizes.take(k)) <= seq_sum(sizes),
    decreases sizes.len() - k,
{
    if k < sizes.len() {
        lemma_seq_sum_prefix(sizes, k + 1);
        assert(sizes.take(k + 1).drop_last() =~= sizes.take(k));
    } else {
        assert(sizes.take(k) =~= sizes);
    }
}

/// Splitting loses and reorders no byte: the pieces' decoded data, in
/// order, is the entry's decoded data.
pub proof fn lemma_split_keeps_the_bytes(
    sessions: Seq<char>,
    max: nat,
    e: EntryView,
    commit: CommitView,
    ps: Seq<(EntryView, CommitView)>,
)
    requires
        valid_split(sessions, max, e, commit, ps),
        base64_decoding(e.data) is Some,
    ensures
        decoded_data(ps) == base64_decoding(e.data)->0,
{
    if frame_fits(sessions, seq![e], max) {
        assert(ps.drop_last() =~= Seq::<(EntryView, CommitView)>::empty());
        assert(ps.last() == (e, commit));
        assert(decoded_data(ps.drop_last()) =~= Seq::<u8>::empty());
        assert(decoded_data(ps) =~= base64_decoding(e.data)->0);
    } else {
        let raw = base64_decoding(e.data)->0;
        let sizes = choose|sizes: Seq<nat>| #[trigger] split_into(sessions, max, e, commit, raw, sizes, ps);
        lemma_split_prefix_bytes(sessions, max, e, commit, raw, sizes, ps, sizes.len() as int);
        assert(ps.take(ps.len() as int) =~= ps);
        assert(sizes.take(sizes.len() as int) =~= sizes);
        assert(raw.subrange(0, raw.len() as int) =~= raw);
    }
}

// ---------------------------------------------------------------------------
// Expanding entries into pieces
// ---------------------------------------------------------------------------

/// `ps` is the concatenation of valid splits of the entries, in order.
pub open spec fn valid_expansion(
    sessions: Seq<char>,
    max: nat,
    es: Seq<(EntryView, CommitView)>,
    ps: Seq<(EntryView, CommitView)>,
) -> bool
    decreases es.len(),
{
    if es.len() == 0 {
        ps.len() == 0
    } else {
        exists|j: int|
            #![trigger ps.take(j)]
            0 <= j <= ps.len() && valid_expansion(sessions, max, es.drop_last(), ps.take(j))
                && valid_split(sessions, max, es.last().0, es.last().1, ps.skip(j))
    }
}

pub proof fn lemma_expansion_push(
    sessions: Seq<char>,
    max: nat,
    es: Seq<(EntryView, CommitView)>,
    ps: Seq<(EntryView, CommitView)>,
    e: (EntryView, CommitView),
    qs: Seq<(EntryView, CommitView)>,
)
    requires
        valid_expansion(sessions, max, es, ps),
        valid_split(sessions, max, e.0, e.1, qs),
    ensures
        valid_expansion(sessions, max, es.push(e), ps + qs),
{
    let all = ps + qs;
    let j = ps.len() as int;
    assert(es.push(e).drop_last() =~= es);
    assert(all.take(j) =~= ps);
    assert(all.skip(j) =~= qs);
    assert(valid_expansion(sessions, max, es.push(e).drop_last(), all.take(j)));
}

/// A piece that does not fit alone comes from an entry that does not.
pub proof fn lemma_expansion_oversized_source(
    sessions: Seq<char>,
    max: nat,
    es: Seq<(EntryView, CommitView)>,
    ps: Seq<(EntryView, CommitView)>,
    k: int,
)
    requires
        valid_expansion(sessions, max, es, ps),
        0 <= k < ps.len(),
        !frame_fits(sessions, seq![ps[k].0], max),
    ensures
        exists|i: int| 0 <= i < es.len() && !frame_fits(sessions, seq![#[trigger] es[i].0], max),
    decreases es.len(),
{
    if es.len() == 0 {
    } else {
        let j = choose|j: int|
            #![trigger ps.take(j)]
            0 <= j <= ps.len() && valid_expansion(sessions, max, es.drop_last(), ps.take(j))
                && valid_split(sessions, max, es.last().0, es.last().1, ps.skip(j));
        if k < j {
            assert(ps.take(j)[k] == ps[k]);
            lemma_expansion_oversized_source(sessions, max, es.drop_last(), ps.take(j), k);
            let i = choose|i: int| 0 <= i < es.drop_last().len() && !frame_fits(sessions, seq![#[trigger] es.drop_last()[i].0], max);
            assert(es[i] == es.drop_last()[i]);
        } else {
            let last = es.len() - 1;
            assert(es[last] == es.last());
            if frame_fits(sessions, seq![es.last().0], max) {
                assert(ps.skip(j) == seq![(es.last().0, es.last().1)]);
                assert(ps.skip(j)[k - j] == ps[k]);
                assert(false);
            }
            assert(!frame_fits(sessions, seq![es[last].0], max));
        }
    }
}

/// When every entry fits alone, the expansion is the entries themselves.
pub proof fn lemma_expansion_of_fitting_entries(
    sessions: Seq<char>,
    max: nat,
    es: Seq<(EntryView, CommitView)>,
    ps: Seq<(EntryView, CommitView)>,
)
    requires
        valid_expansion(sessions, max, es, ps),
        forall|i: int| 0 <= i < es.len() ==> frame_fits(sessions, seq![#[trigger] es[i].0], max),
    ensures
        ps == es,
    decreases es.len(),
{
    if es.len() == 0 {
        assert(ps =~= es);
    } else {
        let j = choose|j: int|
            #![trigger ps.take(j)]
            0 <= j <= ps.len() && valid_expansion(sessions, max, es.drop_last(), ps.take(j))
                && valid_split(sessions, max, es.last().0, es.last().1, ps.skip(j));
        assert forall|i: int| 0 <= i < es.drop_last().len() implies frame_fits(
            sessions,
            seq![#[trigger] es.drop_last()[i].0],
            max,
        ) by {
            assert(es.drop_last()[i] == es[i]);
        }
        lemma_expansion_of_fitting_entries(sessions, max, es.drop_last(), ps.take(j));
        assert(es[es.len() - 1] == es.last());
        assert(ps.skip(j) == seq![(es.last().0, es.last().1)]);
        assert(ps =~= ps.take(j) + ps.skip(j));
        assert(es =~= es.drop_last().push(es.last()));
    }
}

fn copy_planned(p: &(TerminalStreamEntry, Option<(String, u64)>)) -> (r: (
    TerminalStreamEntry,
    Option<(String, u64)>,
))
    ensures
        r.0@ == p.0@,
        commit_view(r.1) == commit_view(p.1),
{
    (copy_entry(&p.0), copy_commit(&p.1))
}

/// Every entry split to fit (see `valid_expansion`), or the first failure.
fn expand_entries(
    entries: &Vec<(TerminalStreamEntry, Option<(String, u64)>)>,
    sessions: &str,
    max: usize,
) -> (r: Result<Vec<(TerminalStreamEntry, Option<(String, u64)>)>, PackError>)
    ensures
        match r {
            Ok(ps) => valid_expansion(sessions@, max as nat, planned_view(entries@), planned_view(ps@)),
            Err(e) => e != PackError::SessionsTooLarge && e != PackError::PieceTooLarge && exists|i: int|
                0 <= i < entries.len() && !frame_fits(
                    sessions@,
                    seq![#[trigger] planned_view(entries@)[i].0],
                    max as nat,
                ),
        },
{
    let ghost es = planned_view(entries@);
    let mut expanded: Vec<(TerminalStreamEntry, Option<(String, u64)>)> = Vec::new();
    let mut i: usize = 0;
    assert(es.take(0) =~= Seq::<(EntryView, CommitView)>::empty());
    while i < entries.len()
        invariant
            i <= entries.len(),
            es == planned_view(entries@),
            valid_expansion(sessions@, max as nat, es.take(i as int), planned_view(expanded@)),
        decreases entries.len() - i,
    {
        let (entry, commit) = copy_planned(&entries[i]);
        assert(es[i as int] == (entry@, commit_view(commit)));
        let mut pieces = match split_terminal_entry_to_fit(entry, commit, sessions, max) {
            Ok(pieces) => pieces,
            Err(e) => {
                assert(!frame_fits(sessions@, seq![es[i as int].0], max as nat));
                return Err(e);
            },
        };
        let ghost before = planned_view(expanded@);
        let ghost added = planned_view(pieces@);
        expanded.append(&mut pieces);
        proof {
            lemma_expansion_push(sessions@, max as nat, es.take(i as int), before, es[i as int], added);
            assert(es.take(i as int).push(es[i as int]) =~= es.take(i + 1));
            assert(planned_view(expanded@) =~= before + added);
        }
        i = i + 1;
    }
    assert(es.take(entries.len() as int) =~= es);
    Ok(expanded)
}


// ---------------------------------------------------------------------------
// Packing pieces into frames
// ---------------------------------------------------------------------------

/// One frame to send, with the durable cursors to store and the cursors to
/// forget once it is sent.
#[derive(Debug)]
pub struct WebEventsFramePlan {
    pub message: String,
    pub terminals: Vec<TerminalStreamEntry>,
    pub cursor_commits: Vec<(String, u64)>,
    pub cursor_drops: Vec<String>,
}

pub open spec fn entries_of(ps: Seq<(EntryView, CommitView)>) -> Seq<EntryView> {
    ps.map_values(|p: (EntryView, CommitView)| p.0)
}

/// The commits that the pieces carry, in order.
pub open spec fn commits_of(ps: Seq<(EntryView, CommitView)>) -> Seq<(Seq<char>, u64)>
    decreases ps.len(),
{
    if ps.len() == 0 {
        Seq::empty()
    } else {
        match ps.last().1 {
            Some(c) => commits_of(ps.drop_last()).push(c),
            None => commits_of(ps.drop_last()),
        }
    }
}

pub open spec fn concat_all(segs: Seq<Seq<(EntryView, CommitView)>>) -> Seq<(EntryView, CommitView)>
    decreases segs.len(),
{
    if segs.len() == 0 {
        Seq::empty()
    } else {
        concat_all(segs.drop_last()) + segs.last()
    }
}

pub open spec fn pairs_view(cs: Seq<(String, u64)>) -> Seq<(Seq<char>, u64)> {
    cs.map_values(|c: (String, u64)| (c.0@, c.1))
}

pub open spec fn strings_view(ss: Seq<String>) -> Seq<Seq<char>> {
    ss.map_values(|s: String| s@)
}

/// A frame sends exactly the pieces of `seg`, fits, and commits their
/// cursors.
pub open spec fn frame_holds(
    sessions: Seq<char>,
    max: nat,
    f: WebEventsFramePlan,
    seg: Seq<(EntryView, CommitView)>,
) -> bool {
    &&& f.message@ == frame_text(sessions, entries_view(f.terminals@))
    &&& frame_fits(sessions, entries_view(f.terminals@), max)
    &&& entries_view(f.terminals@) == entries_of(seg)
    &&& pairs_view(f.cursor_commits@) == commits_of(seg)
}

/// The frames send the pieces `ps` of the entries in order, grouped by
/// `segs`: every frame fits, the cursors to forget go with the first frame,
/// no frame is empty unless there is nothing to send, and each frame but the
/// last is full, in that the first piece of the next would not fit in it.
pub open spec fn packing(
    sessions: Seq<char>,
    max: nat,
    es: Seq<(EntryView, CommitView)>,
    drops: Seq<Seq<char>>,
    frames: Seq<WebEventsFramePlan>,
    ps: Seq<(EntryView, CommitView)>,
    segs: Seq<Seq<(EntryView, CommitView)>>,
) -> bool {
    &&& valid_expansion(sessions, max, es, ps)
    &&& concat_all(segs) == ps
    &&& segs.len() == frames.len()
    &&& frames.len() >= 1
    &&& (ps.len() == 0 ==> frames.len() == 1)
    &&& (ps.len() > 0 ==> forall|i: int| 0 <= i < segs.len() ==> #[trigger] segs[i].len() > 0)
    &&& forall|i: int| 0 <= i < frames.len() ==> frame_holds(sessions, max, #[trigger] frames[i], segs[i])
    &&& strings_view(frames[0].cursor_drops@) == drops
    &&& forall|i: int| 0 < i < frames.len() ==> (#[trigger] frames[i]).cursor_drops@.len() == 0
    &&& forall|i: int|
        0 <= i < frames.len() - 1 ==> !frame_fits(
            sessions,
            entries_of(#[trigger] segs[i]).push(segs[i + 1][0].0),
            max,
        )
}

/// Some expansion and grouping of the entries that the frames carry (see
/// `packing`).
pub open spec fn packed(
    sessions: Seq<char>,
    max: nat,
    es: Seq<(EntryView, CommitView)>,
    drops: Seq<Seq<char>>,
    frames: Seq<WebEventsFramePlan>,
) -> bool {
    exists|ps: Seq<(EntryView, CommitView)>, segs: Seq<Seq<(EntryView, CommitView)>>|
        #[trigger] packing(sessions, max, es, drops, frames, ps, segs)
}

/// The frame size bound: at least one byte.
pub open spec fn frame_bound(max_message_bytes: usize) -> nat {
    if max_message_bytes == 0 {
        1
    } else {
        max_message_bytes as nat
    }
}

proof fn lemma_commits_push(ps: Seq<(EntryView, CommitView)>, x: (EntryView, CommitView))
    ensures
        commits_of(ps.push(x)) == match x.1 {
            Some(c) => commits_of(ps).push(c),
            None => commits_of(ps),
        },
{
    assert(ps.push(x).drop_last() =~= ps);
}

proof fn lemma_concat_all_push(segs: Seq<Seq<(EntryView, CommitView)>>, s: Seq<(EntryView, CommitView)>)
    ensures
        concat_all(segs.push(s)) == concat_all(segs) + s,
{
    assert(segs.push(s).drop_last() =~= segs);
}

proof fn lemma_packing_witness(
    sessions: Seq<char>,
    max: nat,
    es: Seq<(EntryView, CommitView)>,
    drops: Seq<Seq<char>>,
    frames: Seq<WebEventsFramePlan>,
    ps: Seq<(EntryView, CommitView)>,
    segs: Seq<Seq<(EntryView, CommitView)>>,
)
    requires
        packing(sessions, max, es, drops, frames, ps, segs),
    ensures
        packed(sessions, max, es, drops, frames),
{
}

fn copy_entries(v: &Vec<TerminalStreamEntry>) -> (r: Vec<TerminalStreamEntry>)
    ensures
        entries_view(r@) == entries_view(v@),
{
    let mut r: Vec<TerminalStreamEntry> = Vec::new();
    let mut i: usize = 0;
    while i < v.len()
        invariant
            i <= v.len(),
            entries_view(r@) == entries_view(v@.take(i as int)),
        decreases v.len() - i,
    {
        let y = copy_entry(&v[i]);
        let ghost before = r@;
        r.push(y);
        assert(r@ == before.push(y));
        assert(entries_view(r@) =~= entries_view(before).push(y@));
        assert(v@.take(i + 1) =~= v@.take(i as int).push(v@[i as int]));
        assert(entries_view(v@.take(i + 1)) =~= entries_view(v@.take(i as int)).push(v@[i as int]@));
        i = i + 1;
    }
    assert(v@.take(v.len() as int) =~= v@);
    r
}

fn make_frame(
    sessions: &str,
    terminals: Vec<TerminalStreamEntry>,
    cursor_commits: Vec<(String, u64)>,
    cursor_drops: Vec<String>,
) -> (r: WebEventsFramePlan)
    ensures
        r.message@ == frame_text(sessions@, entries_view(terminals@)),
        r.terminals@ == terminals@,
        r.cursor_commits@ == cursor_commits@,
        r.cursor_drops@ == cursor_drops@,
{
    let message = frame_string(sessions, &terminals);
    WebEventsFramePlan { message, terminals, cursor_commits, cursor_drops }
}

/// Packs the entries into frames that each fit within the bound (at least
/// one byte): entries are split to fit (see `split_terminal_entry_to_fit`),
/// then pieces fill frames in order, a new frame starting when the next
/// piece would not fit. Cursor commits ride with the frame that carries
/// their piece; the cursors to forget ride with the first frame.
pub fn pack_web_events_frames(
    sessions: &str,
    terminal_entries: Vec<(TerminalStreamEntry, Option<(String, u64)>)>,
    cursor_drops: Vec<String>,
    max_message_bytes: usize,
) -> (r: Result<Vec<WebEventsFramePlan>, PackError>)
    ensures
        (r matches Err(PackError::SessionsTooLarge)) == !frame_fits(
            sessions@,
            Seq::empty(),
            frame_bound(max_message_bytes),
        ),
        (frame_fits(sessions@, Seq::empty(), frame_bound(max_message_bytes)) && forall|i: int|
            0 <= i < terminal_entries.len() ==> frame_fits(
                sessions@,
                seq![#[trigger] planned_view(terminal_entries@)[i].0],
                frame_bound(max_message_bytes),
            )) ==> r is Ok,
        match r {
            Ok(frames) => packed(
                sessions@,
                frame_bound(max_message_bytes),
                planned_view(terminal_entries@),
                strings_view(cursor_drops@),
                frames@,
            ),
            Err(PackError::SessionsTooLarge) => true,
            Err(_) => exists|i: int|
                0 <= i < terminal_entries.len() && !frame_fits(
                    sessions@,
                    seq![#[trigger] planned_view(terminal_entries@)[i].0],
                    frame_bound(max_message_bytes),
                ),
        },
{
    let max = if max_message_bytes == 0 {
        1
    } else {
        max_message_bytes
    };
    let ghost m = frame_bound(max_message_bytes);
    let ghost sv = sessions@;
    let ghost es = planned_view(terminal_entries@);
    let ghost dv = strings_view(cursor_drops@);
    let none: Vec<TerminalStreamEntry> = Vec::new();
    assert(entries_view(none@) =~= Seq::<EntryView>::empty());
    if !fits_in_frame(sessions, &none, max) {
        return Err(PackError::SessionsTooLarge);
    }
    let expanded = match expand_entries(&terminal_entries, sessions, max) {
        Ok(x) => x,
        Err(e) => return Err(e),
    };
    let ghost ex = planned_view(expanded@);
    let ghost all_fit = forall|i: int| 0 <= i < es.len() ==> frame_fits(sv, seq![#[trigger] es[i].0], m);
    proof {
        if all_fit {
            lemma_expansion_of_fitting_entries(sv, m, es, ex);
        }
    }
    let mut frames: Vec<WebEventsFramePlan> = Vec::new();
    if expanded.len() == 0 {
        let f = make_frame(sessions, none, Vec::new(), cursor_drops);
        frames.push(f);
        proof {
            let segs = seq![Seq::<(EntryView, CommitView)>::empty()];
            assert(ex =~= Seq::<(EntryView, CommitView)>::empty());
            assert(segs.drop_last() =~= Seq::<Seq<(EntryView, CommitView)>>::empty());
            assert(concat_all(segs.drop_last()) =~= Seq::<(EntryView, CommitView)>::empty());
            assert(concat_all(segs) =~= ex);
            assert(entries_of(segs[0]) =~= Seq::<EntryView>::empty());
            assert(commits_of(segs[0]) =~= Seq::<(Seq<char>, u64)>::empty());
            assert(pairs_view(frames@[0].cursor_commits@) =~= Seq::<(Seq<char>, u64)>::empty());
            assert(packing(sv, m, es, dv, frames@, ex, segs));
            lemma_packing_witness(sv, m, es, dv, frames@, ex, segs);
        }
        return Ok(frames);
    }
    let mut drops = cursor_drops;
    let mut terminals: Vec<TerminalStreamEntry> = Vec::new();
    let mut commits: Vec<(String, u64)> = Vec::new();
    let ghost mut segs: Seq<Seq<(EntryView, CommitView)>> = Seq::empty();
    let ghost mut cur: Seq<(EntryView, CommitView)> = Seq::empty();
    let mut i: usize = 0;
    assert(entries_of(cur) =~= entries_view(terminals@));
    assert(commits_of(cur) =~= pairs_view(commits@));
    assert(ex.take(0) =~= concat_all(segs) + cur);
    while i < expanded.len()
        invariant
            sv == sessions@,
            m == max as nat,
            m == frame_bound(max_message_bytes),
            es == planned_view(terminal_entries@),
            dv == strings_view(cursor_drops@),
            ex == planned_view(expanded@),
            0 < ex.len(),
            valid_expansion(sv, m, es, ex),
            frame_fits(sv, Seq::empty(), m),
            all_fit ==> forall|k: int| 0 <= k < ex.len() ==> frame_fits(sv, seq![#[trigger] ex[k].0], m),
            all_fit == forall|i: int| 0 <= i < es.len() ==> frame_fits(sv, seq![#[trigger] es[i].0], m),
            i <= ex.len(),
            concat_all(segs) + cur == ex.take(i as int),
            frames.len() == segs.len(),
            forall|k: int| 0 <= k < frames.len() ==> frame_holds(sv, m, #[trigger] frames@[k], segs[k]),
            forall|k: int| 0 <= k < segs.len() ==> #[trigger] segs[k].len() > 0,
            frames.len() == 0 ==> strings_view(drops@) == dv,
            frames.len() > 0 ==> drops@.len() == 0 && strings_view(frames@[0].cursor_drops@) == dv,
            forall|k: int| 0 < k < frames.len() ==> (#[trigger] frames@[k]).cursor_drops@.len() == 0,
            entries_view(terminals@) == entries_of(cur),
            pairs_view(commits@) == commits_of(cur),
            cur.len() > 0 ==> frame_fits(sv, entries_of(cur), m),
            i > 0 ==> cur.len() > 0,
            forall|k: int|
                0 <= k < frames.len() - 1 ==> !frame_fits(sv, entries_of(#[trigger] segs[k]).push(segs[k + 1][0].0), m),
            frames.len() > 0 && cur.len() > 0 ==> !frame_fits(sv, entries_of(segs.last()).push(cur[0].0), m),
        decreases expanded.len() - i,
    {
        let (entry, commit) = copy_planned(&expanded[i]);
        let ghost x = ex[i as int];
        assert(x == (entry@, commit_view(commit)));
        if terminals.len() > 0 {
            let mut probe = copy_entries(&terminals);
            probe.push(copy_entry(&entry));
            assert(entries_view(probe@) =~= entries_of(cur).push(entry@));
            if !fits_in_frame(sessions, &probe, max) {
                let mut d: Vec<String> = Vec::new();
                std::mem::swap(&mut d, &mut drops);
                let mut t: Vec<TerminalStreamEntry> = Vec::new();
                std::mem::swap(&mut t, &mut terminals);
                let mut c: Vec<(String, u64)> = Vec::new();
                std::mem::swap(&mut c, &mut commits);
                let f = make_frame(sessions, t, c, d);
                let ghost old_segs = segs;
                frames.push(f);
                proof {
                    segs = segs.push(cur);
                    lemma_concat_all_push(old_segs, cur);
                    assert(segs.last() == cur);
                    assert forall|k: int| 0 <= k < frames.len() - 1 implies !frame_fits(
                        sv,
                        entries_of(#[trigger] segs[k]).push(segs[k + 1][0].0),
                        m,
                    ) by {
                        assert(segs[k] == old_segs[k]);
                        if k + 1 < old_segs.len() {
                            assert(segs[k + 1] == old_segs[k + 1]);
                        } else {
                            assert(segs[k + 1] == cur);
                            assert(old_segs.last() == old_segs[k]);
                        }
                    }
                    assert forall|k: int| 0 <= k < frames.len() implies frame_holds(sv, m, #[trigger] frames@[k], segs[k]) by {
                        if k < old_segs.len() {
                            assert(segs[k] == old_segs[k]);
                        }
                    }
                    assert(entries_view(terminals@) =~= Seq::<EntryView>::empty());
                    assert(pairs_view(commits@) =~= Seq::<(Seq<char>, u64)>::empty());
                    cur = Seq::empty();
                    assert(entries_of(cur) =~= Seq::<EntryView>::empty());
                    assert(commits_of(cur) =~= Seq::<(Seq<char>, u64)>::empty());
                    assert(concat_all(segs) + cur =~= concat_all(segs));
                }
            }
        }
        let alone = vec![copy_entry(&entry)];
        assert(entries_view(alone@) =~= seq![entry@]);
        if !fits_in_frame(sessions, &alone, max) {
            proof {
                lemma_expansion_oversized_source(sv, m, es, ex, i as int);
            }
            return Err(PackError::PieceTooLarge);
        }
        let ghost old_cur = cur;
        let ghost old_terms = entries_view(terminals@);
        let ghost old_commits = pairs_view(commits@);
        terminals.push(entry);
        match commit {
            Some(c) => {
                commits.push(c);
            },
            None => {},
        }
        proof {
            cur = cur.push(x);
            lemma_commits_push(old_cur, x);
            assert(entries_view(terminals@) =~= old_terms.push(x.0));
            assert(entries_of(cur) =~= entries_of(old_cur).push(x.0));
            assert(pairs_view(commits@) =~= commits_of(cur));
            assert(ex.take(i + 1) =~= ex.take(i as int).push(x));
            assert(concat_all(segs) + cur =~= (concat_all(segs) + old_cur).push(x));
            if old_cur.len() == 0 {
                assert(entries_of(cur) =~= seq![x.0]);
            } else {
                assert(cur[0] == old_cur[0]);
            }
        }
        i = i + 1;
    }
    let message = frame_string(sessions, &terminals);
    let f = WebEventsFramePlan { message, terminals, cursor_commits: commits, cursor_drops: drops };
    let ghost old_segs = segs;
    frames.push(f);
    proof {
        segs = segs.push(cur);
        lemma_concat_all_push(old_segs, cur);
        assert(ex.take(ex.len() as int) =~= ex);
        assert forall|k: int| 0 <= k < frames.len() - 1 implies !frame_fits(
            sv,
            entries_of(#[trigger] segs[k]).push(segs[k + 1][0].0),
            m,
        ) by {
            assert(segs[k] == old_segs[k]);
            if k + 1 < old_segs.len() {
                assert(segs[k + 1] == old_segs[k + 1]);
            } else {
                assert(segs[k + 1] == cur);
                assert(old_segs.last() == old_segs[k]);
            }
        }
        assert forall|k: int| 0 <= k < frames.len() implies frame_holds(sv, m, #[trigger] frames@[k], segs[k]) by {
            if k < old_segs.len() {
                assert(segs[k] == old_segs[k]);
            }
        }
        assert forall|k: int| 0 <= k < segs.len() implies #[trigger] segs[k].len() > 0 by {
            if k < old_segs.len() {
                assert(segs[k] == old_segs[k]);
            }
        }
        assert(packing(sv, m, es, dv, frames@, ex, segs));
        lemma_packing_witness(sv, m, es, dv, frames@, ex, segs);
    }
    Ok(frames)
}


// ---------------------------------------------------------------------------
// Planning one session's entries
// ---------------------------------------------------------------------------

/// The snapshot of a session's screen: the whole stream up to `end`,
/// committed at `end`.
pub open spec fn reset_snapshot(session: Seq<char>, screen_ansi_base64: Seq<char>, end: u64) -> (
    EntryView,
    CommitView,
) {
    (
        EntryView { session, reset: true, cursor: 0, next_cursor: end, data: screen_ansi_base64 },
        Some((session, end)),
    )
}

/// The output from stream offset `c` to the end of the transcript, in
/// consecutive reads of at most `MAX_READ_BYTES` bytes, each committed at
/// its end.
pub open spec fn deltas(session: Seq<char>, v: TranscriptView, c: nat) -> Seq<(EntryView, CommitView)>
    decreases v.next() - c,
{
    if c >= v.next() || c < v.start {
        Seq::empty()
    } else {
        let n: nat = if v.next() - c < MAX_READ_BYTES {
            (v.next() - c) as nat
        } else {
            MAX_READ_BYTES as nat
        };
        let e = EntryView {
            session,
            reset: false,
            cursor: c as u64,
            next_cursor: (c + n) as u64,
            data: base64_encoding(v.bytes.subrange(c - v.start, c + n - v.start)),
        };
        seq![(e, Some((session, (c + n) as u64)))] + deltas(session, v, c + n)
    }
}

/// What a session sends a client whose durable cursor is `cursor`: the
/// screen snapshot for a new client, a forced resync, a cursor past the end
/// or one older than the retained output; nothing when the client is up to
/// date; else the output since its cursor.
pub open spec fn session_plan(
    session: Seq<char>,
    screen_ansi_base64: Seq<char>,
    cursor: Option<u64>,
    force_reset: bool,
    v: TranscriptView,
) -> Seq<(EntryView, CommitView)> {
    let end = v.next() as u64;
    match cursor {
        None => seq![reset_snapshot(session, screen_ansi_base64, end)],
        Some(c) => if force_reset || c > v.next() || c < v.start {
            seq![reset_snapshot(session, screen_ansi_base64, end)]
        } else {
            deltas(session, v, c as nat)
        },
    }
}

fn snapshot_entry(session: &str, screen_ansi_base64: &str, end: u64) -> (r: Vec<
    (TerminalStreamEntry, Option<(String, u64)>),
>)
    ensures
        planned_view(r@) == seq![reset_snapshot(session@, screen_ansi_base64@, end)],
{
    let entry = TerminalStreamEntry {
        session: session.to_string(),
        reset: true,
        cursor: 0,
        next_cursor: end,
        data_base64: screen_ansi_base64.to_string(),
    };
    let r = vec![(entry, Some((session.to_string(), end)))];
    assert(planned_view(r@) =~= seq![reset_snapshot(session@, screen_ansi_base64@, end)]);
    r
}

/// The entries for one session from its transcript (see `session_plan`);
/// the stream end is frozen at the transcript's end when planning starts.
pub fn plan_session_entries(
    session: &str,
    screen_ansi_base64: &str,
    cursor: Option<u64>,
    force_reset: bool,
    transcript: &Transcript,
) -> (r: Vec<(TerminalStreamEntry, Option<(String, u64)>)>)
    requires
        transcript.wf(),
    ensures
        planned_view(r@) == session_plan(session@, screen_ansi_base64@, cursor, force_reset, transcript@),
{
    let end = transcript.next_cursor();
    let ghost v = transcript@;
    let c = match cursor {
        None => return snapshot_entry(session, screen_ansi_base64, end),
        Some(c) => c,
    };
    if force_reset || c > end {
        return snapshot_entry(session, screen_ansi_base64, end);
    }
    let mut out: Vec<(TerminalStreamEntry, Option<(String, u64)>)> = Vec::new();
    let mut cur = c;
    while cur < end
        invariant
            transcript.wf(),
            v == transcript@,
            end == v.next(),
            c <= cur <= end,
            !force_reset,
            cursor == Some(c),
            cur > c ==> v.start <= c,
            v.start <= cur || cur == c,
            planned_view(out@) + deltas(session@, v, cur as nat) == deltas(session@, v, c as nat),
        decreases end - cur,
    {
        let t = match transcript.read(cur, MAX_READ_BYTES) {
            Ok(t) => t,
            Err(_) => {
                assert(false);
                return out;
            },
        };
        if t.truncated {
            assert(cur == c && c < v.start);
            return snapshot_entry(session, screen_ansi_base64, end);
        }
        let ghost n: nat = t.data@.len();
        let ghost old_out = planned_view(out@);
        let entry = TerminalStreamEntry {
            session: session.to_string(),
            reset: false,
            cursor: t.cursor,
            next_cursor: t.next_cursor,
            data_base64: base64_encode(t.data.as_slice()),
        };
        let next = t.next_cursor;
        out.push((entry, Some((session.to_string(), next))));
        proof {
            assert(planned_view(out@) =~= old_out.push((entry@, Some((session@, next)))));
            assert(deltas(session@, v, cur as nat) =~= seq![(entry@, Some((session@, next)))] + deltas(session@, v, next as nat));
        }
        cur = next;
    }
    proof {
        if c < v.start {
            assert(cur == c);
        }
    }
    out
}


/// The sessions among `cursor_sessions` that are no longer `active`, in
/// order: their cursors are forgotten once the next frame is sent.
pub fn closed_cursor_sessions(cursor_sessions: &Vec<String>, active: &Vec<String>) -> (r: Vec<String>)
    ensures
        strings_view(r@) == strings_view(cursor_sessions@).filter(
            |s: Seq<char>| !strings_view(active@).contains(s),
        ),
{
    let ghost keep = |s: Seq<char>| !strings_view(active@).contains(s);
    let mut r: Vec<String> = Vec::new();
    let mut i: usize = 0;
    while i < cursor_sessions.len()
        invariant
            i <= cursor_sessions.len(),
            keep == (|s: Seq<char>| !strings_view(active@).contains(s)),
            strings_view(r@) == strings_view(cursor_sessions@.take(i as int)).filter(keep),
        decreases cursor_sessions.len() - i,
    {
        let s = &cursor_sessions[i];
        let mut found = false;
        let mut j: usize = 0;
        while j < active.len()
            invariant
                j <= active.len(),
                found == exists|k: int| 0 <= k < j && active@[k]@ == s@,
            decreases active.len() - j,
        {
            if str_eq(active[j].as_str(), s.as_str()) {
                found = true;
            }
            j = j + 1;
        }
        proof {
            assert(found == strings_view(active@).contains(s@)) by {
                if found {
                    let k = choose|k: int| 0 <= k < active.len() && active@[k]@ == s@;
                    assert(strings_view(active@)[k] == s@);
                }
                if strings_view(active@).contains(s@) {
                    let k = choose|k: int| 0 <= k < strings_view(active@).len() && strings_view(active@)[k] == s@;
                    assert(active@[k]@ == s@);
                }
            }
        }
        let ghost before = strings_view(r@);
        if !found {
            r.push(s.clone());
        }
        proof {
            let t = strings_view(cursor_sessions@.take(i + 1));
            assert(cursor_sessions@.take(i + 1) =~= cursor_sessions@.take(i as int).push(*s));
            assert(t =~= strings_view(cursor_sessions@.take(i as int)).push(s@));
            strings_view(cursor_sessions@.take(i as int)).lemma_filter_push(s@, keep);
            if !found {
                assert(strings_view(r@) =~= before.push(s@));
            }
        }
        i = i + 1;
    }
    assert(cursor_sessions@.take(cursor_sessions.len() as int) =~= cursor_sessions@);
    r
}

} // verus!
