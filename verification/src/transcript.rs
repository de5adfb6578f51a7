//! The bounded record of a session's terminal output. Output is kept as the
//! chunks in which it arrived, each tagged with its byte offset in the
//! session's whole output stream; the oldest chunks are dropped once the
//! record exceeds its budget. Reads address the stream by byte offset.
use crate::codec::{base64_decoding, base64_encoding, payload_base64};
use crate::protocol::{ReadResult, SessionPhase};
use crate::session::{is_terminal, phase_is_terminal};
use std::collections::VecDeque;
use vstd::prelude::*;

verus! {

pub const MAX_TRANSCRIPT_BYTES: usize = 524288;
pub const MAX_READ_BYTES: usize = 65536;

/// Bytes that arrived together, starting at stream offset `start`.
#[derive(Clone, Debug, PartialEq, Eq)]
pub struct OutputChunk {
    pub start: u64,
    pub data: Vec<u8>,
}

pub open spec fn concat(c: Seq<OutputChunk>) -> Seq<u8>
    decreases c.len(),
{
    if c.len() == 0 {
        Seq::<u8>::empty()
    } else {
        concat(c.drop_last()) + c.last().data@
    }
}

/// The chunks that remain after dropping the oldest ones until at most
/// `max` bytes are kept.
pub open spec fn evicted(c: Seq<OutputChunk>, max: nat) -> Seq<OutputChunk>
    decreases c.len(),
{
    if c.len() > 0 && concat(c).len() > max {
        evicted(c.drop_first(), max)
    } else {
        c
    }
}

/// The retained part of the output stream: the bytes from stream offset
/// `start` on.
pub struct TranscriptView {
    pub start: nat,
    pub bytes: Seq<u8>,
}

impl TranscriptView {
    /// The stream offset just past the newest byte.
    pub open spec fn next(self) -> nat {
        self.start + self.bytes.len()
    }
}

pub struct Transcript {
    chunks: VecDeque<OutputChunk>,
    transcript_bytes: usize,
    next_cursor: u64,
}

/// A read of the transcript: the bytes from `cursor` (inclusive) to
/// `next_cursor` (exclusive), and whether the requested cursor had already
/// been dropped.
#[derive(Clone, Debug, PartialEq, Eq)]
pub struct TranscriptRead {
    pub cursor: u64,
    pub next_cursor: u64,
    pub data: Vec<u8>,
    pub truncated: bool,
}

#[derive(Clone, Copy, Debug, PartialEq, Eq, Structural)]
pub enum ReadError {
    /// The cursor lies beyond the newest byte.
    CursorBeyondLatest,
}

pub proof fn lemma_concat_push(c: Seq<OutputChunk>, x: OutputChunk)
    ensures
        concat(c.push(x)) == concat(c) + x.data@,
{
    assert(c.push(x).drop_last() =~= c);
}

pub proof fn lemma_concat_take_step(c: Seq<OutputChunk>, k: int)
    requires
        0 <= k < c.len(),
    ensures
        concat(c.take(k + 1)) == concat(c.take(k)) + c[k].data@,
{
    assert(c.take(k + 1).drop_last() =~= c.take(k));
}

pub proof fn lemma_concat_front(c: Seq<OutputChunk>)
    requires
        c.len() > 0,
    ensures
        concat(c) == c[0].data@ + concat(c.drop_first()),
    decreases c.len(),
{
    if c.len() == 1 {
        assert(c.drop_last() =~= Seq::<OutputChunk>::empty());
        assert(c.drop_first() =~= Seq::<OutputChunk>::empty());
        assert(concat(c.drop_first()) =~= Seq::<u8>::empty());
        assert(concat(c) =~= c[0].data@);
    } else {
        lemma_concat_front(c.drop_last());
        assert(c.drop_last().drop_first() =~= c.drop_first().drop_last());
        assert(c.drop_first().last() == c.last());
        assert(c.drop_last()[0] == c[0]);
    }
}

pub proof fn lemma_concat_take_prefix(c: Seq<OutputChunk>, j: int)
    requires
        0 <= j <= c.len(),
    ensures
        concat(c.take(j)).len() <= concat(c).len(),
        concat(c).take(concat(c.take(j)).len() as int) == concat(c.take(j)),
    decreases c.len() - j,
{
    if j == c.len() {
        assert(c.take(j) =~= c);
        assert(concat(c).take(concat(c).len() as int) =~= concat(c));
    } else {
        lemma_concat_take_prefix(c, j + 1);
        lemma_concat_take_step(c, j);
        let a = concat(c.take(j));
        let b = concat(c.take(j + 1));
        assert(b.take(a.len() as int) =~= a);
        assert(concat(c).take(a.len() as int) =~= b.take(a.len() as int));
    }
}

pub proof fn lemma_concat_chunk_at(c: Seq<OutputChunk>, k: int)
    requires
        0 <= k < c.len(),
    ensures
        concat(c.take(k)).len() + c[k].data@.len() <= concat(c).len(),
        concat(c).subrange(
            concat(c.take(k)).len() as int,
            (concat(c.take(k)).len() + c[k].data@.len()) as int,
        ) == c[k].data@,
{
    lemma_concat_take_prefix(c, k + 1);
    lemma_concat_take_step(c, k);
    let p = concat(c.take(k)).len() as int;
    let b = concat(c.take(k + 1));
    assert(concat(c).subrange(p, p + c[k].data@.len()) =~= b.subrange(p, p + c[k].data@.len()));
    assert(b.subrange(p, p + c[k].data@.len()) =~= c[k].data@);
}

pub proof fn lemma_concat_take_drop_first(c: Seq<OutputChunk>, k: int)
    requires
        c.len() > 0,
        0 <= k < c.len(),
    ensures
        concat(c.take(k + 1)) == c[0].data@ + concat(c.drop_first().take(k)),
{
    lemma_concat_front(c.take(k + 1));
    assert(c.take(k + 1).drop_first() =~= c.drop_first().take(k));
}

pub proof fn lemma_evicted_keeps_last(c: Seq<OutputChunk>, max: nat)
    requires
        c.len() > 0,
        c.last().data@.len() <= max,
    ensures
        evicted(c, max).len() > 0,
        evicted(c, max).last() == c.last(),
    decreases c.len(),
{
    if c.len() == 1 {
        assert(c.drop_last() =~= Seq::<OutputChunk>::empty());
        assert(concat(Seq::<OutputChunk>::empty()) =~= Seq::<u8>::empty());
        assert(concat(c.drop_last()) =~= Seq::<u8>::empty());
        assert(concat(c) =~= c.last().data@);
    } else if concat(c).len() > max {
        assert(c.drop_first().last() == c.last());
        lemma_evicted_keeps_last(c.drop_first(), max);
    }
}

impl View for Transcript {
    type V = TranscriptView;

    closed spec fn view(&self) -> TranscriptView {
        let c = self.chunks@;
        TranscriptView {
            start: if c.len() > 0 {
                c[0].start as nat
            } else {
                self.next_cursor as nat
            },
            bytes: concat(c),
        }
    }
}

impl Transcript {
    /// The chunks currently kept, oldest first.
    pub closed spec fn chunk_seq(&self) -> Seq<OutputChunk> {
        self.chunks@
    }

    pub closed spec fn next_cursor_spec(&self) -> u64 {
        self.next_cursor
    }

    /// Every chunk starts where the previous one ended, the byte count is
    /// exact, and the budget holds.
    pub closed spec fn wf(&self) -> bool {
        let c = self.chunks@;
        &&& forall|k: int|
            0 <= k < c.len() ==> #[trigger] c[k].start == self@.start + concat(c.take(k)).len()
        &&& self.next_cursor == self@.next()
        &&& self.transcript_bytes == concat(c).len()
        &&& self.transcript_bytes <= MAX_TRANSCRIPT_BYTES
    }

    pub fn new() -> (r: Self)
        ensures
            r.wf(),
            r@.start == 0,
            r@.bytes.len() == 0,
    {
        Transcript { chunks: VecDeque::new(), transcript_bytes: 0, next_cursor: 0 }
    }

    /// The stream offset just past the newest byte.
    pub fn next_cursor(&self) -> (r: u64)
        requires
            self.wf(),
        ensures
            r == self@.next(),
    {
        self.next_cursor
    }

    /// Adds output at the end of the stream, then drops the oldest chunks
    /// until the record fits its budget.
    pub fn append(&mut self, data: Vec<u8>)
        requires
            old(self).wf(),
            old(self)@.next() + data@.len() <= u64::MAX,
        ensures
            final(self).wf(),
            final(self).chunk_seq() == evicted(
                old(self).chunk_seq().push(OutputChunk { start: old(self).next_cursor_spec(), data }),
                MAX_TRANSCRIPT_BYTES as nat,
            ),
            final(self)@.next() == old(self)@.next() + data@.len(),
            data@.len() <= MAX_TRANSCRIPT_BYTES ==> {
                &&& final(self)@.start <= old(self)@.next()
                &&& final(self)@.bytes.len() >= data@.len()
                &&& final(self)@.bytes.skip(final(self)@.bytes.len() - data@.len()) == data@
            },
    {
        let ghost old_view = self@;
        let ghost old_chunks = self.chunks@;
        let start = self.next_cursor;
        let len = data.len();
        let ghost chunk = OutputChunk { start, data };
        self.next_cursor = start + len as u64;
        self.chunks.push_back(OutputChunk { start, data });
        proof {
            lemma_concat_push(old_chunks, chunk);
            assert(self.chunks@ =~= old_chunks.push(chunk));
            let c = self.chunks@;
            assert forall|k: int| 0 <= k < c.len() implies #[trigger] c[k].start == self@.start
                + concat(c.take(k)).len() by {
                if k < old_chunks.len() {
                    assert(c.take(k) =~= old_chunks.take(k));
                } else {
                    assert(c.take(k) =~= old_chunks);
                }
            }
        }
        let mut total: u64 = self.transcript_bytes as u64 + len as u64;
        while total > MAX_TRANSCRIPT_BYTES as u64
            invariant
                total == concat(self.chunks@).len(),
                forall|k: int|
                    0 <= k < self.chunks@.len() ==> #[trigger] self.chunks@[k].start == self@.start
                        + concat(self.chunks@.take(k)).len(),
                self.next_cursor == self@.next(),
                self.next_cursor == old_view.next() + len,
                evicted(self.chunks@, MAX_TRANSCRIPT_BYTES as nat) == evicted(
                    old_chunks.push(chunk),
                    MAX_TRANSCRIPT_BYTES as nat,
                ),
            decreases self.chunks@.len(),
        {
            let ghost before = self.chunks@;
            let ghost old_start = self@.start;
            assert(before.len() > 0);
            let removed = self.chunks.pop_front().unwrap();
            proof {
                assert(self.chunks@ =~= before.drop_first());
                lemma_concat_front(before);
                let c = self.chunks@;
                if c.len() > 0 {
                    lemma_concat_take_drop_first(before, 0);
                    assert(c.take(0) =~= Seq::<OutputChunk>::empty());
                    assert(concat(c.take(0)) =~= Seq::<u8>::empty());
                    assert(before[1].start == old_start + concat(before.take(1)).len());
                    assert(self@.start == before[1].start);
                }
                assert forall|k: int| 0 <= k < c.len() implies #[trigger] c[k].start == self@.start
                    + concat(c.take(k)).len() by {
                    lemma_concat_take_drop_first(before, k);
                    assert(before[k + 1] == c[k]);
                    assert(before[k + 1].start == old_start + concat(before.take(k + 1)).len());
                }
                if c.len() == 0 {
                    assert(concat(c) =~= Seq::<u8>::empty());
                }
            }
            total = total - removed.data.len() as u64;
        }
        self.transcript_bytes = total as usize;
        proof {
            let c = self.chunks@;
            assert(evicted(c, MAX_TRANSCRIPT_BYTES as nat) == c);
            if len <= MAX_TRANSCRIPT_BYTES {
                let pushed = old_chunks.push(chunk);
                assert(pushed.last() == chunk);
                lemma_evicted_keeps_last(pushed, MAX_TRANSCRIPT_BYTES as nat);
                let n = c.len() as int;
                assert(c.last() == chunk);
                assert(c.take(n - 1) =~= c.drop_last());
                assert(c[n - 1].start == self@.start + concat(c.take(n - 1)).len());
                let b = concat(c);
                assert(b == concat(c.drop_last()) + chunk.data@);
                assert(b.skip(b.len() - chunk.data@.len()) =~= chunk.data@);
            }
        }
    }

    /// Reads up to `limit` bytes (clamped to between 1 and 64 KiB) from
    /// stream offset `cursor`. A cursor older than the retained output reads
    /// from the oldest retained byte and reports the read as truncated.
    pub fn read(&self, cursor: u64, limit: usize) -> (r: Result<TranscriptRead, ReadError>)
        requires
            self.wf(),
        ensures
            match r {
                Ok(t) => read_of(self@, cursor as nat, limit as nat) == Ok::<
                    (nat, Seq<u8>, bool),
                    ReadError,
                >((t.cursor as nat, t.data@, t.truncated)) && t.next_cursor == t.cursor
                    + t.data@.len(),
                Err(e) => read_of(self@, cursor as nat, limit as nat) == Err::<
                    (nat, Seq<u8>, bool),
                    ReadError,
                >(e),
            },
    {
        if cursor > self.next_cursor {
            return Err(ReadError::CursorBeyondLatest);
        }
        let limit = if limit < 1 {
            1
        } else if limit > MAX_READ_BYTES {
            MAX_READ_BYTES
        } else {
            limit
        };
        let oldest = if self.chunks.len() > 0 {
            self.chunks[0].start
        } else {
            self.next_cursor
        };
        let actual = if cursor > oldest {
            cursor
        } else {
            oldest
        };
        let ghost c = self.chunks@;
        let ghost bytes = concat(c);
        let ghost rel: int = actual - oldest;
        assert(oldest == self@.start);
        let mut output: Vec<u8> = Vec::new();
        let mut k: usize = 0;
        assert(c.take(c.len() as int) =~= c);
        assert(c.take(0) =~= Seq::<OutputChunk>::empty());
        while k < self.chunks.len()
            invariant_except_break
                output@.len() < limit,
                ({
                    let p = concat(c.take(k as int)).len() as int;
                    output@ == bytes.subrange(rel, if p > rel { p } else { rel })
                }),
            invariant
                self.wf(),
                c == self.chunks@,
                bytes == concat(c),
                oldest == self@.start,
                rel == actual - oldest,
                0 <= rel <= bytes.len(),
                1 <= limit <= MAX_READ_BYTES,
                k <= c.len(),
                concat(c.take(c.len() as int)) == bytes,
            ensures
                output@.len() <= limit,
                ({
                    let e = if rel + limit < bytes.len() { rel + limit } else { bytes.len() as int };
                    output@ == bytes.subrange(rel, e)
                }),
            decreases c.len() - k,
        {
            let chunk = &self.chunks[k];
            let chunk_len = chunk.data.len();
            let ghost p = concat(c.take(k as int)).len() as int;
            proof {
                lemma_concat_chunk_at(c, k as int);
                lemma_concat_take_step(c, k as int);
                assert(chunk.start == self@.start + p);
            }
            let end = chunk.start + chunk_len as u64;
            if end <= actual {
                k = k + 1;
                continue;
            }
            let offset: usize = if actual > chunk.start {
                (actual - chunk.start) as usize
            } else {
                0
            };
            assert(offset <= chunk_len);
            let room = limit - output.len();
            let available = chunk_len - offset;
            let take = if available < room {
                available
            } else {
                room
            };
            let ghost before = output@;
            let mut m: usize = 0;
            while m < take
                invariant
                    offset + take <= chunk.data@.len(),
                    chunk.data@.len() == chunk_len,
                    m <= take,
                    output@ == before + chunk.data@.subrange(offset as int, offset + m),
                decreases take - m,
            {
                output.push(chunk.data[offset + m]);
                proof {
                    assert(chunk.data@.subrange(offset as int, offset + m + 1) =~= chunk.data@.subrange(
                        offset as int,
                        offset + m,
                    ).push(chunk.data@[offset + m]));
                }
                m = m + 1;
            }
            proof {
                let lo = if p > rel { p } else { rel };
                assert(lo == p + offset);
                assert(bytes.subrange(p, p + chunk_len) == chunk.data@);
                assert(chunk.data@.subrange(offset as int, offset + take) =~= bytes.subrange(
                    lo,
                    lo + take,
                ));
                assert(output@ =~= bytes.subrange(rel, lo + take));
            }
            if output.len() == limit {
                break;
            }
            k = k + 1;
        }
        proof {
            assert(c.take(c.len() as int) =~= c);
        }
        let next_cursor = actual + output.len() as u64;
        Ok(TranscriptRead { cursor: actual, next_cursor, data: output, truncated: cursor < oldest })
    }
}

pub open spec fn read_of(v: TranscriptView, cursor: nat, limit: nat) -> Result<
    (nat, Seq<u8>, bool),
    ReadError,
> {
    if cursor > v.next() {
        Err(ReadError::CursorBeyondLatest)
    } else {
        let lim: nat = if limit < 1 {
            1
        } else if limit > MAX_READ_BYTES {
            MAX_READ_BYTES as nat
        } else {
            limit
        };
        let actual: nat = if cursor > v.start {
            cursor
        } else {
            v.start
        };
        let rel = actual - v.start;
        let end = if rel + lim < v.bytes.len() {
            rel + lim
        } else {
            v.bytes.len() as int
        };
        Ok((actual, v.bytes.subrange(rel, end), cursor < v.start))
    }
}


/// What `read` gives back of what `append` wrote: reading from the offset at
/// which output was appended returns exactly that output, provided it fit
/// the transcript budget and the read limit.
pub proof fn lemma_read_returns_appended(
    before: Transcript,
    after: Transcript,
    data: Vec<u8>,
    limit: nat,
)
    requires
        before.wf(),
        after.wf(),
        after.chunk_seq() == evicted(
            before.chunk_seq().push(OutputChunk { start: before.next_cursor_spec(), data }),
            MAX_TRANSCRIPT_BYTES as nat,
        ),
        data@.len() <= MAX_TRANSCRIPT_BYTES,
        1 <= limit <= MAX_READ_BYTES,
        data@.len() <= limit,
    ensures
        read_of(after@, before@.next(), limit) == Ok::<(nat, Seq<u8>, bool), ReadError>(
            (before@.next(), data@, false),
        ),
{
    let chunk = OutputChunk { start: before.next_cursor_spec(), data };
    let pushed = before.chunk_seq().push(chunk);
    lemma_evicted_keeps_last(pushed, MAX_TRANSCRIPT_BYTES as nat);
    let c = after.chunks@;
    let n = c.len() as int;
    assert(c.last() == chunk);
    assert(c.take(n - 1) =~= c.drop_last());
    assert(c[n - 1].start == after@.start + concat(c.take(n - 1)).len());
    let b = concat(c);
    assert(b == concat(c.drop_last()) + data@);
    assert(after@.start + b.len() == before@.next() + data@.len());
    assert(b.skip(b.len() - data@.len()) =~= data@);
    let rel = before@.next() - after@.start;
    assert(b.subrange(rel, b.len() as int) =~= data@);
}

/// The answer to a read request on session `session`: the transcript read
/// with its bytes in base64, the current screen text, and whether the
/// session has ended.
pub fn read_result(session: String, read: TranscriptRead, screen: String, phase: SessionPhase) -> (r: ReadResult)
    ensures
        r.session@ == session@,
        r.cursor == read.cursor,
        r.next_cursor == read.next_cursor,
        r.data_base64@ == base64_encoding(read.data@),
        base64_decoding(r.data_base64@) == Some(read.data@),
        r.plain_text is None,
        r.screen == Some(screen),
        r.truncated == read.truncated,
        r.eof == is_terminal(phase),
{
    let data_base64 = payload_base64(read.data.as_slice());
    ReadResult {
        session,
        cursor: read.cursor,
        next_cursor: read.next_cursor,
        data_base64,
        plain_text: None,
        screen: Some(screen),
        truncated: read.truncated,
        eof: phase_is_terminal(phase),
    }
}

} // verus!
