//! Whether a process group on Linux still has a living member, judged from
//! one pass over `/proc`: the caller lists the process entries and reads
//! each one's `stat` file; the fields are read and the verdict is made here.
use crate::session::ScopeAlive;
use crate::text::{char_is_whitespace, chars_of, is_whitespace, parse_u32, parse_unsigned, string_from_chars};
use vstd::prelude::*;

verus! {

/// Where the last `") "` of a `stat` line starts: the command name in
/// parentheses may itself hold `") "`, the fields after it cannot.
pub open spec fn last_paren_space(s: Seq<char>) -> Option<int>
    decreases s.len(),
{
    if s.len() < 2 {
        None
    } else if s[s.len() - 2] == ')' && s[s.len() - 1] == ' ' {
        Some(s.len() - 2)
    } else {
        last_paren_space(s.drop_last())
    }
}

/// The length of the run of non-whitespace characters at the start of `s`.
pub open spec fn word_len(s: Seq<char>) -> nat
    decreases s.len(),
{
    if s.len() == 0 || is_whitespace(s[0]) {
        0
    } else {
        1 + word_len(s.drop_first())
    }
}

pub proof fn lemma_word_len_bounds(s: Seq<char>)
    ensures
        word_len(s) <= s.len(),
        s.len() > 0 && !is_whitespace(s[0]) ==> word_len(s) >= 1,
    decreases s.len(),
{
    if s.len() > 0 && !is_whitespace(s[0]) {
        lemma_word_len_bounds(s.drop_first());
    }
}

/// The whitespace-separated words of `s` (as `str::split_whitespace` gives
/// them).
pub open spec fn words(s: Seq<char>) -> Seq<Seq<char>>
    decreases s.len(),
{
    if s.len() == 0 {
        Seq::empty()
    } else if is_whitespace(s[0]) {
        words(s.drop_first())
    } else {
        proof {
            lemma_word_len_bounds(s);
        }
        seq![s.take(word_len(s) as int)] + words(s.skip(word_len(s) as int))
    }
}

proof fn lemma_word_len_is(s: Seq<char>, k: int)
    requires
        0 <= k <= s.len(),
        forall|m: int| 0 <= m < k ==> !is_whitespace(#[trigger] s[m]),
        k == s.len() || is_whitespace(s[k]),
    ensures
        word_len(s) == k,
    decreases k,
{
    if k > 0 {
        let t = s.drop_first();
        assert forall|m: int| 0 <= m < k - 1 implies !is_whitespace(#[trigger] t[m]) by {
            assert(t[m] == s[m + 1]);
        }
        if k < s.len() {
            assert(t[k - 1] == s[k]);
        }
        lemma_word_len_is(t, k - 1);
    }
}

/// The process state and the process group of a `stat` line: the first and
/// third field after the command name. `None` when the line has no command
/// name in parentheses.
pub open spec fn stat_fields_of(s: Seq<char>) -> Option<(Option<Seq<char>>, Option<nat>)> {
    match last_paren_space(s) {
        None => None,
        Some(i) => {
            let w = words(s.skip(i + 2));
            Some(
                (
                    if w.len() > 0 {
                        Some(w[0])
                    } else {
                        None
                    },
                    if w.len() > 2 {
                        parse_unsigned(w[2], u32::MAX as nat)
                    } else {
                        None
                    },
                ),
            )
        },
    }
}

fn find_last_paren_space(v: &Vec<char>) -> (r: Option<usize>)
    ensures
        match r {
            Some(i) => last_paren_space(v@) == Some(i as int) && i + 2 <= v@.len(),
            None => last_paren_space(v@) is None,
        },
{
    let mut n: usize = v.len();
    assert(v@.take(v@.len() as int) =~= v@);
    while n >= 2
        invariant
            n <= v@.len(),
            last_paren_space(v@) == last_paren_space(v@.take(n as int)),
        decreases n,
    {
        let t = Ghost(v@.take(n as int));
        if v[n - 2] == ')' && v[n - 1] == ' ' {
            assert(t@[t@.len() - 2] == v@[n - 2]);
            assert(t@[t@.len() - 1] == v@[n - 1]);
            return Some(n - 2);
        }
        proof {
            assert(t@[t@.len() - 2] == v@[n - 2]);
            assert(t@[t@.len() - 1] == v@[n - 1]);
            assert(t@.drop_last() =~= v@.take(n - 1));
        }
        n = n - 1;
    }
    None
}

/// The words of `v` from index `start` on.
fn words_from(v: &Vec<char>, start: usize) -> (r: Vec<Vec<char>>)
    requires
        start <= v@.len(),
    ensures
        r@.map_values(|w: Vec<char>| w@) == words(v@.skip(start as int)),
{
    let mut out: Vec<Vec<char>> = Vec::new();
    let mut i: usize = start;
    while i < v.len()
        invariant
            start <= i <= v@.len(),
            words(v@.skip(start as int)) == out@.map_values(|w: Vec<char>| w@) + words(v@.skip(i as int)),
        decreases v.len() - i,
    {
        let ghost rest = v@.skip(i as int);
        assert(rest[0] == v@[i as int]);
        if char_is_whitespace(v[i]) {
            assert(rest.drop_first() =~= v@.skip(i + 1));
            i = i + 1;
        } else {
            let mut j: usize = i;
            let mut word: Vec<char> = Vec::new();
            while j < v.len() && !char_is_whitespace(v[j])
                invariant
                    i <= j <= v@.len(),
                    word@ == v@.subrange(i as int, j as int),
                    forall|m: int| i <= m < j ==> !is_whitespace(#[trigger] v@[m]),
                decreases v.len() - j,
            {
                word.push(v[j]);
                proof {
                    assert(v@.subrange(i as int, j + 1) =~= v@.subrange(i as int, j as int).push(v@[j as int]));
                }
                j = j + 1;
            }
            proof {
                assert forall|m: int| 0 <= m < j - i implies !is_whitespace(#[trigger] rest[m]) by {
                    assert(rest[m] == v@[i + m]);
                }
                if j < v@.len() {
                    assert(rest[j - i] == v@[j as int]);
                }
                lemma_word_len_is(rest, j - i);
                assert(rest.take(j - i) =~= v@.subrange(i as int, j as int));
                assert(rest.skip(j - i) =~= v@.skip(j as int));
                let before = out@.map_values(|w: Vec<char>| w@);
                assert(words(rest) == seq![v@.subrange(i as int, j as int)] + words(v@.skip(j as int)));
                assert(out@.push(word).map_values(|w: Vec<char>| w@) =~= before.push(word@));
                assert(before + words(rest) =~= before.push(word@) + words(v@.skip(j as int)));
            }
            out.push(word);
            i = j;
        }
    }
    proof {
        assert(v@.skip(i as int) =~= Seq::<char>::empty());
        assert(out@.map_values(|w: Vec<char>| w@) + Seq::<Seq<char>>::empty() =~= out@.map_values(
            |w: Vec<char>| w@,
        ));
    }
    out
}

/// Reads the process state and process group from a `stat` line (see
/// `stat_fields_of`).
pub fn stat_fields(stat: &str) -> (r: Option<(Option<String>, Option<u32>)>)
    ensures
        match r {
            None => stat_fields_of(stat@) is None,
            Some((state, group)) => stat_fields_of(stat@) == Some(
                (
                    match state {
                        Some(s) => Some(s@),
                        None => None,
                    },
                    match group {
                        Some(g) => Some(g as nat),
                        None => None,
                    },
                ),
            ),
        },
{
    let v = chars_of(stat);
    let i = match find_last_paren_space(&v) {
        Some(i) => i,
        None => return None,
    };
    assert(i + 2 <= v@.len());
    assert(v@.len() == v.len());
    let w = words_from(&v, i + 2);
    proof {
        assert(w@.len() == words(v@.skip(i + 2)).len());
        if w@.len() > 0 {
            assert(w@[0]@ == words(v@.skip(i + 2))[0]);
        }
        if w@.len() > 2 {
            assert(w@[2]@ == words(v@.skip(i + 2))[2]);
        }
    }
    let state = if w.len() > 0 {
        Some(string_from_chars(&w[0]))
    } else {
        None
    };
    let group = if w.len() > 2 {
        let text = string_from_chars(&w[2]);
        parse_u32(text.as_str())
    } else {
        None
    };
    Some((state, group))
}

/// What reading one process's `stat` file gave.
#[derive(Clone, Debug, PartialEq, Eq)]
pub enum StatRead {
    /// The process went away while `/proc` was read.
    Missing,
    /// The file could not be read for another reason.
    Failed,
    Text(String),
}

/// One entry of the pass over `/proc`.
#[derive(Clone, Debug, PartialEq, Eq)]
pub enum ProcRecord {
    /// The directory entry itself could not be read.
    Unreadable,
    /// A process directory: its id and its `stat` file.
    Process(u32, StatRead),
}

/// The verdict after one more entry: a member whose state is not zombie
/// (`Z`) or dead (`X`) is alive; anything that cannot be read makes the
/// verdict unknown; processes of other groups are passed over.
pub open spec fn scan_step(pgid: u32, v: ScopeAlive, m: Seq<u32>, rec: ProcRecord) -> (ScopeAlive, Seq<u32>) {
    match rec {
        ProcRecord::Unreadable => (ScopeAlive::Unknown, m),
        ProcRecord::Process(pid, StatRead::Missing) => (v, m),
        ProcRecord::Process(pid, StatRead::Failed) => (ScopeAlive::Unknown, m),
        ProcRecord::Process(pid, StatRead::Text(t)) => match stat_fields_of(t@) {
            None => (ScopeAlive::Unknown, m),
            Some((state, group)) => if group != Some(pgid as nat) {
                (v, m)
            } else {
                match state {
                    Some(st) => if st == "Z"@ || st == "X"@ {
                        (v, m.push(pid))
                    } else {
                        (ScopeAlive::Alive, m.push(pid))
                    },
                    None => (ScopeAlive::Unknown, m.push(pid)),
                }
            },
        },
    }
}

/// The verdict of a pass over `/proc` for group `pgid`, with the members
/// seen; the pass ends at the first living member.
pub open spec fn scan_of(pgid: u32, r: Seq<ProcRecord>) -> (ScopeAlive, Seq<u32>)
    decreases r.len(),
{
    if r.len() == 0 {
        (ScopeAlive::Gone, Seq::empty())
    } else {
        let (v, m) = scan_of(pgid, r.drop_last());
        if v == ScopeAlive::Alive {
            (v, m)
        } else {
            scan_step(pgid, v, m, r.last())
        }
    }
}

proof fn lemma_alive_stays(pgid: u32, r: Seq<ProcRecord>, k: int)
    requires
        0 <= k <= r.len(),
        scan_of(pgid, r.take(k)).0 == ScopeAlive::Alive,
    ensures
        scan_of(pgid, r) == scan_of(pgid, r.take(k)),
    decreases r.len() - k,
{
    if k < r.len() {
        assert(r.take(k + 1).drop_last() =~= r.take(k));
        lemma_alive_stays(pgid, r, k + 1);
    } else {
        assert(r.take(k) =~= r);
    }
}

pub open spec fn strictly_increasing(s: Seq<u32>) -> bool {
    forall|i: int, j: int| 0 <= i < j < s.len() ==> s[i] < s[j]
}

/// The members of `v` in increasing order, each once.
fn sorted_unique(v: &Vec<u32>) -> (r: Vec<u32>)
    ensures
        strictly_increasing(r@),
        r@.to_set() == v@.to_set(),
{
    let mut out: Vec<u32> = Vec::new();
    let mut i: usize = 0;
    assert(out@.to_set() =~= v@.take(0).to_set());
    while i < v.len()
        invariant
            i <= v@.len(),
            strictly_increasing(out@),
            out@.to_set() == v@.take(i as int).to_set(),
        decreases v.len() - i,
    {
        let x = v[i];
        let mut p: usize = 0;
        while p < out.len() && out[p] < x
            invariant
                p <= out@.len(),
                forall|k: int| 0 <= k < p ==> out@[k] < x,
            decreases out.len() - p,
        {
            p = p + 1;
        }
        let ghost before = out@;
        let ghost t0 = v@.take(i as int);
        let ghost t1 = v@.take(i + 1);
        proof {
            assert(t1 =~= t0.push(x));
        }
        if p < out.len() && out[p] == x {
            assert forall|y: u32| out@.to_set().contains(y) <==> t1.to_set().contains(y) by {
                if y == x {
                    assert(out@[p as int] == x);
                    assert(t1[i as int] == x);
                }
                if t1.contains(y) && y != x {
                    let k = choose|k: int| 0 <= k < t1.len() && t1[k] == y;
                    assert(t0[k] == y);
                    assert(t0.to_set().contains(y));
                }
                if out@.contains(y) {
                    assert(t0.to_set().contains(y));
                    let k = choose|k: int| 0 <= k < t0.len() && t0[k] == y;
                    assert(t1[k] == y);
                }
            }
            assert(out@.to_set() =~= t1.to_set());
            assert(out@.to_set() == v@.take(i + 1).to_set());
        } else {
            out.insert(p, x);
            proof {
                let ins = before.insert(p as int, x);
                assert(out@ == ins);
                assert forall|a: int, b: int| 0 <= a < b < ins.len() implies ins[a] < ins[b] by {
                    if p < before.len() {
                        assert(before[p as int] > x);
                    }
                    if a < p && b > p {
                        assert(ins[b] == before[b - 1]);
                        if p < before.len() {
                            assert(before[p as int] <= before[b - 1] || b - 1 == p);
                        }
                    }
                }
                assert forall|y: u32| ins.to_set().contains(y) <==> t1.to_set().contains(y) by {
                    if ins.contains(y) {
                        let k = choose|k: int| 0 <= k < ins.len() && ins[k] == y;
                        if k == p {
                            assert(t1[i as int] == y);
                        } else {
                            let bk = if k < p { k } else { k - 1 };
                            assert(before[bk] == y);
                            assert(before.to_set().contains(y));
                            let j = choose|j: int| 0 <= j < t0.len() && t0[j] == y;
                            assert(t1[j] == y);
                        }
                    }
                    if t1.contains(y) {
                        let k = choose|k: int| 0 <= k < t1.len() && t1[k] == y;
                        if k == i {
                            assert(ins[p as int] == y);
                        } else {
                            assert(t0[k] == y);
                            assert(t0.to_set().contains(y));
                            assert(before.contains(y));
                            let j = choose|j: int| 0 <= j < before.len() && before[j] == y;
                            if j < p {
                                assert(ins[j] == y);
                            } else {
                                assert(ins[j + 1] == y);
                            }
                        }
                    }
                }
                assert(ins.to_set() =~= t1.to_set());
                assert(out@.to_set() == v@.take(i + 1).to_set());
            }
        }
        i = i + 1;
    }
    assert(v@.take(v@.len() as int) =~= v@);
    out
}

/// The verdict of a pass over `/proc` for group `pgid` (see `scan_of`), with
/// the members it saw in increasing order, each once.
pub fn scan_process_group(pgid: u32, records: &Vec<ProcRecord>) -> (r: (ScopeAlive, Vec<u32>))
    ensures
        r.0 == scan_of(pgid, records@).0,
        strictly_increasing(r.1@),
        r.1@.to_set() == scan_of(pgid, records@).1.to_set(),
{
    let (verdict, members) = scan_in_order(pgid, records);
    (verdict, sorted_unique(&members))
}

fn scan_in_order(pgid: u32, records: &Vec<ProcRecord>) -> (r: (ScopeAlive, Vec<u32>))
    ensures
        (r.0, r.1@) == scan_of(pgid, records@),
{
    let mut verdict = ScopeAlive::Gone;
    let mut members: Vec<u32> = Vec::new();
    let mut i: usize = 0;
    while i < records.len()
        invariant
            i <= records@.len(),
            (verdict, members@) == scan_of(pgid, records@.take(i as int)),
            verdict != ScopeAlive::Alive,
        decreases records.len() - i,
    {
        proof {
            assert(records@.take(i + 1).drop_last() =~= records@.take(i as int));
            assert(records@.take(i + 1).last() == records@[i as int]);
        }
        match &records[i] {
            ProcRecord::Unreadable => {
                verdict = ScopeAlive::Unknown;
            },
            ProcRecord::Process(pid, read) => match read {
                StatRead::Missing => {},
                StatRead::Failed => {
                    verdict = ScopeAlive::Unknown;
                },
                StatRead::Text(t) => match stat_fields(t.as_str()) {
                    None => {
                        verdict = ScopeAlive::Unknown;
                    },
                    Some((state, group)) => {
                        let in_group = match group {
                            Some(g) => g == pgid,
                            None => false,
                        };
                        if in_group {
                            members.push(*pid);
                            match state {
                                Some(st) => {
                                    let s = st.as_str();
                                    let zombie = crate::text::str_eq(s, "Z") || crate::text::str_eq(s, "X");
                                    if !zombie {
                                        proof {
                                            lemma_alive_stays(pgid, records@, i + 1);
                                        }
                                        return (ScopeAlive::Alive, members);
                                    }
                                },
                                None => {
                                    verdict = ScopeAlive::Unknown;
                                },
                            }
                        }
                    },
                },
            },
        }
        i = i + 1;
    }
    proof {
        assert(records@.take(records@.len() as int) =~= records@);
    }
    (verdict, members)
}

/// A record that leaves no doubt about the group: not a living member of
/// it, and nothing that could not be read.
pub open spec fn no_living_member(pgid: u32, rec: ProcRecord) -> bool {
    match rec {
        ProcRecord::Unreadable => false,
        ProcRecord::Process(_, StatRead::Missing) => true,
        ProcRecord::Process(_, StatRead::Failed) => false,
        ProcRecord::Process(_, StatRead::Text(t)) => match stat_fields_of(t@) {
            None => false,
            Some((state, group)) => group != Some(pgid as nat) || (state matches Some(st) && (st == "Z"@
                || st == "X"@)),
        },
    }
}

/// A pass that finds the group gone read every entry, and every member of
/// the group that it read was a zombie or dead.
pub proof fn lemma_gone_means_no_living_member(pgid: u32, r: Seq<ProcRecord>)
    requires
        scan_of(pgid, r).0 == ScopeAlive::Gone,
    ensures
        forall|i: int| 0 <= i < r.len() ==> no_living_member(pgid, #[trigger] r[i]),
    decreases r.len(),
{
    if r.len() > 0 {
        let p = r.drop_last();
        let (v, m) = scan_of(pgid, p);
        if v != ScopeAlive::Gone {
            assert(scan_step(pgid, v, m, r.last()).0 != ScopeAlive::Gone);
        }
        lemma_gone_means_no_living_member(pgid, p);
        assert forall|i: int| 0 <= i < r.len() implies no_living_member(pgid, #[trigger] r[i]) by {
            if i < r.len() - 1 {
                assert(r[i] == p[i]);
            }
        }
    }
}

} // verus!
