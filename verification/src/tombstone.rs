//! Handles of recently closed sessions. A second close of a handle that was
//! closed a short while ago is answered as already done instead of "not
//! found". The record is bounded: when it is full, the older half is dropped
//! so that the handles closed most recently survive.
use crate::text::str_eq;
use vstd::prelude::*;

verus! {

/// How long a closed handle is remembered.
pub const CLOSED_TOMBSTONE_TTL_MS: u64 = 600000;

/// How many closed handles are kept before the older half is dropped.
pub const CLOSED_TOMBSTONE_CAP: usize = 1024;

/// A handle and the time at which its session was closed.
pub type Tombstone = (Seq<char>, u64);

pub open spec fn keys_distinct(s: Seq<Tombstone>) -> bool {
    forall|i: int, j: int| 0 <= i < j < s.len() ==> s[i].0 != s[j].0
}

/// When `h` was closed, if it is remembered.
pub open spec fn closed_at(s: Seq<Tombstone>, h: Seq<char>) -> Option<u64> {
    if exists|i: int| 0 <= i < s.len() && s[i].0 == h {
        Some(s[choose|i: int| 0 <= i < s.len() && s[i].0 == h].1)
    } else {
        None
    }
}

/// Whether `h` counts as closed at time `now`: remembered, and closed no
/// longer than the time-to-live ago.
pub open spec fn recently_closed(s: Seq<Tombstone>, h: Seq<char>, now: u64) -> bool {
    match closed_at(s, h) {
        Some(at) => (if now >= at { now - at } else { 0 }) <= CLOSED_TOMBSTONE_TTL_MS,
        None => false,
    }
}

/// The record after noting that `h` was closed at `at`: an earlier entry for
/// `h` is replaced, and the new entry is the newest.
pub open spec fn remembered(s: Seq<Tombstone>, h: Seq<char>, at: u64) -> Seq<Tombstone> {
    if exists|i: int| 0 <= i < s.len() && s[i].0 == h {
        s.remove(choose|i: int| 0 <= i < s.len() && s[i].0 == h).push((h, at))
    } else {
        s.push((h, at))
    }
}

/// `kept` is `n` entries of `s`, and no entry of `s` that was dropped was
/// closed later than one that was kept.
pub open spec fn newest_kept(s: Seq<Tombstone>, kept: Seq<Tombstone>, n: nat) -> bool {
    &&& kept.len() == n
    &&& keys_distinct(kept)
    &&& forall|x: Tombstone| kept.contains(x) ==> s.contains(x)
    &&& forall|x: Tombstone, y: Tombstone|
        s.contains(x) && !kept.contains(x) && kept.contains(y) ==> x.1 <= y.1
}

pub proof fn lemma_remove_keeps_distinct(s: Seq<Tombstone>, i: int)
    requires
        keys_distinct(s),
        0 <= i < s.len(),
    ensures
        keys_distinct(s.remove(i)),
        forall|x: Tombstone| s.remove(i).contains(x) ==> s.contains(x),
        forall|x: Tombstone| s.contains(x) && x != s[i] ==> s.remove(i).contains(x),
{
    let r = s.remove(i);
    assert forall|a: int, b: int| 0 <= a < b < r.len() implies r[a].0 != r[b].0 by {
        let sa = if a < i { a } else { a + 1 };
        let sb = if b < i { b } else { b + 1 };
        assert(r[a] == s[sa]);
        assert(r[b] == s[sb]);
    }
    assert forall|x: Tombstone| r.contains(x) implies s.contains(x) by {
        let k = choose|k: int| 0 <= k < r.len() && r[k] == x;
        let sk = if k < i { k } else { k + 1 };
        assert(s[sk] == x);
    }
    assert forall|x: Tombstone| s.contains(x) && x != s[i] implies r.contains(x) by {
        let k = choose|k: int| 0 <= k < s.len() && s[k] == x;
        assert(k != i);
        let rk = if k < i { k } else { k - 1 };
        assert(r[rk] == x);
    }
}

/// Remembering `h` records it as closed at `at` and leaves every other
/// handle as it was.
pub proof fn lemma_remembered_closed_at(s: Seq<Tombstone>, h: Seq<char>, at: u64, g: Seq<char>)
    requires
        keys_distinct(s),
    ensures
        keys_distinct(remembered(s, h, at)),
        closed_at(remembered(s, h, at), h) == Some(at),
        g != h ==> closed_at(remembered(s, h, at), g) == closed_at(s, g),
{
    let base = if exists|i: int| 0 <= i < s.len() && s[i].0 == h {
        let i = choose|i: int| 0 <= i < s.len() && s[i].0 == h;
        lemma_remove_keeps_distinct(s, i);
        s.remove(i)
    } else {
        s
    };
    assert(forall|k: int| 0 <= k < base.len() ==> base[k].0 != h) by {
        if exists|i: int| 0 <= i < s.len() && s[i].0 == h {
            let i = choose|i: int| 0 <= i < s.len() && s[i].0 == h;
            assert forall|k: int| 0 <= k < base.len() implies base[k].0 != h by {
                let sk = if k < i { k } else { k + 1 };
                assert(base[k] == s[sk]);
            }
        }
    }
    let r = base.push((h, at));
    assert(r == remembered(s, h, at));
    assert(keys_distinct(r));
    assert(r[base.len() as int].0 == h);
    let c = choose|i: int| 0 <= i < r.len() && r[i].0 == h;
    assert(c == base.len());
    if g != h {
        if exists|i: int| 0 <= i < s.len() && s[i].0 == g {
            let j = choose|i: int| 0 <= i < s.len() && s[i].0 == g;
            assert(s[j].0 != h);
            if exists|i: int| 0 <= i < s.len() && s[i].0 == h {
                let i = choose|i: int| 0 <= i < s.len() && s[i].0 == h;
                let rj = if j < i { j } else { j - 1 };
                assert(r[rj] == s[j]);
            } else {
                assert(r[j] == s[j]);
            }
            let cg = choose|i: int| 0 <= i < r.len() && r[i].0 == g;
            assert(r[cg].0 == g);
        } else {
            assert forall|k: int| 0 <= k < r.len() implies r[k].0 != g by {
                if k < base.len() {
                    if exists|i: int| 0 <= i < s.len() && s[i].0 == h {
                        let i = choose|i: int| 0 <= i < s.len() && s[i].0 == h;
                        let sk = if k < i { k } else { k + 1 };
                        assert(base[k] == s[sk]);
                    } else {
                        assert(base[k] == s[k]);
                    }
                }
            }
        }
    }
}

/// The closed handles, oldest first.
pub struct ClosedHandles {
    entries: Vec<(String, u64)>,
}

pub open spec fn tombstone_of(e: (String, u64)) -> Tombstone {
    (e.0@, e.1)
}

impl View for ClosedHandles {
    type V = Seq<Tombstone>;

    closed spec fn view(&self) -> Seq<Tombstone> {
        self.entries@.map_values(|e: (String, u64)| tombstone_of(e))
    }
}

impl ClosedHandles {
    /// No handle is recorded twice, and the record stays within its cap.
    pub closed spec fn wf(&self) -> bool {
        &&& keys_distinct(self@)
        &&& self@.len() <= CLOSED_TOMBSTONE_CAP
    }

    pub fn new() -> (r: Self)
        ensures
            r.wf(),
            r@ == Seq::<Tombstone>::empty(),
    {
        let r = ClosedHandles { entries: Vec::new() };
        assert(r@ =~= Seq::<Tombstone>::empty());
        r
    }

    pub fn len(&self) -> (r: usize)
        ensures
            r == self@.len(),
    {
        self.entries.len()
    }

    fn find(&self, h: &str) -> (r: Option<usize>)
        ensures
            match r {
                Some(i) => i < self@.len() && self@[i as int].0 == h@,
                None => forall|i: int| 0 <= i < self@.len() ==> self@[i].0 != h@,
            },
    {
        let mut i: usize = 0;
        while i < self.entries.len()
            invariant
                i <= self.entries@.len(),
                self@.len() == self.entries@.len(),
                forall|k: int| 0 <= k < i ==> self@[k].0 != h@,
            decreases self.entries.len() - i,
        {
            assert(self@[i as int] == tombstone_of(self.entries@[i as int]));
            if str_eq(self.entries[i].0.as_str(), h) {
                return Some(i);
            }
            i = i + 1;
        }
        None
    }

    /// Whether `h` was closed no longer than the time-to-live before `now`.
    pub fn was_closed(&self, h: &str, now: u64) -> (r: bool)
        requires
            self.wf(),
        ensures
            r == recently_closed(self@, h@, now),
    {
        match self.find(h) {
            Some(i) => {
                let at = self.entries[i].1;
                proof {
                    assert(self@[i as int].1 == at);
                    let c = choose|k: int| 0 <= k < self@.len() && self@[k].0 == h@;
                    assert(c == i);
                }
                now.saturating_sub(at) <= CLOSED_TOMBSTONE_TTL_MS
            },
            None => false,
        }
    }

    /// Drops the oldest entries until half the cap is left.
    fn evict_older_half(&mut self)
        requires
            keys_distinct(old(self)@),
            old(self)@.len() >= CLOSED_TOMBSTONE_CAP / 2,
        ensures
            newest_kept(old(self)@, final(self)@, (CLOSED_TOMBSTONE_CAP / 2) as nat),
    {
        let ghost start = self@;
        let ghost mut removed: Seq<Tombstone> = Seq::empty();
        while self.entries.len() > CLOSED_TOMBSTONE_CAP / 2
            invariant
                keys_distinct(self@),
                self@.len() >= CLOSED_TOMBSTONE_CAP / 2,
                self@.len() == self.entries@.len(),
                forall|x: Tombstone| self@.contains(x) ==> start.contains(x),
                forall|x: Tombstone| start.contains(x) ==> self@.contains(x) || removed.contains(x),
                forall|x: Tombstone, y: Tombstone|
                    removed.contains(x) && self@.contains(y) ==> x.1 <= y.1,
            decreases self.entries.len(),
        {
            let mut m: usize = 0;
            let mut i: usize = 1;
            while i < self.entries.len()
                invariant
                    0 <= m < i <= self.entries@.len(),
                    self@.len() == self.entries@.len(),
                    forall|k: int| 0 <= k < i ==> self@[m as int].1 <= self@[k].1,
                decreases self.entries.len() - i,
            {
                assert(self@[i as int] == tombstone_of(self.entries@[i as int]));
                assert(self@[m as int] == tombstone_of(self.entries@[m as int]));
                if self.entries[i].1 < self.entries[m].1 {
                    m = i;
                }
                i = i + 1;
            }
            let ghost before = self@;
            let ghost oldest = self@[m as int];
            proof {
                lemma_remove_keeps_distinct(before, m as int);
            }
            self.entries.remove(m);
            assert(self@ =~= before.remove(m as int));
            proof {
                let removed_before = removed;
                removed = removed.push(oldest);
                assert forall|x: Tombstone, y: Tombstone|
                    removed.contains(x) && self@.contains(y) implies x.1 <= y.1 by {
                    assert(before.contains(y));
                    let k = choose|k: int| 0 <= k < before.len() && before[k] == y;
                    assert(oldest.1 <= before[k].1);
                    if x != oldest {
                        let j = choose|j: int| 0 <= j < removed.len() && removed[j] == x;
                        assert(j < removed_before.len());
                        assert(removed_before[j] == x);
                        assert(removed_before.contains(x));
                    }
                }
                assert forall|x: Tombstone| start.contains(x) implies self@.contains(x)
                    || removed.contains(x) by {
                    if x == oldest {
                        assert(removed[removed.len() - 1] == x);
                    } else if removed_before.contains(x) {
                        let j = choose|j: int| 0 <= j < removed_before.len() && removed_before[j] == x;
                        assert(removed[j] == x);
                    }
                }
            }
        }
        proof {
            assert forall|x: Tombstone, y: Tombstone|
                start.contains(x) && !self@.contains(x) && self@.contains(y) implies x.1 <= y.1 by {
                assert(removed.contains(x));
            }
        }
    }

    /// Notes that `h` was closed at `now`. A full record first drops its
    /// older half.
    pub fn remember(&mut self, h: &str, now: u64)
        requires
            old(self).wf(),
        ensures
            final(self).wf(),
            old(self)@.len() < CLOSED_TOMBSTONE_CAP ==> final(self)@ == remembered(old(self)@, h@, now),
            old(self)@.len() >= CLOSED_TOMBSTONE_CAP ==> exists|kept: Seq<Tombstone>|
                #[trigger] newest_kept(old(self)@, kept, (CLOSED_TOMBSTONE_CAP / 2) as nat)
                    && final(self)@ == remembered(kept, h@, now),
    {
        let ghost start = self@;
        if self.entries.len() >= CLOSED_TOMBSTONE_CAP {
            self.evict_older_half();
        }
        let ghost kept = self@;
        assert(keys_distinct(kept));
        match self.find(h) {
            Some(i) => {
                proof {
                    lemma_remove_keeps_distinct(kept, i as int);
                    let c = choose|k: int| 0 <= k < kept.len() && kept[k].0 == h@;
                    assert(c == i);
                }
                self.entries.remove(i);
                assert(self@ =~= kept.remove(i as int));
            },
            None => {},
        }
        self.entries.push((h.to_string(), now));
        proof {
            assert(self@ =~= remembered(kept, h@, now));
            lemma_remembered_closed_at(kept, h@, now, h@);
        }
    }
}

/// A handle that was just remembered counts as closed for the whole
/// time-to-live, and remembering it changes no other handle's entry.
pub proof fn lemma_remember_then_closed(s: Seq<Tombstone>, h: Seq<char>, at: u64, now: u64, g: Seq<char>)
    requires
        keys_distinct(s),
        at <= now <= at + CLOSED_TOMBSTONE_TTL_MS,
    ensures
        recently_closed(remembered(s, h, at), h, now),
        g != h ==> recently_closed(remembered(s, h, at), g, now) == recently_closed(s, g, now),
{
    lemma_remembered_closed_at(s, h, at, g);
}

/// No remembered handle counts as closed once its time-to-live is over.
pub proof fn lemma_closed_handles_expire(s: Seq<Tombstone>, h: Seq<char>, now: u64)
    requires
        closed_at(s, h) matches Some(at) && now > at + CLOSED_TOMBSTONE_TTL_MS,
    ensures
        !recently_closed(s, h, now),
{
}

} // verus!
