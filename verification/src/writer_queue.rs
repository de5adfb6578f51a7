//! The accounting of a session's writer queue: the writes waiting for the
//! terminal, oldest first, each with the bytes it holds against the byte
//! budget (terminal replies hold none). Input is admitted whole or not at all.
use crate::session::{
    admit_input, input_gate, writer_queue_has_room, InputError, SessionStatus, WRITER_QUEUE_CAPACITY, WRITER_QUEUE_MAX_BYTES,
};
use vstd::prelude::*;

verus! {

/// The bytes that the waiting writes hold.
pub open spec fn budget_sum(s: Seq<usize>) -> nat
    decreases s.len(),
{
    if s.len() == 0 {
        0
    } else {
        budget_sum(s.drop_last()) + (s.last() as nat)
    }
}

proof fn lemma_budget_sum_front(s: Seq<usize>)
    requires
        s.len() > 0,
    ensures
        budget_sum(s) == s[0] + budget_sum(s.drop_first()),
    decreases s.len(),
{
    if s.len() > 1 {
        lemma_budget_sum_front(s.drop_last());
        assert(s.drop_last().drop_first() =~= s.drop_first().drop_last());
    } else {
        assert(s.drop_first() =~= Seq::<usize>::empty());
        assert(s.drop_last() =~= Seq::<usize>::empty());
    }
}

pub struct WriterQueue {
    budgets: Vec<usize>,
    pending_bytes: usize,
}

impl View for WriterQueue {
    type V = Seq<usize>;

    closed spec fn view(&self) -> Seq<usize> {
        self.budgets@
    }
}

impl WriterQueue {
    /// The byte counter is the sum of the waiting writes' budgets, within the
    /// byte budget, and at most `WRITER_QUEUE_CAPACITY` writes wait.
    pub closed spec fn wf(&self) -> bool {
        &&& self.pending_bytes == budget_sum(self.budgets@)
        &&& budget_sum(self.budgets@) <= WRITER_QUEUE_MAX_BYTES
        &&& self.budgets@.len() <= WRITER_QUEUE_CAPACITY
    }

    pub fn new() -> (r: Self)
        ensures
            r.wf(),
            r@ == Seq::<usize>::empty(),
    {
        let r = WriterQueue { budgets: Vec::new(), pending_bytes: 0 };
        assert(r.budgets@ =~= Seq::<usize>::empty());
        r
    }

    /// The bytes that waiting input holds.
    pub fn pending_bytes(&self) -> (r: usize)
        requires
            self.wf(),
        ensures
            r == budget_sum(self@),
    {
        self.pending_bytes
    }

    /// How many writes wait.
    pub fn pending_items(&self) -> (r: usize)
        ensures
            r == self@.len(),
    {
        self.budgets.len()
    }

    /// Admits `len` bytes of input (see `input_gate`): on success the write
    /// is queued with its whole length as its budget; on a refusal nothing
    /// changes.
    pub fn enqueue_input(
        &mut self,
        shutdown: bool,
        cleanup_started: bool,
        status: &SessionStatus,
        writer_open: bool,
        len: usize,
    ) -> (r: Result<(), InputError>)
        requires
            old(self).wf(),
        ensures
            final(self).wf(),
            r == (match input_gate(
                shutdown,
                cleanup_started,
                status@,
                writer_open,
                budget_sum(old(self)@),
                old(self)@.len() as nat,
                len as nat,
            ) {
                Some(e) => Err(e),
                None => Ok::<(), InputError>(()),
            }),
            r is Ok ==> final(self)@ == old(self)@.push(len),
            r is Err ==> final(self)@ == old(self)@,
    {
        let r = admit_input(
            shutdown,
            cleanup_started,
            status,
            writer_open,
            self.pending_bytes,
            self.budgets.len(),
            len,
        );
        if r.is_ok() {
            let ghost before = self.budgets@;
            self.budgets.push(len);
            self.pending_bytes = self.pending_bytes + len;
            assert(self.budgets@.drop_last() =~= before);
        }
        r
    }

    /// Queues a terminal reply, which holds no bytes of the budget, when the
    /// queue has room; a reply that does not fit is dropped (`false`).
    pub fn queue_reply(&mut self) -> (r: bool)
        requires
            old(self).wf(),
        ensures
            final(self).wf(),
            r == (old(self)@.len() < WRITER_QUEUE_CAPACITY),
            r ==> final(self)@ == old(self)@.push(0),
            !r ==> final(self)@ == old(self)@,
    {
        if writer_queue_has_room(self.budgets.len()) {
            let ghost before = self.budgets@;
            self.budgets.push(0);
            assert(self.budgets@.drop_last() =~= before);
            true
        } else {
            false
        }
    }

    /// The oldest write has reached the terminal: its budget is released.
    pub fn release(&mut self) -> (r: Option<usize>)
        requires
            old(self).wf(),
        ensures
            final(self).wf(),
            old(self)@.len() == 0 ==> r is None && final(self)@ == old(self)@,
            old(self)@.len() > 0 ==> r == Some(old(self)@[0]) && final(self)@ == old(self)@.drop_first(),
    {
        if self.budgets.len() == 0 {
            return None;
        }
        let ghost before = self.budgets@;
        proof {
            lemma_budget_sum_front(before);
        }
        let b = self.budgets.remove(0);
        assert(self.budgets@ =~= before.drop_first());
        self.pending_bytes = self.pending_bytes - b;
        Some(b)
    }
}

/// Whatever admissions, replies and releases came before, the waiting input
/// never holds more than the byte budget, and never more than
/// `WRITER_QUEUE_CAPACITY` writes wait.
pub proof fn lemma_writer_queue_stays_bounded(q: WriterQueue)
    requires
        q.wf(),
    ensures
        budget_sum(q@) <= WRITER_QUEUE_MAX_BYTES,
        q@.len() <= WRITER_QUEUE_CAPACITY,
{
}

} // verus!
