use crate::model::GateState;
use crate::wakers::{WakerQueue, Wakeups};
use crate::word::BorrowWord;
use futures_task::Context;
use vstd::prelude::*;

verus! {

/// Decides who may borrow a value, and who is told when that changes.
pub struct Gate {
    /// Counts the borrows.
    borrow: BorrowWord,
    /// Keeps new immutable borrows from being made while a mutable one waits.
    blocked_writer: bool,
    /// Who asked for an immutable borrow.
    reader_wakers: WakerQueue,
    /// Who waits for a mutable borrow.
    writer_wakers: WakerQueue,
}

impl View for Gate {
    type V = GateState;

    closed spec fn view(&self) -> GateState {
        GateState {
            borrows: self.borrow@,
            blocked: self.blocked_writer,
            reader_wakers: self.reader_wakers@,
            writer_wakers: self.writer_wakers@,
        }
    }
}

impl Gate {
    /// The word is the one that the borrows add up to, and every queued slot holds a waker.
    pub closed spec fn wf(self) -> bool {
        &&& self.borrow.wf()
        &&& self.reader_wakers.wf()
        &&& self.writer_wakers.wf()
    }

    /// The borrows that a gate has granted do not exclude each other.
    pub proof fn lemma_valid(self)
        requires
            self.wf(),
        ensures
            self@.borrows.valid(),
    {
        self.borrow.lemma_valid();
    }

    /// A gate that nobody has asked yet.
    pub fn new() -> (gate: Gate)
        ensures
            gate.wf(),
            gate@ == GateState::initial(),
    {
        Gate {
            borrow: BorrowWord::new(),
            blocked_writer: false,
            reader_wakers: WakerQueue::new(),
            writer_wakers: WakerQueue::new(),
        }
    }

    /// The borrow word.
    pub fn word(&self) -> (word: usize)
        requires
            self.wf(),
        ensures
            word == self@.borrows.word(),
            self@.borrows.valid(),
    {
        self.borrow.load()
    }

    /// Whether a mutable borrow waits.
    pub fn is_blocked(&self) -> (blocked: bool)
        ensures
            blocked == self@.blocked,
    {
        self.blocked_writer
    }

    /// Asks for an immutable borrow, for the task that the context belongs to.
    ///
    /// The task is queued whatever comes of it.
    pub fn poll_read(&mut self, context: &Context<'_>) -> (granted: bool)
        requires
            old(self).wf(),
            old(self)@.can_count_reader(),
        ensures
            final(self).wf(),
            final(self)@ == old(self)@.poll_read(crate::wakers::task_waker(*context)),
            granted == old(self)@.admits_reader(),
    {
        self.reader_wakers.register_waker(context);
        if self.blocked_writer {
            return false;
        }
        self.borrow.add_reader()
    }

    /// Asks for a mutable borrow, for the task that the context belongs to.
    ///
    /// Where it is refused the task is queued, and new immutable borrows are held off.
    pub fn poll_write(&mut self, context: &Context<'_>) -> (granted: bool)
        requires
            old(self).wf(),
        ensures
            final(self).wf(),
            final(self)@ == old(self)@.poll_write(crate::wakers::task_waker(*context)),
            granted == old(self)@.admits_writer(),
    {
        if self.borrow.claim() {
            return true;
        }
        self.writer_wakers.register_waker(context);
        self.blocked_writer = true;
        false
    }

    /// Lets immutable borrows be made again.
    pub fn unblock(&mut self)
        requires
            old(self).wf(),
        ensures
            final(self).wf(),
            final(self)@ == old(self)@.unblock(),
    {
        self.blocked_writer = false;
    }

    /// Gives back an immutable borrow. With the last one the writer that has waited longest is
    /// to be woken.
    pub fn release_read(&mut self) -> (wakeups: Wakeups)
        requires
            old(self).wf(),
            old(self)@.borrows.readers > 0,
        ensures
            final(self).wf(),
            final(self)@ == old(self)@.release_read(),
            wakeups@ == crate::wakers::armed(old(self)@.read_wakeups()),
            wakeups.fresh(),
    {
        if self.borrow.drop_reader() {
            self.writer_wakers.pop()
        } else {
            Wakeups::none()
        }
    }

    /// Gives back a mutable borrow. The writer that has waited longest is to be woken; where none
    /// waits, immutable borrows can be made again and all who asked for one are to be woken.
    pub fn hand_over(&mut self) -> (wakeups: Wakeups)
        requires
            old(self).wf(),
            old(self)@.borrows.writers > 0,
        ensures
            final(self).wf(),
            final(self)@ == old(self)@.hand_over(),
            wakeups@ == crate::wakers::armed(old(self)@.hand_over_wakeups()),
            wakeups.fresh(),
    {
        self.borrow.drop_writer();
        let next = self.writer_wakers.pop();
        if next.len() > 0 {
            next
        } else {
            self.blocked_writer = false;
            self.drain_readers()
        }
    }

    /// Gives back a mutable borrow. All who asked for an immutable one are to be woken.
    pub fn open_to_readers(&mut self) -> (wakeups: Wakeups)
        requires
            old(self).wf(),
            old(self)@.borrows.writers > 0,
        ensures
            final(self).wf(),
            final(self)@ == old(self)@.open_to_readers(),
            wakeups@ == crate::wakers::armed(old(self)@.reader_wakers),
            wakeups.fresh(),
    {
        self.borrow.drop_writer();
        self.drain_readers()
    }

    /// Takes all who asked for an immutable borrow out of the queue, to be woken.
    pub fn drain_readers(&mut self) -> (wakeups: Wakeups)
        requires
            old(self).wf(),
        ensures
            final(self).wf(),
            final(self)@ == old(self)@.drain_readers(),
            wakeups@ == crate::wakers::armed(old(self)@.reader_wakers),
            wakeups.fresh(),
    {
        self.reader_wakers.drain()
    }
}

} // verus!
