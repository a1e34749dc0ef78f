use futures_task::Waker;
use vstd::prelude::*;

verus! {

/// How many immutable borrows a cell has room for: half of what a word can tell apart. The other
/// half of the words stand for a mutable borrow.
pub open spec fn capacity() -> nat {
    (usize::MAX as nat + 1) / 2
}

/// What the borrow word of a cell counts.
pub struct Borrows {
    /// Immutable borrows that were granted and not given back.
    pub readers: nat,
    /// Mutable borrows that were claimed and not given back.
    pub writers: nat,
    /// Immutable borrows that were refused and are still counted in the word.
    pub refused: nat,
}

impl Borrows {
    /// No borrows at all.
    pub open spec fn none() -> Borrows {
        Borrows { readers: 0, writers: 0, refused: 0 }
    }

    /// The word that stands for these borrows: the number of the immutable ones, granted or
    /// refused, moved to the upper half of the words if there is a mutable one.
    pub open spec fn word(self) -> nat {
        let base = if self.writers > 0 {
            capacity()
        } else {
            0
        };
        base + self.readers + self.refused
    }

    /// There is at most one mutable borrow, and beside one there are no immutable borrows.
    pub open spec fn exclusive(self) -> bool {
        &&& self.writers <= 1
        &&& self.writers > 0 ==> self.readers == 0
    }

    /// What holds of the borrows of every cell.
    pub open spec fn valid(self) -> bool {
        &&& self.exclusive()
        &&& self.readers <= capacity()
        &&& self.word() <= usize::MAX
    }

    /// Whether an immutable borrow is granted.
    pub open spec fn admits_reader(self) -> bool {
        self.word() < capacity()
    }

    /// Whether a mutable borrow is granted.
    pub open spec fn admits_writer(self) -> bool {
        self.word() == 0
    }

    /// Whether the next immutable borrow to be given back is the last thing counted.
    pub open spec fn is_last(self) -> bool {
        self.word() == 1
    }

    /// The borrows after an attempt at an immutable one.
    pub open spec fn add_reader(self) -> Borrows {
        if self.admits_reader() {
            Borrows { readers: self.readers + 1, ..self }
        } else {
            Borrows { refused: self.refused + 1, ..self }
        }
    }

    /// The borrows after an attempt at a mutable one.
    pub open spec fn claim(self) -> Borrows {
        if self.admits_writer() {
            Borrows { writers: self.writers + 1, ..self }
        } else {
            self
        }
    }

    /// The borrows after an immutable one is given back.
    pub open spec fn drop_reader(self) -> Borrows {
        Borrows { readers: (self.readers - 1) as nat, ..self }
    }
}

/// All that a cell keeps beside its value.
pub struct GateState {
    /// What the borrow word counts.
    pub borrows: Borrows,
    /// Whether a mutable borrow waits, which holds off new immutable ones.
    pub blocked: bool,
    /// The wakers of the tasks that asked for an immutable borrow, first come first.
    pub reader_wakers: Seq<Waker>,
    /// The wakers of the tasks that were refused a mutable borrow, first come first.
    pub writer_wakers: Seq<Waker>,
}

/// The single steps of a cell. Each changes one thing at once: the word, the flag or a queue.
impl GateState {
    /// A cell that nobody has asked for yet.
    pub open spec fn initial() -> GateState {
        GateState {
            borrows: Borrows::none(),
            blocked: false,
            reader_wakers: Seq::empty(),
            writer_wakers: Seq::empty(),
        }
    }

    /// A task is queued for an immutable borrow.
    pub open spec fn register_reader(self, waker: Waker) -> GateState {
        GateState { reader_wakers: self.reader_wakers.push(waker), ..self }
    }

    /// A task is queued for a mutable borrow.
    pub open spec fn register_writer(self, waker: Waker) -> GateState {
        GateState { writer_wakers: self.writer_wakers.push(waker), ..self }
    }

    /// An immutable borrow is attempted.
    pub open spec fn add_reader(self) -> GateState {
        GateState { borrows: self.borrows.add_reader(), ..self }
    }

    /// A mutable borrow is attempted.
    pub open spec fn claim(self) -> GateState {
        GateState { borrows: self.borrows.claim(), ..self }
    }

    /// An immutable borrow is given back.
    pub open spec fn drop_reader(self) -> GateState {
        GateState { borrows: self.borrows.drop_reader(), ..self }
    }

    /// A mutable borrow is given back.
    pub open spec fn drop_writer(self) -> GateState {
        GateState { borrows: Borrows::none(), ..self }
    }

    /// New immutable borrows are held off.
    pub open spec fn block(self) -> GateState {
        GateState { blocked: true, ..self }
    }

    /// New immutable borrows are no longer held off.
    pub open spec fn unblock(self) -> GateState {
        GateState { blocked: false, ..self }
    }

    /// The reader that has waited longest leaves its queue, to be woken.
    pub open spec fn pop_reader(self) -> GateState {
        if self.reader_wakers.len() > 0 {
            GateState { reader_wakers: self.reader_wakers.drop_first(), ..self }
        } else {
            self
        }
    }

    /// The writer that has waited longest leaves its queue, to be woken.
    pub open spec fn pop_writer(self) -> GateState {
        if self.writer_wakers.len() > 0 {
            GateState { writer_wakers: self.writer_wakers.drop_first(), ..self }
        } else {
            self
        }
    }
}

/// The operations of a cell, made of its steps.
impl GateState {
    /// Whether the word has room for another attempt at an immutable borrow, or the attempt would
    /// not be counted at all.
    pub open spec fn can_count_reader(self) -> bool {
        self.blocked || self.borrows.word() < usize::MAX
    }

    /// Whether an immutable borrow is granted.
    pub open spec fn admits_reader(self) -> bool {
        !self.blocked && self.borrows.admits_reader()
    }

    /// The cell after a task asked for an immutable borrow.
    pub open spec fn poll_read(self, waker: Waker) -> GateState {
        let queued = self.register_reader(waker);
        if queued.blocked {
            queued
        } else {
            queued.add_reader()
        }
    }

    /// Whether a mutable borrow is granted.
    pub open spec fn admits_writer(self) -> bool {
        self.borrows.admits_writer()
    }

    /// The cell after a task asked for a mutable borrow.
    pub open spec fn poll_write(self, waker: Waker) -> GateState {
        if self.admits_writer() {
            self.claim()
        } else {
            self.register_writer(waker).block()
        }
    }

    /// The writer that has waited longest, if there is one.
    pub open spec fn next_writer(self) -> Seq<Waker> {
        if self.writer_wakers.len() > 0 {
            seq![self.writer_wakers.first()]
        } else {
            Seq::empty()
        }
    }

    /// The cell after an immutable borrow was given back.
    pub open spec fn release_read(self) -> GateState {
        if self.borrows.is_last() {
            self.drop_reader().pop_writer()
        } else {
            self.drop_reader()
        }
    }

    /// The tasks that are woken when an immutable borrow is given back.
    pub open spec fn read_wakeups(self) -> Seq<Waker> {
        if self.borrows.is_last() {
            self.next_writer()
        } else {
            Seq::empty()
        }
    }

    /// The cell with its readers taken out of the queue.
    pub open spec fn drain_readers(self) -> GateState {
        GateState { reader_wakers: Seq::empty(), ..self }
    }

    /// The cell after a mutable borrow was given back to the next writer, or, where none waits,
    /// to the readers.
    pub open spec fn hand_over(self) -> GateState {
        if self.writer_wakers.len() > 0 {
            self.drop_writer().pop_writer()
        } else {
            self.drop_writer().unblock().drain_readers()
        }
    }

    /// The tasks that are woken when a mutable borrow is handed over.
    pub open spec fn hand_over_wakeups(self) -> Seq<Waker> {
        if self.writer_wakers.len() > 0 {
            self.next_writer()
        } else {
            self.reader_wakers
        }
    }

    /// The cell after a mutable borrow was given back to the readers.
    pub open spec fn open_to_readers(self) -> GateState {
        self.drop_writer().drain_readers()
    }
}

} // verus!
