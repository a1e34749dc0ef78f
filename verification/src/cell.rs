use crate::gate::Gate;
use crate::model::GateState;
use crate::poll::Poll;
use crate::wakers::Wakeups;
use futures_task::Context;
use vstd::prelude::*;

verus! {

/// An analogue to `std::cell::RefCell` whose borrows are waited for by tasks.
///
/// It allows for half the range of a `usize` of immutable borrows at once, which is
/// 9223372036854775808 where a `usize` has 64 bits. Only one mutable borrow can exist, and only
/// without other borrows.
///
/// A borrow is asked for by polling: where it is refused, the task that polled is queued and
/// handed out to be woken by the borrow that is given back.
pub struct RefCell<T> {
    /// Who may borrow.
    gate: Gate,
    /// The inner value.
    value: T,
    /// Which cell this is.
    id: Ghost<int>,
}

impl<T> View for RefCell<T> {
    type V = GateState;

    closed spec fn view(&self) -> GateState {
        self.gate@
    }
}

impl<T> RefCell<T> {
    /// What holds of every cell.
    pub closed spec fn wf(self) -> bool {
        self.gate.wf()
    }

    /// The inner value.
    pub closed spec fn value(self) -> T {
        self.value
    }

    /// Which cell this is. A borrow is of one cell, and is used and given back there. Nothing
    /// says that two cells that were made apart are the same.
    pub closed spec fn id(self) -> int {
        self.id@
    }

    /// What every method does to a cell: it stays that cell, and its value is changed only where
    /// there is a mutable borrow or none at all.
    pub open spec fn follows(self, before: RefCell<T>) -> bool {
        &&& self.id() == before.id()
        &&& self.value() == before.value() || before@.borrows.writers > 0
            || before@.borrows.word() == 0
    }

    /// What every method does to a cell but those that reach its value to change it: it stays that
    /// cell, with that value.
    pub open spec fn keeps_value(self, before: RefCell<T>) -> bool {
        &&& self.id() == before.id()
        &&& self.value() == before.value()
    }

    /// What was written last is what is read: it stays the value, whatever methods that do not
    /// reach it to change it are called, and however often.
    pub proof fn law_written_value_stays(trace: Seq<RefCell<T>>, k: int)
        requires
            0 <= k < trace.len(),
            forall|i: int, j: int|
                #![trigger trace[i], trace[j]]
                0 <= i && j == i + 1 && j < trace.len() ==> trace[j].keeps_value(trace[i]),
        ensures
            trace[k].value() == trace.first().value(),
            trace[k].id() == trace.first().id(),
        decreases k,
    {
        if k > 0 {
            RefCell::law_written_value_stays(trace, k - 1);
            assert(trace[k].keeps_value(trace[k - 1]));
        }
    }

    /// While there is an immutable borrow the value stays the same, whatever methods are called
    /// meanwhile.
    pub proof fn law_value_is_stable_while_read(trace: Seq<RefCell<T>>)
        requires
            trace.len() > 0,
            forall|i: int|
                0 <= i < trace.len() ==> (#[trigger] trace[i]).wf() && trace[i]@.borrows.readers
                    > 0,
            forall|i: int, j: int|
                #![trigger trace[i], trace[j]]
                0 <= i && j == i + 1 && j < trace.len() ==> trace[j].follows(trace[i]),
        ensures
            trace.last().value() == trace.first().value(),
            trace.last().id() == trace.first().id(),
        decreases trace.len(),
    {
        if trace.len() > 1 {
            let before = trace.drop_last();
            assert forall|i: int| 0 <= i < before.len() implies (#[trigger] before[i]).wf()
                && before[i]@.borrows.readers > 0 by {
                assert(before[i] == trace[i]);
            }
            assert forall|i: int, j: int|
                #![trigger before[i], before[j]]
                0 <= i && j == i + 1 && j < before.len() implies before[j].follows(before[i]) by {
                assert(before[i] == trace[i] && before[j] == trace[j]);
            }
            RefCell::law_value_is_stable_while_read(before);
            let last = trace.len() - 1;
            assert(trace[last].follows(trace[last - 1]));
            trace[last - 1].law_borrows_are_exclusive();
        }
    }

    /// Only one mutable borrow of a cell exists, and only without immutable ones; and there are
    /// never more of those than half the range of a `usize`. While there is one, the value cannot
    /// be reached to be changed, neither by a mutable borrow nor by `get_mut`.
    pub proof fn law_borrows_are_exclusive(self)
        requires
            self.wf(),
        ensures
            self@.borrows.exclusive(),
            self@.borrows.writers <= 1,
            self@.borrows.writers == 0 || self@.borrows.readers == 0,
            self@.borrows.readers <= (usize::MAX + 1) / 2,
            self@.borrows.readers > 0 ==> self@.borrows.writers == 0 && self@.borrows.word() > 0,
            self@.borrows.valid(),
    {
        self.gate.lemma_valid();
    }

    /// Creates a new cell containing `value`.
    pub fn new(value: T) -> (cell: RefCell<T>)
        ensures
            cell.wf(),
            cell@ == GateState::initial(),
            cell.value() == value,
    {
        RefCell { gate: Gate::new(), value, id: Ghost(arbitrary()) }
    }

    /// Consumes the cell, returning the wrapped value.
    pub fn into_inner(self) -> (value: T)
        requires
            self@.borrows.word() == 0,
        ensures
            value == self.value(),
    {
        self.value
    }

    /// Asks for an immutable borrow of the wrapped value.
    ///
    /// It is granted unless a mutable borrow waits or is held, or there is no room for another
    /// immutable one. The polling task is queued in any case.
    pub fn poll_borrow(&mut self, context: &Context<'_>) -> (poll: Poll<AtomicRef>)
        requires
            old(self).wf(),
            old(self)@.can_count_reader(),
        ensures
            final(self).wf(),
            final(self)@ == old(self)@.poll_read(crate::wakers::task_waker(*context)),
            final(self).keeps_value(*old(self)),
            final(self).id() == old(self).id(),
            final(self).value() == old(self).value(),
            poll is Ready <==> old(self)@.admits_reader(),
            poll matches Poll::Ready(borrow) ==> borrow.cell() == old(self).id(),
    {
        if self.gate.poll_read(context) {
            Poll::Ready(AtomicRef { cell: self.id })
        } else {
            Poll::Pending
        }
    }

    /// Asks for a mutable borrow of the wrapped value.
    ///
    /// It is granted if there is no borrow at all. Otherwise the polling task is queued, and
    /// immutable borrows are refused until every queued writer has had its turn.
    pub fn poll_borrow_mut(&mut self, context: &Context<'_>) -> (poll: Poll<AtomicRefMut>)
        requires
            old(self).wf(),
        ensures
            final(self).wf(),
            final(self)@ == old(self)@.poll_write(crate::wakers::task_waker(*context)),
            final(self).keeps_value(*old(self)),
            final(self).id() == old(self).id(),
            final(self).value() == old(self).value(),
            poll is Ready <==> old(self)@.admits_writer(),
            poll matches Poll::Ready(borrow) ==> borrow.cell() == old(self).id(),
    {
        if self.gate.poll_write(context) {
            Poll::Ready(AtomicRefMut { cell: self.id })
        } else {
            Poll::Pending
        }
    }

    /// Returns a mutable reference to the wrapped value.
    ///
    /// Nobody else can hold a borrow, because this call borrows the cell mutably.
    pub fn get_mut(&mut self) -> (value: &mut T)
        requires
            old(self)@.borrows.word() == 0,
        ensures
            *value == old(self).value(),
            final(self).value() == *final(value),
            final(self)@ == old(self)@,
            old(self).wf() ==> final(self).wf(),
            final(self).follows(*old(self)),
            final(self).id() == old(self).id(),
    {
        &mut self.value
    }

    /// Takes all who asked for an immutable borrow out of the queue, to be woken.
    pub fn wake_readers(&mut self) -> (wakeups: Wakeups)
        requires
            old(self).wf(),
        ensures
            final(self).wf(),
            final(self)@ == old(self)@.drain_readers(),
            final(self).keeps_value(*old(self)),
            final(self).id() == old(self).id(),
            final(self).value() == old(self).value(),
            wakeups@ == crate::wakers::armed(old(self)@.reader_wakers),
            wakeups.fresh(),
    {
        self.gate.drain_readers()
    }

    /// How a cell is shown: its value is not.
    pub fn fmt(&self) -> (text: String)
        ensures
            text@ == "AtomicRefCell { ... }"@,
    {
        "AtomicRefCell { ... }".to_owned()
    }

    /// The borrow word: zero if there is no borrow.
    pub fn borrow_word(&self) -> (word: usize)
        requires
            self.wf(),
        ensures
            word == self@.borrows.word(),
            self@.borrows.valid(),
    {
        self.gate.word()
    }

    /// Whether immutable borrows are refused because a mutable one waits.
    pub fn is_blocked(&self) -> (blocked: bool)
        ensures
            blocked == self@.blocked,
    {
        self.gate.is_blocked()
    }
}

impl<T: Default> Default for RefCell<T> {
    /// Creates a new cell containing the default value.
    fn default() -> (cell: RefCell<T>)
        ensures
            cell.wf(),
            cell@ == GateState::initial(),
            call_ensures(T::default, (), cell.value()),
    {
        RefCell::new(T::default())
    }
}

impl<T> From<T> for RefCell<T> {
    /// Creates a new cell containing `value`.
    fn from(value: T) -> (cell: RefCell<T>)
        ensures
            cell.wf(),
            cell@ == GateState::initial(),
            cell.value() == value,
    {
        RefCell::new(value)
    }
}

/// What `from` gives is stated of its result: a cell is told by its queues too, and no expression
/// gives a queue.
impl<T> vstd::std_specs::convert::FromSpecImpl<T> for RefCell<T> {
    open spec fn obeys_from_spec() -> bool {
        false
    }

    open spec fn from_spec(value: T) -> RefCell<T> {
        arbitrary()
    }
}

/// An immutable borrow of the value in a `RefCell`. It is given back by `release`.
#[must_use]
pub struct AtomicRef {
    /// Which cell this is a borrow of.
    cell: Ghost<int>,
}

impl AtomicRef {
    /// Which cell this is a borrow of.
    pub closed spec fn cell(self) -> int {
        self.cell@
    }

    /// The borrowed value.
    pub fn deref<'a, T>(&'a self, cell: &'a RefCell<T>) -> (value: &'a T)
        requires
            self.cell() == cell.id(),
            cell@.borrows.readers > 0,
        ensures
            *value == cell.value(),
    {
        &cell.value
    }

    /// Gives the borrow back. With the last one the writer that has waited longest is to be
    /// woken.
    pub fn release<T>(self, cell: &mut RefCell<T>) -> (wakeups: Wakeups)
        requires
            old(cell).wf(),
            self.cell() == old(cell).id(),
            old(cell)@.borrows.readers > 0,
        ensures
            final(cell).wf(),
            final(cell)@ == old(cell)@.release_read(),
            final(cell).keeps_value(*old(cell)),
            final(cell).id() == old(cell).id(),
            final(cell).value() == old(cell).value(),
            wakeups@ == crate::wakers::armed(old(cell)@.read_wakeups()),
            wakeups.fresh(),
    {
        cell.gate.release_read()
    }
}

/// The mutable borrow of the value in a `RefCell`. It is given back by `release`.
#[must_use]
pub struct AtomicRefMut {
    /// Which cell this is a borrow of.
    cell: Ghost<int>,
}

impl AtomicRefMut {
    /// Which cell this is a borrow of.
    pub closed spec fn cell(self) -> int {
        self.cell@
    }

    /// The borrowed value.
    pub fn deref<'a, T>(&'a self, cell: &'a RefCell<T>) -> (value: &'a T)
        requires
            self.cell() == cell.id(),
            cell@.borrows.writers > 0,
        ensures
            *value == cell.value(),
    {
        &cell.value
    }

    /// The borrowed value, to be changed.
    pub fn deref_mut<'a, T>(&'a mut self, cell: &'a mut RefCell<T>) -> (value: &'a mut T)
        requires
            old(cell).wf(),
            old(self).cell() == old(cell).id(),
            old(cell)@.borrows.writers > 0,
        ensures
            *value == old(cell).value(),
            final(cell).value() == *final(value),
            final(cell)@ == old(cell)@,
            final(cell).follows(*old(cell)),
            final(cell).id() == old(cell).id(),
            final(self).cell() == old(self).cell(),
            final(cell).wf(),
    {
        &mut cell.value
    }

    /// Gives the borrow back. The writer that has waited longest is to be woken; where none
    /// waits, immutable borrows can be made again and all who asked for one are to be woken.
    pub fn release<T>(self, cell: &mut RefCell<T>) -> (wakeups: Wakeups)
        requires
            old(cell).wf(),
            self.cell() == old(cell).id(),
            old(cell)@.borrows.writers > 0,
        ensures
            final(cell).wf(),
            final(cell)@ == old(cell)@.hand_over(),
            final(cell).keeps_value(*old(cell)),
            final(cell).id() == old(cell).id(),
            final(cell).value() == old(cell).value(),
            wakeups@ == crate::wakers::armed(old(cell)@.hand_over_wakeups()),
            wakeups.fresh(),
    {
        cell.gate.hand_over()
    }
}

} // verus!
