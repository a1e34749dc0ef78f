use crate::model::{Borrows, GateState};
use futures_task::Waker;
use vstd::prelude::*;

verus! {

/// What a thread can do to a cell at once. The operations of a cell are made of these, and those
/// of several threads may alternate in any order.
pub enum Step {
    RegisterReader(Waker),
    RegisterWriter(Waker),
    AddReader,
    Claim,
    DropReader,
    DropWriter,
    Block,
    Unblock,
    PopReader,
    PopWriter,
}

impl GateState {
    /// Whether a thread can make this step: a borrow can be given back only if it is held, and
    /// the word counts no further than it can.
    pub open spec fn enabled(self, step: Step) -> bool {
        match step {
            Step::AddReader => self.borrows.word() < usize::MAX,
            Step::DropReader => self.borrows.readers > 0,
            Step::DropWriter => self.borrows.writers > 0,
            _ => true,
        }
    }

    /// The cell after one step.
    pub open spec fn step(self, step: Step) -> GateState {
        match step {
            Step::RegisterReader(waker) => self.register_reader(waker),
            Step::RegisterWriter(waker) => self.register_writer(waker),
            Step::AddReader => self.add_reader(),
            Step::Claim => self.claim(),
            Step::DropReader => self.drop_reader(),
            Step::DropWriter => self.drop_writer(),
            Step::Block => self.block(),
            Step::Unblock => self.unblock(),
            Step::PopReader => self.pop_reader(),
            Step::PopWriter => self.pop_writer(),
        }
    }

    /// The cell after steps, by whichever threads.
    pub open spec fn after(self, steps: Seq<Step>) -> GateState
        decreases steps.len(),
    {
        if steps.len() == 0 {
            self
        } else {
            self.after(steps.drop_last()).step(steps.last())
        }
    }

    /// Whether each of these steps can be made when it is its turn.
    pub open spec fn runs(self, steps: Seq<Step>) -> bool
        decreases steps.len(),
    {
        steps.len() > 0 ==> {
            &&& self.runs(steps.drop_last())
            &&& self.after(steps.drop_last()).enabled(steps.last())
        }
    }

    /// Whether nobody asks for an immutable borrow while there are as many as there can be.
    pub open spec fn within_capacity(self, steps: Seq<Step>) -> bool
        decreases steps.len(),
    {
        steps.len() > 0 ==> {
            let before = self.after(steps.drop_last());
            &&& self.within_capacity(steps.drop_last())
            &&& steps.last() is AddReader ==> before.borrows.writers > 0
                || before.borrows.admits_reader()
        }
    }

    /// The cell after these tasks asked for an immutable borrow one after the other.
    pub open spec fn poll_reads(self, wakers: Seq<Waker>) -> GateState
        decreases wakers.len(),
    {
        if wakers.len() == 0 {
            self
        } else {
            self.poll_reads(wakers.drop_last()).poll_read(wakers.last())
        }
    }
}

/// Whatever the threads that share a cell do, and however their steps alternate, there is at
/// most one mutable borrow, beside one there is no immutable borrow, and there are never more
/// than half the range of a `usize` of immutable ones.
pub proof fn law_borrows_are_exclusive(steps: Seq<Step>)
    requires
        GateState::initial().runs(steps),
    ensures
        ({
            let borrows = GateState::initial().after(steps).borrows;
            &&& borrows.writers <= 1
            &&& borrows.writers == 0 || borrows.readers == 0
            &&& borrows.readers <= (usize::MAX + 1) / 2
            &&& borrows.valid()
        }),
    decreases steps.len(),
{
    if steps.len() > 0 {
        law_borrows_are_exclusive(steps.drop_last());
    }
}

/// In a cell of which nobody asked too much, nothing is counted but what is held. So a cell
/// without borrows grants a mutable one, and an immutable one unless a mutable one waits.
pub proof fn law_free_cell_grants(steps: Seq<Step>)
    requires
        GateState::initial().runs(steps),
        GateState::initial().within_capacity(steps),
    ensures
        ({
            let cell = GateState::initial().after(steps);
            &&& cell.borrows.writers == 0 ==> cell.borrows.refused == 0
            &&& cell.borrows.readers == 0 && cell.borrows.writers == 0 ==> {
                &&& cell.admits_writer()
                &&& cell.admits_reader() == !cell.blocked
            }
        }),
    decreases steps.len(),
{
    if steps.len() > 0 {
        law_free_cell_grants(steps.drop_last());
        law_borrows_are_exclusive(steps.drop_last());
    }
}

/// A cell has room for half the range of a `usize` of immutable borrows, and no more: a new cell grants that many, one
/// after the other, and then no more.
pub proof fn law_capacity(wakers: Seq<Waker>)
    requires
        wakers.len() <= (usize::MAX + 1) / 2,
    ensures
        crate::model::capacity() == (usize::MAX + 1) / 2,
        ({
            let cell = GateState::initial().poll_reads(wakers);
            &&& cell.borrows == (Borrows { readers: wakers.len(), writers: 0, refused: 0 })
            &&& cell.admits_reader() == (wakers.len() < (usize::MAX + 1) / 2)
        }),
    decreases wakers.len(),
{
    if wakers.len() > 0 {
        law_capacity(wakers.drop_last());
    }
}

/// Where a `usize` has 64 bits, there can be 9223372036854775808 immutable borrows at once.
pub proof fn law_capacity_of_64_bits()
    requires
        usize::BITS == 64,
    ensures
        crate::model::capacity() == 9223372036854775808,
{
}

/// Whoever registered interest in a mutable borrow, whether it was granted or refused, keeps new
/// immutable borrows from being made.
pub proof fn law_interest_prevents_borrows(cell: GateState, waker: Waker)
    requires
        cell.borrows.valid(),
    ensures
        !cell.poll_write(waker).admits_reader(),
{
}

/// A refused mutable borrow keeps immutable ones from being made for as long as nobody lifts the
/// block, whatever else is done to the cell.
pub proof fn law_waiting_writer_is_not_overtaken(cell: GateState, waker: Waker, steps: Seq<Step>)
    requires
        !cell.admits_writer(),
        forall|i: int| 0 <= i < steps.len() ==> !(#[trigger] steps[i] is Unblock),
    ensures
        cell.poll_write(waker).after(steps).blocked,
        !cell.poll_write(waker).after(steps).admits_reader(),
    decreases steps.len(),
{
    if steps.len() > 0 {
        assert(!(steps[steps.len() - 1] is Unblock));
        assert forall|i: int| 0 <= i < steps.drop_last().len() implies !(
        #[trigger] steps.drop_last()[i] is Unblock) by {
            assert(!(steps[i] is Unblock));
        }
        law_waiting_writer_is_not_overtaken(cell, waker, steps.drop_last());
    }
}

/// A refused mutable borrow leaves the number of borrows as it is.
pub proof fn law_refused_writer_does_not_count(cell: GateState, waker: Waker)
    requires
        !cell.admits_writer(),
    ensures
        cell.poll_write(waker).borrows == cell.borrows,
{
}

/// An immutable borrow that is granted and given back leaves the borrows as they were.
pub proof fn law_read_and_release(cell: GateState, waker: Waker)
    requires
        cell.admits_reader(),
    ensures
        cell.poll_read(waker).release_read().borrows == cell.borrows,
        cell.poll_read(waker).release_read().blocked == cell.blocked,
{
}

/// A mutable borrow that is granted and given back leaves the cell without borrows, as it was,
/// however many immutable borrows were refused meanwhile.
pub proof fn law_write_and_release(cell: GateState, writer: Waker, readers: Seq<Waker>)
    requires
        cell.borrows.valid(),
        cell.admits_writer(),
    ensures
        cell.poll_write(writer).poll_reads(readers).hand_over().borrows == cell.borrows,
        cell.poll_write(writer).poll_reads(readers).open_to_readers().borrows == cell.borrows,
        cell.poll_write(writer).poll_reads(readers).borrows.readers == 0,
{
    lemma_refused_beside_writer(cell.poll_write(writer), readers);
}

/// Beside a mutable borrow every immutable one is refused.
proof fn lemma_refused_beside_writer(cell: GateState, readers: Seq<Waker>)
    requires
        cell.borrows.valid(),
        cell.borrows.writers == 1,
    ensures
        cell.poll_reads(readers).borrows.writers == 1,
        cell.poll_reads(readers).borrows.readers == 0,
    decreases readers.len(),
{
    if readers.len() > 0 {
        lemma_refused_beside_writer(cell, readers.drop_last());
    }
}

/// When the last of the immutable borrows is given back, the writer that has waited longest is
/// woken, and then finds the cell free. Before that, no writer is woken.
pub proof fn law_last_reader_wakes_writer(steps: Seq<Step>)
    requires
        GateState::initial().runs(steps),
        GateState::initial().within_capacity(steps),
        GateState::initial().after(steps).borrows.readers > 0,
    ensures
        ({
            let cell = GateState::initial().after(steps);
            if cell.borrows.readers == 1 {
                &&& cell.read_wakeups() == cell.next_writer()
                &&& cell.release_read().admits_writer()
            } else {
                &&& cell.read_wakeups() == Seq::<Waker>::empty()
                &&& !cell.release_read().admits_writer()
            }
        }),
{
    law_borrows_are_exclusive(steps);
    law_free_cell_grants(steps);
}

/// Where a mutable borrow is handed over, whoever is woken finds what it waits for: the next
/// writer a free cell, and where none waits, all readers, in the order in which they came, one
/// that grants immutable borrows.
pub proof fn law_hand_over_lets_in(cell: GateState)
    ensures
        cell.hand_over().admits_writer(),
        cell.writer_wakers.len() > 0 ==> cell.hand_over_wakeups() == seq![
            cell.writer_wakers.first(),
        ],
        cell.writer_wakers.len() == 0 ==> {
            &&& cell.hand_over_wakeups() == cell.reader_wakers
            &&& cell.hand_over().admits_reader()
        },
{
}

/// Where a mutable borrow is given back to the readers, the cell is free, nobody is left in their
/// queue, and they find immutable borrows granted unless a waiting writer holds them off.
pub proof fn law_open_lets_readers_in(cell: GateState)
    ensures
        cell.open_to_readers().admits_writer(),
        cell.open_to_readers().admits_reader() == !cell.blocked,
        cell.open_to_readers().reader_wakers == Seq::<Waker>::empty(),
{
}

/// The tasks that these steps queue for an immutable borrow.
pub open spec fn readers_in(steps: Seq<Step>) -> Seq<Waker>
    decreases steps.len(),
{
    if steps.len() == 0 {
        Seq::empty()
    } else {
        match steps.last() {
            Step::RegisterReader(waker) => readers_in(steps.drop_last()).push(waker),
            _ => readers_in(steps.drop_last()),
        }
    }
}

/// The tasks that these steps queue for a mutable borrow.
pub open spec fn writers_in(steps: Seq<Step>) -> Seq<Waker>
    decreases steps.len(),
{
    if steps.len() == 0 {
        Seq::empty()
    } else {
        match steps.last() {
            Step::RegisterWriter(waker) => writers_in(steps.drop_last()).push(waker),
            _ => writers_in(steps.drop_last()),
        }
    }
}

impl GateState {
    /// How many readers these steps take out of the queue, to be woken.
    pub open spec fn readers_taken(self, steps: Seq<Step>) -> nat
        decreases steps.len(),
    {
        if steps.len() == 0 {
            0
        } else {
            let before = self.after(steps.drop_last());
            let more: nat = if steps.last() is PopReader && before.reader_wakers.len() > 0 {
                1
            } else {
                0
            };
            self.readers_taken(steps.drop_last()) + more
        }
    }

    /// How many writers these steps take out of the queue, to be woken.
    pub open spec fn writers_taken(self, steps: Seq<Step>) -> nat
        decreases steps.len(),
    {
        if steps.len() == 0 {
            0
        } else {
            let before = self.after(steps.drop_last());
            let more: nat = if steps.last() is PopWriter && before.writer_wakers.len() > 0 {
                1
            } else {
                0
            };
            self.writers_taken(steps.drop_last()) + more
        }
    }
}

/// Nobody who waits is forgotten, overtaken or woken twice: whatever the threads do, those who
/// wait are all who came, in the order in which they came, less those who were taken out first.
pub proof fn law_queues_are_fair(cell: GateState, steps: Seq<Step>)
    ensures
        ({
            let came = cell.reader_wakers + readers_in(steps);
            let taken = cell.readers_taken(steps);
            &&& taken <= came.len()
            &&& cell.after(steps).reader_wakers == came.skip(taken as int)
        }),
        ({
            let came = cell.writer_wakers + writers_in(steps);
            let taken = cell.writers_taken(steps);
            &&& taken <= came.len()
            &&& cell.after(steps).writer_wakers == came.skip(taken as int)
        }),
    decreases steps.len(),
{
    let readers = cell.reader_wakers + readers_in(steps);
    let writers = cell.writer_wakers + writers_in(steps);
    if steps.len() > 0 {
        law_queues_are_fair(cell, steps.drop_last());
    }
    assert(cell.after(steps).reader_wakers =~= readers.skip(cell.readers_taken(steps) as int));
    assert(cell.after(steps).writer_wakers =~= writers.skip(cell.writers_taken(steps) as int));
}

/// A new cell has no borrows, is not blocked, and nobody waits for it.
pub proof fn law_new_cell()
    ensures
        GateState::initial().borrows.readers == 0,
        GateState::initial().borrows.writers == 0,
        GateState::initial().borrows.refused == 0,
        !GateState::initial().blocked,
        GateState::initial().reader_wakers.len() == 0,
        GateState::initial().writer_wakers.len() == 0,
{
}

/// The word counts each immutable borrow that is held and each that was refused and is still
/// counted, and is in its upper half exactly if there is a mutable borrow or it has counted half
/// its range. It grants immutable borrows in its lower half and a mutable one at zero.
pub proof fn law_word_counts(borrows: Borrows)
    ensures
        borrows.writers == 0 ==> borrows.word() == borrows.readers + borrows.refused,
        borrows.writers > 0 ==> borrows.word() - borrows.readers - borrows.refused == (usize::MAX
            + 1) / 2,
        borrows.admits_reader() <==> borrows.writers == 0 && borrows.readers + borrows.refused < (
        usize::MAX + 1) / 2,
        borrows.admits_writer() <==> borrows.readers == 0 && borrows.writers == 0
            && borrows.refused == 0,
        borrows.is_last() <==> borrows.writers == 0 && borrows.readers + borrows.refused == 1,
        Borrows::none().readers == 0,
        Borrows::none().writers == 0,
        Borrows::none().refused == 0,
{
}

/// An attempt at an immutable borrow adds one to the borrows held if it is granted, and else one
/// to the attempts refused; an attempt at a mutable one adds one to those held if it is granted,
/// and else nothing; an immutable borrow that is given back takes one away.
pub proof fn law_borrows_change_by_one(borrows: Borrows)
    ensures
        ({
            let granted: int = if borrows.admits_reader() {
                1
            } else {
                0
            };
            &&& borrows.add_reader().readers == borrows.readers + granted
            &&& borrows.add_reader().refused == borrows.refused + 1 - granted
            &&& borrows.add_reader().writers == borrows.writers
        }),
        ({
            let granted: int = if borrows.admits_writer() {
                1
            } else {
                0
            };
            &&& borrows.claim().writers == borrows.writers + granted
            &&& borrows.claim().readers == borrows.readers
            &&& borrows.claim().refused == borrows.refused
        }),
        borrows.readers > 0 ==> {
            &&& borrows.drop_reader().readers == borrows.readers - 1
            &&& borrows.drop_reader().writers == borrows.writers
            &&& borrows.drop_reader().refused == borrows.refused
        },
{
}

/// A task that asks for an immutable borrow gets it exactly if no writer waits, none holds the
/// cell, and there is room. Then there is one borrow more; otherwise there is none more, and the
/// attempt is counted as refused only if no writer waits. The task is queued behind the others in
/// any case. The block, the mutable borrows and the writers' queue stay as they are.
pub proof fn law_asking_to_read(cell: GateState, waker: Waker)
    ensures
        cell.admits_reader() <==> !cell.blocked && cell.borrows.writers == 0
            && cell.borrows.readers + cell.borrows.refused < (usize::MAX + 1) / 2,
        ({
            let after = cell.poll_read(waker);
            let granted: int = if cell.admits_reader() {
                1
            } else {
                0
            };
            &&& after.borrows.readers == cell.borrows.readers + granted
            &&& after.borrows.writers == cell.borrows.writers
            &&& cell.blocked ==> after.borrows.refused == cell.borrows.refused
            &&& !cell.blocked ==> after.borrows.refused == cell.borrows.refused + 1 - granted
            &&& after.blocked == cell.blocked
            &&& after.reader_wakers == cell.reader_wakers + seq![waker]
            &&& after.writer_wakers == cell.writer_wakers
        }),
        cell.can_count_reader() <==> cell.blocked || cell.borrows.readers + cell.borrows.refused
            + (if cell.borrows.writers > 0 {
            (usize::MAX + 1) / 2
        } else {
            0
        }) < usize::MAX,
{
    assert(cell.reader_wakers.push(waker) =~= cell.reader_wakers + seq![waker]);
}

/// A task that asks for a mutable borrow gets it exactly if nothing at all is counted. Then there
/// is that one borrow, and nothing else changes. Otherwise the borrows stay as they are, the task
/// is queued behind the other writers, and new immutable borrows are blocked.
pub proof fn law_asking_to_write(cell: GateState, waker: Waker)
    ensures
        cell.admits_writer() <==> cell.borrows.readers == 0 && cell.borrows.writers == 0
            && cell.borrows.refused == 0,
        ({
            let after = cell.poll_write(waker);
            let granted = cell.admits_writer();
            &&& after.borrows.readers == cell.borrows.readers
            &&& after.borrows.refused == cell.borrows.refused
            &&& after.borrows.writers == cell.borrows.writers + (if granted {
                1int
            } else {
                0
            })
            &&& after.blocked == (cell.blocked || !granted)
            &&& after.reader_wakers == cell.reader_wakers
            &&& after.writer_wakers == cell.writer_wakers + (if granted {
                Seq::empty()
            } else {
                seq![waker]
            })
        }),
{
    assert(cell.writer_wakers.push(waker) =~= cell.writer_wakers + seq![waker]);
    assert(cell.writer_wakers + Seq::<Waker>::empty() =~= cell.writer_wakers);
}

/// An immutable borrow that is given back is one borrow less, whether the cell is blocked or not,
/// and nothing else is counted otherwise. If it was the last thing counted and a writer waits, one
/// writer leaves the queue, from its front, and whoever leaves is woken; else nobody is.
pub proof fn law_giving_back_a_read(cell: GateState)
    requires
        cell.borrows.readers > 0,
    ensures
        ({
            let after = cell.release_read();
            let woken = cell.read_wakeups();
            let last = cell.borrows.writers == 0 && cell.borrows.readers + cell.borrows.refused
                == 1;
            &&& after.borrows.readers == cell.borrows.readers - 1
            &&& after.borrows.writers == cell.borrows.writers
            &&& after.borrows.refused == cell.borrows.refused
            &&& after.blocked == cell.blocked
            &&& after.reader_wakers == cell.reader_wakers
            &&& woken + after.writer_wakers == cell.writer_wakers
            &&& woken.len() == if last && cell.writer_wakers.len() > 0 {
                1int
            } else {
                0
            }
        }),
{
    let woken = cell.read_wakeups();
    assert(woken + cell.release_read().writer_wakers =~= cell.writer_wakers);
}

/// A mutable borrow that is handed over leaves nothing counted. If a writer waits, one leaves the
/// queue, from its front, and is woken, and the readers keep waiting behind the block as it is. If
/// none waits, the block is lifted and all readers leave their queue and are woken, in their
/// order.
pub proof fn law_handing_over_a_write(cell: GateState)
    ensures
        ({
            let after = cell.hand_over();
            let woken = cell.hand_over_wakeups();
            &&& after.borrows.readers == 0
            &&& after.borrows.writers == 0
            &&& after.borrows.refused == 0
            &&& cell.writer_wakers.len() > 0 ==> {
                &&& woken.len() == 1
                &&& woken + after.writer_wakers == cell.writer_wakers
                &&& after.reader_wakers == cell.reader_wakers
                &&& after.blocked == cell.blocked
            }
            &&& cell.writer_wakers.len() == 0 ==> {
                &&& woken == cell.reader_wakers
                &&& after.writer_wakers.len() == 0
                &&& after.reader_wakers.len() == 0
                &&& !after.blocked
            }
        }),
{
    if cell.writer_wakers.len() > 0 {
        assert(cell.hand_over_wakeups() + cell.hand_over().writer_wakers =~= cell.writer_wakers);
    }
}

/// A mutable borrow that is given back to the readers leaves nothing counted and no reader queued;
/// the block and the writers' queue stay as they are.
pub proof fn law_giving_a_write_to_readers(cell: GateState)
    ensures
        cell.open_to_readers().borrows.readers == 0,
        cell.open_to_readers().borrows.writers == 0,
        cell.open_to_readers().borrows.refused == 0,
        cell.open_to_readers().blocked == cell.blocked,
        cell.open_to_readers().reader_wakers.len() == 0,
        cell.open_to_readers().writer_wakers == cell.writer_wakers,
{
}

/// Lifting the block lifts it, whatever the cell was before, and changes nothing else. So a
/// mutable borrow that is made and given back with no writer refused meanwhile leaves a cell that
/// grants immutable borrows, however many were refused before or after it was made.
pub proof fn law_made_write_lets_readers_back_in(
    cell: GateState,
    writer: Waker,
    early: Seq<Waker>,
    late: Seq<Waker>,
)
    ensures
        !cell.unblock().blocked,
        cell.unblock().borrows == cell.borrows,
        cell.unblock().reader_wakers == cell.reader_wakers,
        cell.unblock().writer_wakers == cell.writer_wakers,
        cell.poll_write(writer).poll_reads(early).unblock().poll_reads(
            late,
        ).open_to_readers().admits_reader(),
{
    let made = cell.poll_write(writer).poll_reads(early).unblock();
    law_asking_to_read_many(made, late);
    law_giving_a_write_to_readers(made.poll_reads(late));
}

/// However many tasks ask for an immutable borrow, the block, the mutable borrows and the writers'
/// queue stay as they are, and all of the tasks are queued, in the order in which they ask.
pub proof fn law_asking_to_read_many(cell: GateState, wakers: Seq<Waker>)
    ensures
        cell.poll_reads(wakers).blocked == cell.blocked,
        cell.poll_reads(wakers).borrows.writers == cell.borrows.writers,
        cell.poll_reads(wakers).writer_wakers == cell.writer_wakers,
        cell.poll_reads(wakers).reader_wakers == cell.reader_wakers + wakers,
        cell.blocked ==> cell.poll_reads(wakers).borrows == cell.borrows,
    decreases wakers.len(),
{
    if wakers.len() > 0 {
        law_asking_to_read_many(cell, wakers.drop_last());
        law_asking_to_read(cell.poll_reads(wakers.drop_last()), wakers.last());
        assert(wakers.drop_last() + seq![wakers.last()] =~= wakers);
    }
    assert(cell.poll_reads(wakers).reader_wakers =~= cell.reader_wakers + wakers);
}

/// Taking the readers out of their queue empties it and changes nothing else.
pub proof fn law_draining_readers(cell: GateState)
    ensures
        cell.drain_readers().reader_wakers.len() == 0,
        cell.drain_readers().writer_wakers == cell.writer_wakers,
        cell.drain_readers().borrows == cell.borrows,
        cell.drain_readers().blocked == cell.blocked,
{
}

/// Each step changes one thing: the queues only by those who join or leave them, the block only by
/// setting or lifting it, and the borrows only by attempts and returns.
pub proof fn law_steps_change_one_thing(cell: GateState, step: Step)
    ensures
        ({
            let after = cell.step(step);
            &&& after.blocked == match step {
                Step::Block => true,
                Step::Unblock => false,
                _ => cell.blocked,
            }
            &&& match step {
                Step::RegisterReader(waker) => after.reader_wakers == cell.reader_wakers + seq![
                    waker,
                ],
                Step::PopReader => after.reader_wakers == if cell.reader_wakers.len() > 0 {
                    cell.reader_wakers.skip(1)
                } else {
                    cell.reader_wakers
                },
                _ => after.reader_wakers == cell.reader_wakers,
            }
            &&& match step {
                Step::RegisterWriter(waker) => after.writer_wakers == cell.writer_wakers + seq![
                    waker,
                ],
                Step::PopWriter => after.writer_wakers == if cell.writer_wakers.len() > 0 {
                    cell.writer_wakers.skip(1)
                } else {
                    cell.writer_wakers
                },
                _ => after.writer_wakers == cell.writer_wakers,
            }
            &&& match step {
                Step::AddReader => after.borrows == cell.borrows.add_reader(),
                Step::Claim => after.borrows == cell.borrows.claim(),
                Step::DropReader => after.borrows == cell.borrows.drop_reader(),
                Step::DropWriter => after.borrows == (Borrows {
                    readers: 0,
                    writers: 0,
                    refused: 0,
                }),
                _ => after.borrows == cell.borrows,
            }
        }),
{
    match step {
        Step::RegisterReader(waker) => {
            assert(cell.reader_wakers.push(waker) =~= cell.reader_wakers + seq![waker]);
        },
        Step::RegisterWriter(waker) => {
            assert(cell.writer_wakers.push(waker) =~= cell.writer_wakers + seq![waker]);
        },
        Step::PopReader => {
            if cell.reader_wakers.len() > 0 {
                assert(cell.reader_wakers.drop_first() =~= cell.reader_wakers.skip(1));
            }
        },
        Step::PopWriter => {
            if cell.writer_wakers.len() > 0 {
                assert(cell.writer_wakers.drop_first() =~= cell.writer_wakers.skip(1));
            }
        },
        _ => {},
    }
}

impl GateState {
    /// How many of these steps made an immutable borrow.
    pub open spec fn reads_granted(self, steps: Seq<Step>) -> int
        decreases steps.len(),
    {
        if steps.len() == 0 {
            0
        } else {
            let before = self.after(steps.drop_last()).borrows;
            let more: int = if steps.last() is AddReader && before.writers == 0 && before.readers
                + before.refused < (usize::MAX + 1) / 2 {
                1
            } else {
                0
            };
            self.reads_granted(steps.drop_last()) + more
        }
    }

    /// How many of these steps made a mutable borrow.
    pub open spec fn writes_granted(self, steps: Seq<Step>) -> int
        decreases steps.len(),
    {
        if steps.len() == 0 {
            0
        } else {
            let before = self.after(steps.drop_last()).borrows;
            let more: int = if steps.last() is Claim && before.writers == 0 && before.readers == 0
                && before.refused == 0 {
                1
            } else {
                0
            };
            self.writes_granted(steps.drop_last()) + more
        }
    }
}

/// How many of these steps give back an immutable borrow.
pub open spec fn reads_given_back(steps: Seq<Step>) -> int
    decreases steps.len(),
{
    if steps.len() == 0 {
        0
    } else {
        let more: int = if steps.last() is DropReader {
            1
        } else {
            0
        };
        reads_given_back(steps.drop_last()) + more
    }
}

/// How many of these steps give back a mutable borrow.
pub open spec fn writes_given_back(steps: Seq<Step>) -> int
    decreases steps.len(),
{
    if steps.len() == 0 {
        0
    } else {
        let more: int = if steps.last() is DropWriter {
            1
        } else {
            0
        };
        writes_given_back(steps.drop_last()) + more
    }
}

/// Whatever the threads do, the borrows that are held are those that were granted less those that
/// were given back.
pub proof fn law_held_is_granted_less_given_back(steps: Seq<Step>)
    requires
        GateState::initial().runs(steps),
    ensures
        GateState::initial().after(steps).borrows.readers
            == GateState::initial().reads_granted(steps) - reads_given_back(steps),
        GateState::initial().after(steps).borrows.writers
            == GateState::initial().writes_granted(steps) - writes_given_back(steps),
    decreases steps.len(),
{
    law_new_cell();
    if steps.len() > 0 {
        let before = GateState::initial().after(steps.drop_last());
        law_held_is_granted_less_given_back(steps.drop_last());
        law_borrows_are_exclusive(steps.drop_last());
        law_steps_change_one_thing(before, steps.last());
        law_word_counts(before.borrows);
        law_borrows_change_by_one(before.borrows);
    }
}

/// Whatever the threads do, a cell is blocked exactly if it was blocked and that was not lifted
/// since.
pub proof fn law_blocked_since_the_last_lift(steps: Seq<Step>)
    ensures
        GateState::initial().after(steps).blocked <==> exists|i: int|
            0 <= i < steps.len() && #[trigger] steps[i] is Block && forall|j: int|
                i < j < steps.len() ==> !(#[trigger] steps[j] is Unblock),
    decreases steps.len(),
{
    law_new_cell();
    if steps.len() > 0 {
        let before = steps.drop_last();
        let last = steps.len() - 1;
        law_blocked_since_the_last_lift(before);
        law_steps_change_one_thing(GateState::initial().after(before), steps.last());
        assert(forall|i: int| 0 <= i < last ==> before[i] == #[trigger] steps[i]);
        assert(steps.last() == steps[last]);
        if GateState::initial().after(before).blocked && !(steps.last() is Unblock) {
            let i = choose|i: int|
                0 <= i < before.len() && #[trigger] before[i] is Block && forall|j: int|
                    i < j < before.len() ==> !(#[trigger] before[j] is Unblock);
            assert(steps[i] is Block);
            assert forall|j: int| i < j < steps.len() implies !(#[trigger] steps[j] is Unblock) by {
                if j < last {
                    assert(before[j] == steps[j]);
                }
            }
        }
        if exists|i: int|
            0 <= i < steps.len() && #[trigger] steps[i] is Block && forall|j: int|
                i < j < steps.len() ==> !(#[trigger] steps[j] is Unblock) {
            let i = choose|i: int|
                0 <= i < steps.len() && #[trigger] steps[i] is Block && forall|j: int|
                    i < j < steps.len() ==> !(#[trigger] steps[j] is Unblock);
            if i < last {
                assert(before[i] is Block);
                assert forall|j: int| i < j < before.len() implies !(
                #[trigger] before[j] is Unblock) by {
                    assert(before[j] == steps[j]);
                }
            }
        }
    }
}

/// Each operation of a cell comes to the same as its steps, one after the other.
pub proof fn law_operations_are_steps(cell: GateState, waker: Waker)
    ensures
        cell.poll_read(waker) == if cell.blocked {
            cell.after(seq![Step::RegisterReader(waker)])
        } else {
            cell.after(seq![Step::RegisterReader(waker), Step::AddReader])
        },
        cell.poll_write(waker) == if cell.admits_writer() {
            cell.after(seq![Step::Claim])
        } else {
            cell.after(seq![Step::Claim, Step::RegisterWriter(waker), Step::Block])
        },
        cell.release_read() == if cell.borrows.is_last() {
            cell.after(seq![Step::DropReader, Step::PopWriter])
        } else {
            cell.after(seq![Step::DropReader])
        },
        cell.hand_over() == if cell.writer_wakers.len() > 0 {
            cell.after(seq![Step::DropWriter, Step::PopWriter])
        } else {
            cell.after(seq![Step::DropWriter, Step::PopWriter, Step::Unblock]).drain_readers()
        },
        cell.open_to_readers() == cell.after(seq![Step::DropWriter]).drain_readers(),
        cell.drain_readers() == cell.after(
            Seq::new(cell.reader_wakers.len(), |i: int| Step::PopReader),
        ),
{
    let register = Step::RegisterReader(waker);
    lemma_after_one(cell, register);
    lemma_after_push(cell, seq![register], Step::AddReader);
    assert(seq![register].push(Step::AddReader) =~= seq![register, Step::AddReader]);

    let wait = Step::RegisterWriter(waker);
    lemma_after_one(cell, Step::Claim);
    lemma_after_push(cell, seq![Step::Claim], wait);
    assert(seq![Step::Claim].push(wait) =~= seq![Step::Claim, wait]);
    lemma_after_push(cell, seq![Step::Claim, wait], Step::Block);
    assert(seq![Step::Claim, wait].push(Step::Block) =~= seq![Step::Claim, wait, Step::Block]);

    let pop = Step::PopWriter;
    lemma_after_one(cell, Step::DropReader);
    lemma_after_push(cell, seq![Step::DropReader], pop);
    assert(seq![Step::DropReader].push(pop) =~= seq![Step::DropReader, pop]);
    lemma_after_one(cell, Step::DropWriter);
    lemma_after_push(cell, seq![Step::DropWriter], pop);
    assert(seq![Step::DropWriter].push(pop) =~= seq![Step::DropWriter, pop]);
    lemma_after_push(cell, seq![Step::DropWriter, pop], Step::Unblock);
    assert(seq![Step::DropWriter, pop].push(Step::Unblock) =~= seq![
        Step::DropWriter,
        pop,
        Step::Unblock,
    ]);

    lemma_after_pops(cell, cell.reader_wakers.len());
    assert(cell.reader_wakers.skip(cell.reader_wakers.len() as int) =~= Seq::empty());
}

proof fn lemma_after_push(cell: GateState, steps: Seq<Step>, step: Step)
    ensures
        cell.after(steps.push(step)) == cell.after(steps).step(step),
{
    assert(steps.push(step).drop_last() =~= steps);
}

proof fn lemma_after_one(cell: GateState, step: Step)
    ensures
        cell.after(seq![step]) == cell.step(step),
{
    lemma_after_push(cell, Seq::empty(), step);
}

proof fn lemma_after_pops(cell: GateState, n: nat)
    requires
        n <= cell.reader_wakers.len(),
    ensures
        cell.after(Seq::new(n, |i: int| Step::PopReader)) == (GateState {
            reader_wakers: cell.reader_wakers.skip(n as int),
            ..cell
        }),
    decreases n,
{
    let steps = Seq::new(n, |i: int| Step::PopReader);
    if n == 0 {
        assert(cell.reader_wakers.skip(0) =~= cell.reader_wakers);
    } else {
        lemma_after_pops(cell, (n - 1) as nat);
        assert(steps.drop_last() =~= Seq::new((n - 1) as nat, |i: int| Step::PopReader));
        assert(cell.reader_wakers.skip(n - 1).drop_first() =~= cell.reader_wakers.skip(n as int));
    }
}

} // verus!
