use crossbeam_queue::SegQueue;
use futures_core::task::__internal::AtomicWaker;
use futures_task::{Context, Waker};
use vstd::prelude::*;

verus! {

/// `crossbeam_queue::SegQueue`, an unbounded queue.
#[verifier::external_type_specification]
#[verifier::external_body]
#[verifier::reject_recursive_types(T)]
pub struct ExSegQueue<T>(crossbeam_queue::SegQueue<T>);

/// `futures_core::task::__internal::AtomicWaker`, a slot for one waker.
#[verifier::external_type_specification]
#[verifier::external_body]
pub struct ExAtomicWaker(futures_core::task::__internal::AtomicWaker);

/// `core::task::Waker`, by which a task is woken. Wakers are told apart only by the task that they
/// wake, so that a clone of a waker is that waker.
#[verifier::external_type_specification]
#[verifier::external_body]
pub struct ExWaker(core::task::Waker);

/// `core::task::Context`, what a task hands to the future that it polls.
#[verifier::external_type_specification]
#[verifier::external_body]
pub struct ExContext<'a>(core::task::Context<'a>);

/// What a queue holds, the item that leaves next first.
pub uninterp spec fn queued(queue: SegQueue<AtomicWaker>) -> Seq<AtomicWaker>;

/// What an `AtomicWaker` holds: the waker of the task that it would wake.
pub uninterp spec fn registered(slot: AtomicWaker) -> Option<Waker>;

/// The wakers that an `AtomicWaker` has woken since it was made, in this order. This is what
/// happened to it, and no field of it.
pub uninterp spec fn woken(slot: AtomicWaker) -> Seq<Waker>;

/// The waker of the task that a context belongs to.
pub uninterp spec fn task_waker(context: Context<'_>) -> Waker;

/// `SegQueue::new`: a new queue is empty.
#[verifier::external_body]
fn new_queue() -> (queue: SegQueue<AtomicWaker>)
    ensures
        queued(queue) == Seq::<AtomicWaker>::empty(),
{
    SegQueue::new()
}

/// `SegQueue::push`: the item goes to the back of the queue.
///
/// The queue is borrowed mutably, so that no other thread pushes or pops meanwhile.
#[verifier::external_body]
fn push(queue: &mut SegQueue<AtomicWaker>, slot: AtomicWaker)
    ensures
        queued(*final(queue)) == queued(*old(queue)).push(slot),
{
    queue.push(slot)
}

/// `SegQueue::pop`: the item at the front leaves the queue; an empty queue stays as it is and
/// gives an error, here `None`.
///
/// The queue is borrowed mutably, so that no other thread pushes or pops meanwhile.
#[verifier::external_body]
fn pop(queue: &mut SegQueue<AtomicWaker>) -> (slot: Option<AtomicWaker>)
    ensures
        match slot {
            Some(slot) => {
                &&& queued(*old(queue)).len() > 0
                &&& slot == queued(*old(queue)).first()
                &&& queued(*final(queue)) == queued(*old(queue)).drop_first()
            },
            None => {
                &&& queued(*old(queue)).len() == 0
                &&& queued(*final(queue)) == queued(*old(queue))
            },
        },
{
    queue.pop().ok()
}

/// `AtomicWaker::new`: a new slot holds no waker, and has woken none.
#[verifier::external_body]
fn new_slot() -> (slot: AtomicWaker)
    ensures
        registered(slot) is None,
        woken(slot) == Seq::<Waker>::empty(),
{
    AtomicWaker::new()
}

/// `AtomicWaker::register`: the slot holds a clone of the waker afterwards, in place of what it
/// held. None is woken.
///
/// The slot is borrowed mutably, so that no other thread registers or wakes meanwhile.
#[verifier::external_body]
fn register(slot: &mut AtomicWaker, waker: &Waker)
    ensures
        registered(*final(slot)) == Some(*waker),
        woken(*final(slot)) == woken(*old(slot)),
{
    slot.register(waker)
}

/// `AtomicWaker::wake`: the waker that the slot holds is taken out and woken; an empty slot stays
/// empty and wakes none.
///
/// What the task's executor does about it is left unsaid. The slot is borrowed mutably, so that
/// no other thread registers or wakes meanwhile.
#[verifier::external_body]
fn wake(slot: &mut AtomicWaker)
    ensures
        registered(*final(slot)) is None,
        woken(*final(slot)) == woken(*old(slot)) + one(registered(*old(slot))),
{
    slot.wake()
}

/// `Context::waker`: the waker of the task that the context belongs to.
#[verifier::external_body]
fn waker_of<'a>(context: &Context<'a>) -> (waker: &'a Waker)
    ensures
        *waker == task_waker(*context),
{
    context.waker()
}

/// The waker that a slot holds, if it holds one, as a sequence.
pub open spec fn one(waker: Option<Waker>) -> Seq<Waker> {
    match waker {
        Some(waker) => seq![waker],
        None => Seq::empty(),
    }
}

/// What slots hold.
pub open spec fn contents(slots: Seq<AtomicWaker>) -> Seq<Option<Waker>> {
    slots.map_values(|slot: AtomicWaker| registered(slot))
}

/// Slots that hold these wakers.
pub open spec fn armed(wakers: Seq<Waker>) -> Seq<Option<Waker>> {
    wakers.map_values(|waker: Waker| Some(waker))
}

/// The tasks that wait for something, first come first.
pub struct WakerQueue {
    queue: SegQueue<AtomicWaker>,
}

impl View for WakerQueue {
    type V = Seq<Waker>;

    closed spec fn view(&self) -> Seq<Waker> {
        contents(queued(self.queue)).map_values(|slot: Option<Waker>| slot->0)
    }
}

impl WakerQueue {
    /// Every slot in the queue holds a waker, and has woken none.
    pub closed spec fn wf(self) -> bool {
        &&& contents(queued(self.queue)) == armed(self@)
        &&& forall|i: int|
            0 <= i < queued(self.queue).len() ==> woken(#[trigger] queued(self.queue)[i])
                == Seq::<Waker>::empty()
    }

    /// A queue in which nobody waits.
    pub fn new() -> (wakers: WakerQueue)
        ensures
            wakers.wf(),
            wakers@ == Seq::<Waker>::empty(),
    {
        let wakers = WakerQueue { queue: new_queue() };
        assert(wakers@ =~= Seq::empty());
        assert(contents(queued(wakers.queue)) =~= armed(wakers@));
        wakers
    }

    /// Puts the task that a context belongs to at the back.
    pub fn register_waker(&mut self, context: &Context<'_>)
        requires
            old(self).wf(),
        ensures
            final(self).wf(),
            final(self)@ == old(self)@.push(task_waker(*context)),
    {
        let mut slot = new_slot();
        register(&mut slot, waker_of(context));
        push(&mut self.queue, slot);
        proof {
            let before = contents(queued(old(self).queue));
            assert(contents(queued(self.queue)) =~= before.push(Some(task_waker(*context))));
            assert(self@ =~= old(self)@.push(task_waker(*context)));
            assert(armed(self@) =~= armed(old(self)@).push(Some(task_waker(*context))));
        }
    }

    /// Takes out the task at the front, if there is one.
    pub fn pop(&mut self) -> (wakeups: Wakeups)
        requires
            old(self).wf(),
        ensures
            final(self).wf(),
            wakeups.fresh(),
            old(self)@.len() > 0 ==> {
                &&& final(self)@ == old(self)@.drop_first()
                &&& wakeups@ == armed(seq![old(self)@.first()])
            },
            old(self)@.len() == 0 ==> {
                &&& final(self)@ == old(self)@
                &&& wakeups@ == armed(Seq::empty())
            },
    {
        let mut slots: Vec<AtomicWaker> = Vec::new();
        if let Some(slot) = pop(&mut self.queue) {
            slots.push(slot);
        }
        proof {
            let before = contents(queued(old(self).queue));
            if old(self)@.len() > 0 {
                assert(contents(queued(self.queue)) =~= before.drop_first());
                assert(self@ =~= old(self)@.drop_first());
                assert(armed(self@) =~= armed(old(self)@).drop_first());
                assert(before.first() == armed(old(self)@).first());
                assert(contents(slots@) =~= armed(seq![old(self)@.first()]));
            } else {
                assert(self@ =~= old(self)@);
                assert(contents(slots@) =~= armed(Seq::empty()));
            }
        }
        let wakeups = Wakeups { slots, next: 0 };
        proof {
            wakeups.lemma_fresh();
        }
        wakeups
    }

    /// Takes out every task, in the order in which they came.
    pub fn drain(&mut self) -> (wakeups: Wakeups)
        requires
            old(self).wf(),
        ensures
            final(self).wf(),
            final(self)@ == Seq::<Waker>::empty(),
            wakeups@ == armed(old(self)@),
            wakeups.fresh(),
    {
        let mut slots: Vec<AtomicWaker> = Vec::new();
        assert(slots@ + queued(self.queue) =~= queued(old(self).queue));
        loop
            invariant
                slots@ + queued(self.queue) == queued(old(self).queue),
            ensures
                queued(self.queue).len() == 0,
                slots@ == queued(old(self).queue),
            decreases queued(self.queue).len(),
        {
            match pop(&mut self.queue) {
                Some(slot) => {
                    slots.push(slot);
                },
                None => {
                    break;
                },
            }
        }
        assert(self@ =~= Seq::empty());
        assert(armed(self@) =~= contents(queued(self.queue)));
        assert forall|i: int| 0 <= i < slots.len() implies registered(
            #[trigger] slots[i],
        ) is Some by {
            assert(contents(queued(old(self).queue))[i] == armed(old(self)@)[i]);
        }
        let wakeups = Wakeups { slots, next: 0 };
        proof {
            wakeups.lemma_fresh();
        }
        wakeups
    }
}

/// Tasks that are to be woken, in this order.
#[must_use]
pub struct Wakeups {
    /// The slots of the tasks.
    slots: Vec<AtomicWaker>,
    /// How many of them have been woken.
    next: usize,
}

impl View for Wakeups {
    type V = Seq<Option<Waker>>;

    closed spec fn view(&self) -> Seq<Option<Waker>> {
        contents(self.slots@)
    }
}

impl Wakeups {
    /// Whom each slot has woken so far.
    pub closed spec fn woken(self) -> Seq<Seq<Waker>> {
        self.slots@.map_values(|slot: AtomicWaker| woken(slot))
    }

    /// The slots that have been woken are empty, and the others hold a waker.
    pub closed spec fn wf(self) -> bool {
        &&& self.next <= self.slots.len()
        &&& forall|i: int|
            0 <= i < self.slots.len() ==> (registered(#[trigger] self.slots[i]) is None <==> i
                < self.next)
    }

    /// Nobody has been woken yet.
    pub open spec fn fresh(self) -> bool {
        &&& self.wf()
        &&& self.woken() == self@.map_values(|slot: Option<Waker>| Seq::<Waker>::empty())
    }

    proof fn lemma_fresh(self)
        requires
            self.next == 0,
            forall|i: int|
                0 <= i < self.slots.len() ==> {
                    &&& registered(#[trigger] self.slots[i]) is Some
                    &&& woken(self.slots[i]) == Seq::<Waker>::empty()
                },
        ensures
            self.fresh(),
    {
        assert(self.woken() =~= self@.map_values(|slot: Option<Waker>| Seq::<Waker>::empty()));
    }

    /// These are the wakeups `before`, with whoever each slot still held taken out and woken.
    pub open spec fn woken_from(self, before: Wakeups) -> bool {
        &&& self@ == before@.map_values(|slot: Option<Waker>| None::<Waker>)
        &&& before.woken().len() == before@.len()
        &&& self.woken().len() == before@.len()
        &&& forall|i: int|
            0 <= i < before@.len() ==> #[trigger] self.woken()[i] == before.woken()[i] + one(
                before@[i],
            )
    }

    /// The task in slot `i` is the first that is still to be woken.
    pub open spec fn is_next(self, i: int) -> bool {
        &&& 0 <= i < self@.len()
        &&& self@[i] is Some
        &&& forall|j: int| 0 <= j < i ==> #[trigger] self@[j] is None
    }

    /// These are the wakeups `before`, with the first task that was still to be woken taken out
    /// and woken, and nothing else changed.
    pub open spec fn next_woken_from(self, before: Wakeups) -> bool {
        exists|i: int| #[trigger]
            before.is_next(i) && {
                &&& self@ == before@.update(i, None)
                &&& self.woken() == before.woken().update(i, before.woken()[i] + one(before@[i]))
            }
    }

    /// What the wakeups went through while their tasks were woken: from one to the next, the
    /// first task that was still to be woken was.
    pub open spec fn in_order(trace: Seq<Wakeups>) -> bool {
        forall|i: int, j: int|
            #![trigger trace[i], trace[j]]
            0 <= i && j == i + 1 && j < trace.len() ==> trace[j].next_woken_from(trace[i])
    }

    /// Each task is woken exactly once, by its own slot, however often the wakeups are woken.
    pub proof fn law_each_is_woken_once(
        wakers: Seq<Waker>,
        before: Wakeups,
        once: Wakeups,
        twice: Wakeups,
    )
        requires
            before@ == armed(wakers),
            before.fresh(),
            once.woken_from(before),
            twice.woken_from(once),
        ensures
            once.woken() == wakers.map_values(|waker: Waker| seq![waker]),
            twice.woken() == once.woken(),
    {
        assert forall|i: int| 0 <= i < wakers.len() implies #[trigger] once.woken()[i] == seq![
            wakers[i],
        ] by {
            assert(before.woken()[i] == Seq::<Waker>::empty());
            assert(once.woken()[i] =~= seq![wakers[i]]);
        }
        assert(once.woken() =~= wakers.map_values(|waker: Waker| seq![waker]));
        assert forall|i: int| 0 <= i < wakers.len() implies #[trigger] twice.woken()[i]
            == once.woken()[i] by {
            assert(once@[i] is None);
            assert(twice.woken()[i] =~= once.woken()[i]);
        }
        assert(twice.woken() =~= once.woken());
    }

    /// Tasks are woken first come first: once `k` of them have been, those are the first `k`, each
    /// woken once, and the others are still to be woken.
    pub proof fn law_first_come_first_woken(wakers: Seq<Waker>, trace: Seq<Wakeups>, k: int)
        requires
            Wakeups::in_order(trace),
            0 <= k < trace.len(),
            trace.first()@ == armed(wakers),
            trace.first().fresh(),
        ensures
            k <= wakers.len(),
            trace[k]@ == Seq::new(
                wakers.len(),
                |i: int| if i < k {
                    None
                } else {
                    Some(wakers[i])
                },
            ),
            trace[k].woken() == Seq::new(
                wakers.len(),
                |i: int| if i < k {
                    seq![wakers[i]]
                } else {
                    Seq::empty()
                },
            ),
        decreases k,
    {
        if k > 0 {
            Wakeups::law_first_come_first_woken(wakers, trace, k - 1);
            let before = trace[k - 1];
            assert(trace[k].next_woken_from(before));
            let i = choose|i: int| #[trigger]
                before.is_next(i) && {
                    &&& trace[k]@ == before@.update(i, None)
                    &&& trace[k].woken() == before.woken().update(
                        i,
                        before.woken()[i] + one(before@[i]),
                    )
                };
            if k - 1 < i {
                assert(before@[k - 1] is None);
            }
            assert(i == k - 1);
            assert(before.woken()[i] + one(before@[i]) =~= seq![wakers[i]]);
        }
    }

    /// The slots of the tasks.
    pub closed spec fn all_slots(self) -> Seq<AtomicWaker> {
        self.slots@
    }

    /// Wakeups hold what their slots hold, and have woken whom their slots have woken.
    pub proof fn law_slots_tell(self)
        ensures
            self@.len() == self.all_slots().len(),
            self.woken().len() == self.all_slots().len(),
            forall|i: int|
                #![trigger self.all_slots()[i]]
                0 <= i < self.all_slots().len() ==> {
                    &&& self@[i] == registered(self.all_slots()[i])
                    &&& self.woken()[i] == woken(self.all_slots()[i])
                },
    {
    }

    /// Wakeups that were just handed out for some tasks hold a waker of each, in their order, have
    /// woken nobody, and can be woken.
    pub proof fn law_handed_out(self, wakers: Seq<Waker>)
        requires
            self@ == armed(wakers),
            self.fresh(),
        ensures
            self.wf(),
            self@.len() == wakers.len(),
            self.woken().len() == wakers.len(),
            forall|i: int|
                #![trigger wakers[i]]
                0 <= i < wakers.len() ==> {
                    &&& self@[i] == Some(wakers[i])
                    &&& self.woken()[i].len() == 0
                },
    {
        self.law_slots_tell();
        assert forall|i: int| 0 <= i < wakers.len() implies self@[i] == Some(#[trigger] wakers[i])
            && self.woken()[i].len() == 0 by {
            assert(self@[i] == armed(wakers)[i]);
        }
    }

    /// Waking the next task wakes one that was still to be woken and that none such was before,
    /// and leaves all the others as they are.
    pub proof fn law_one_is_woken(before: Wakeups, after: Wakeups)
        requires
            after.next_woken_from(before),
        ensures
            after@.len() == before@.len(),
            exists|i: int|
                #![trigger before@[i]]
                {
                    &&& 0 <= i < before@.len()
                    &&& before@[i] is Some
                    &&& after@[i] is None
                    &&& after.woken()[i] == before.woken()[i].push(before@[i]->0)
                    &&& forall|j: int| 0 <= j < i ==> #[trigger] before@[j] is None
                    &&& forall|j: int|
                        #![trigger after@[j]]
                        0 <= j < before@.len() && j != i ==> after@[j] == before@[j]
                            && after.woken()[j] == before.woken()[j]
                },
    {
        before.law_slots_tell();
        let i = choose|i: int| #[trigger]
            before.is_next(i) && {
                &&& after@ == before@.update(i, None)
                &&& after.woken() == before.woken().update(i, before.woken()[i] + one(before@[i]))
            };
        assert(before.woken()[i] + one(before@[i]) =~= before.woken()[i].push(before@[i]->0));
        assert(before@[i] is Some);
    }

    /// Waking the tasks leaves nobody to be woken: whoever still was has been woken once more, and
    /// nobody else has.
    pub proof fn law_all_are_woken(before: Wakeups, after: Wakeups)
        requires
            after.woken_from(before),
        ensures
            after@.len() == before@.len(),
            after.woken().len() == before@.len(),
            forall|i: int|
                #![trigger after@[i]]
                0 <= i < before@.len() ==> {
                    &&& after@[i] is None
                    &&& after.woken()[i] == match before@[i] {
                        Some(waker) => before.woken()[i].push(waker),
                        None => before.woken()[i],
                    }
                },
    {
        assert forall|i: int| 0 <= i < before@.len() implies (#[trigger] after@[i]) is None
            && after.woken()[i] == match before@[i] {
            Some(waker) => before.woken()[i].push(waker),
            None => before.woken()[i],
        } by {
            match before@[i] {
                Some(waker) => {
                    assert(before.woken()[i] + one(before@[i]) =~= before.woken()[i].push(waker));
                },
                None => {
                    assert(before.woken()[i] + one(before@[i]) =~= before.woken()[i]);
                },
            }
        }
    }

    /// Nobody to wake.
    pub fn none() -> (wakeups: Wakeups)
        ensures
            wakeups@ == armed(Seq::empty()),
            wakeups.fresh(),
    {
        let wakeups = Wakeups { slots: Vec::new(), next: 0 };
        assert(wakeups@ =~= armed(Seq::empty()));
        proof {
            wakeups.lemma_fresh();
        }
        wakeups
    }

    /// How many tasks there are.
    pub fn len(&self) -> (len: usize)
        ensures
            len == self@.len(),
    {
        self.slots.len()
    }

    /// Wakes the first task that is still to be woken, and says whether there was one.
    pub fn wake_next(&mut self) -> (any: bool)
        requires
            old(self).wf(),
        ensures
            final(self).wf(),
            any == exists|i: int| old(self).is_next(i),
            any ==> final(self).next_woken_from(*old(self)),
            !any ==> {
                &&& *final(self) == *old(self)
                &&& forall|i: int| 0 <= i < old(self)@.len() ==> #[trigger] old(self)@[i] is None
            },
    {
        let i: usize = self.next;
        if i < self.slots.len() {
            wake(&mut self.slots[i]);
            self.next = i + 1;
            proof {
                let before = *old(self);
                assert(before.is_next(i as int));
                assert(self@ =~= before@.update(i as int, None));
                assert(self.woken() =~= before.woken().update(
                    i as int,
                    before.woken()[i as int] + one(before@[i as int]),
                ));
            }
            true
        } else {
            false
        }
    }

    /// Wakes the tasks, first come first. Each is woken once, however often this is called.
    pub fn wake(&mut self)
        requires
            old(self).wf(),
        ensures
            final(self).wf(),
            final(self).woken_from(*old(self)),
            exists|trace: Seq<Wakeups>| #[trigger]
                Wakeups::in_order(trace) && trace.len() > 0 && trace.first() == *old(self)
                    && trace.last() == *final(self),
    {
        let ghost mut trace: Seq<Wakeups> = seq![*old(self)];
        loop
            invariant
                self.wf(),
                self@.len() == old(self)@.len(),
                self.woken().len() == old(self)@.len(),
                old(self).woken().len() == old(self)@.len(),
                forall|j: int|
                    0 <= j < self.next ==> #[trigger] self.woken()[j] =~= old(self).woken()[j]
                        + one(old(self)@[j]),
                forall|j: int|
                    self.next <= j < self@.len() ==> #[trigger] self.woken()[j]
                        == old(self).woken()[j],
                forall|j: int|
                    self.next <= j < self@.len() ==> #[trigger] self@[j] == old(self)@[j],
                Wakeups::in_order(trace),
                trace.len() > 0,
                trace.first() == *old(self),
                trace.last() == *self,
            ensures
                forall|j: int| 0 <= j < self@.len() ==> #[trigger] self@[j] is None,
            decreases self.slots.len() - self.next,
        {
            let ghost before = *self;
            if !self.wake_next() {
                break;
            }
            proof {
                before.lemma_next_woken(*self);
                trace = trace.push(*self);
            }
        }
        assert(self@ =~= old(self)@.map_values(|slot: Option<Waker>| None::<Waker>));
        assert forall|j: int| 0 <= j < self@.len() implies #[trigger] self.woken()[j]
            == old(self).woken()[j] + one(old(self)@[j]) by {
            assert(self@[j] is None);
            assert(self@[j] == registered(self.slots[j]));
        }
    }

    /// Waking the first task that is still to be woken makes the one behind it the first.
    proof fn lemma_next_woken(self, after: Wakeups)
        requires
            self.wf(),
            after.wf(),
            after.next_woken_from(self),
        ensures
            self.next < self.slots.len(),
            after.slots.len() == self.slots.len(),
            after.next == self.next + 1,
            after@ == self@.update(self.next as int, None),
            after.woken() == self.woken().update(
                self.next as int,
                self.woken()[self.next as int] + one(self@[self.next as int]),
            ),
    {
        let i = choose|i: int| #[trigger]
            self.is_next(i) && {
                &&& after@ == self@.update(i, None)
                &&& after.woken() == self.woken().update(i, self.woken()[i] + one(self@[i]))
            };
        assert(after@.len() == after.slots.len() && self@.len() == self.slots.len());
        assert(after@.len() == self@.len());
        assert(self@[i] == registered(self.slots[i]));
        if self.next < i {
            assert(self@[self.next as int] == registered(self.slots[self.next as int]));
        }
        assert(i == self.next);
        assert(after@[i] == registered(after.slots[i]));
        if after.next > i + 1 {
            assert(after@[i + 1] == registered(after.slots[i + 1]));
            assert(self@[i + 1] == registered(self.slots[i + 1]));
        }
    }
}

} // verus!
