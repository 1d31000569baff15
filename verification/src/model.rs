//! The scheduler as a state machine over mathematical values.
//!
//! Every executable operation of the crate is specified as one transition of
//! [`SchedState`]; the invariants of the scheduler are proved here, once, for
//! the transitions themselves.

use vstd::prelude::*;
use crate::waker::WakerData;

verus! {

/// What the ready-queue, the queued flags and the wake-handle table hold.
pub struct SchedState {
    /// Ready-queue, front first.
    pub queue: Seq<usize>,
    /// The "currently queued" flag of each task, by task id.
    pub queued: Seq<bool>,
    /// Wake-handle allocations, by slot.
    pub wakers: Seq<WakerData>,
    /// Slots whose allocation has been freed, most recently freed last.
    pub free: Seq<usize>,
    /// Number of tasks that were announced as alive and have not completed.
    pub alive: nat,
    /// Current time in milliseconds, as last told to the scheduler.
    pub now: u64,
}

impl SchedState {
    /// The state of a scheduler that has seen nothing yet.
    pub open spec fn empty() -> SchedState {
        SchedState {
            queue: Seq::empty(),
            queued: Seq::empty(),
            wakers: Seq::empty(),
            free: Seq::empty(),
            alive: 0,
            now: 0,
        }
    }

    /// `task` has been registered.
    pub open spec fn has_task(self, task: usize) -> bool {
        task < self.queued.len()
    }

    /// The queued flag of `task` is set.
    pub open spec fn is_queued(self, task: usize) -> bool {
        self.has_task(task) && self.queued[task as int]
    }

    /// The handle refers to an allocation that has not been freed.
    pub open spec fn live(self, handle: Option<usize>) -> bool {
        handle matches Some(slot) && slot < self.wakers.len() && self.wakers[slot as int].refs > 0
    }

    /// Number of outstanding references to the allocation behind the handle.
    pub open spec fn refs(self, handle: Option<usize>) -> nat {
        if self.live(handle) {
            self.wakers[handle->0 as int].refs as nat
        } else {
            0
        }
    }

    /// The slots of the allocations that have not been freed.
    pub open spec fn live_slots(self) -> Set<usize> {
        Set::new(|slot: usize| self.live(Some(slot)))
    }

    /// The task that a live handle re-enqueues.
    pub open spec fn target(self, handle: Option<usize>) -> usize {
        self.wakers[handle->0 as int].task
    }

    /// Structural invariant: the queue holds registered, flagged tasks, each at
    /// most once; live allocations point at registered tasks; the free list
    /// names the freed slots, all of them and each once.
    pub open spec fn wf(self) -> bool {
        &&& forall|i: int| 0 <= i < self.queue.len() ==> self.is_queued(#[trigger] self.queue[i])
        &&& self.queue.no_duplicates()
        &&& forall|k: int|
            0 <= k < self.wakers.len() && (#[trigger] self.wakers[k]).refs > 0
                ==> self.has_task(self.wakers[k].task)
        &&& forall|i: int|
            0 <= i < self.free.len() ==> (#[trigger] self.free[i]) < self.wakers.len()
                && self.wakers[self.free[i] as int].refs == 0
        &&& forall|slot: usize|
            slot < self.wakers.len() && (#[trigger] self.wakers[slot as int]).refs == 0
                ==> self.free.contains(slot)
        &&& self.free.no_duplicates()
    }

    /// Every flagged task is in the queue. Holds whenever no enqueue is half
    /// done, that is, outside the gap between marking a task and pushing it.
    pub open spec fn settled(self) -> bool {
        forall|task: usize|
            task < self.queued.len() && #[trigger] self.queued[task as int] ==> self.queue.contains(
                task,
            )
    }

    /// Every flagged task but `task` is in the queue: the state between
    /// marking `task` and pushing it, or between popping it and clearing it.
    pub open spec fn settled_except(self, task: usize) -> bool {
        forall|other: usize|
            other < self.queued.len() && #[trigger] self.queued[other as int] && other != task
                ==> self.queue.contains(other)
    }

    /// A new task record, flag cleared. Its id is the old number of tasks.
    pub open spec fn registered(self) -> SchedState {
        SchedState { queued: self.queued.push(false), ..self }
    }

    /// The flag of `task` set.
    pub open spec fn marked(self, task: usize) -> SchedState {
        SchedState { queued: self.queued.update(task as int, true), ..self }
    }

    /// The flag of `task` cleared.
    pub open spec fn cleared(self, task: usize) -> SchedState {
        SchedState { queued: self.queued.update(task as int, false), ..self }
    }

    /// `task` appended to the queue.
    pub open spec fn pushed(self, task: usize) -> SchedState {
        SchedState { queue: self.queue.push(task), ..self }
    }

    /// The front entry removed from the queue.
    pub open spec fn popped(self) -> SchedState {
        SchedState { queue: self.queue.drop_first(), ..self }
    }

    /// `task` made runnable: flagged and appended, unless it is flagged already.
    pub open spec fn enqueued(self, task: usize) -> SchedState {
        if self.is_queued(task) || !self.has_task(task) {
            self
        } else {
            self.marked(task).pushed(task)
        }
    }

    /// `add` more tasks counted as alive.
    pub open spec fn more_alive(self, add: nat) -> SchedState {
        SchedState { alive: self.alive + add, ..self }
    }

    /// One task fewer counted as alive.
    pub open spec fn one_less_alive(self) -> SchedState {
        SchedState { alive: (self.alive - 1) as nat, ..self }
    }

    /// The clock set to `now`.
    pub open spec fn at(self, now: u64) -> SchedState {
        SchedState { now, ..self }
    }

    /// The slot that the next allocation will occupy.
    pub open spec fn fresh_slot(self) -> usize {
        if self.free.len() > 0 {
            self.free.last()
        } else {
            self.wakers.len() as usize
        }
    }

    /// A new allocation for `task` with one reference, in [`Self::fresh_slot`].
    pub open spec fn allocated(self, task: usize) -> SchedState {
        let data = WakerData { task, refs: 1 };
        if self.free.len() > 0 {
            SchedState {
                wakers: self.wakers.update(self.free.last() as int, data),
                free: self.free.drop_last(),
                ..self
            }
        } else {
            SchedState { wakers: self.wakers.push(data), ..self }
        }
    }

    /// One more reference to the allocation behind the handle. A count that has
    /// reached `usize::MAX` stays there.
    pub open spec fn retained(self, handle: Option<usize>) -> SchedState {
        if self.live(handle) && self.refs(handle) < usize::MAX {
            let slot = handle->0 as int;
            let more = (self.refs(handle) + 1) as usize;
            let data = WakerData { task: self.wakers[slot].task, refs: more };
            SchedState { wakers: self.wakers.update(slot, data), ..self }
        } else {
            self
        }
    }

    /// One reference fewer; the allocation is freed when none is left. A count
    /// that has reached `usize::MAX` stays there, so such an allocation is
    /// never freed.
    pub open spec fn released(self, handle: Option<usize>) -> SchedState {
        if self.live(handle) && self.refs(handle) < usize::MAX {
            let slot = handle->0;
            let left = (self.refs(handle) - 1) as usize;
            let data = WakerData { task: self.wakers[slot as int].task, refs: left };
            SchedState {
                wakers: self.wakers.update(slot as int, data),
                free: if left == 0 {
                    self.free.push(slot)
                } else {
                    self.free
                },
                ..self
            }
        } else {
            self
        }
    }

    /// The task behind a live handle made runnable.
    pub open spec fn woken(self, handle: Option<usize>) -> SchedState {
        if self.live(handle) {
            self.enqueued(self.target(handle))
        } else {
            self
        }
    }

    /// What a resumption may do to the scheduler: it may enqueue tasks and
    /// move references, nothing else.
    pub open spec fn evolves(self, next: SchedState) -> bool {
        &&& next.wf()
        &&& next.settled()
        &&& next.queued.len() == self.queued.len()
        &&& next.alive == self.alive
        &&& next.now == self.now
        &&& self.queue.is_prefix_of(next.queue)
    }
}

impl SchedState {
    /// Registering a task keeps the invariants; the new task is not queued.
    pub proof fn lemma_registered(self)
        requires
            self.wf(),
        ensures
            self.registered().wf(),
            self.settled() ==> self.registered().settled(),
            self.queued.len() <= usize::MAX ==> !self.registered().is_queued(
                self.queued.len() as usize,
            ),
    {
    }

    /// Setting a flag keeps the structure; it leaves the state unsettled until
    /// the task is pushed.
    pub proof fn lemma_marked(self, task: usize)
        requires
            self.wf(),
            self.has_task(task),
        ensures
            self.marked(task).wf(),
            self.marked(task).is_queued(task),
            self.settled() ==> self.marked(task).settled_except(task),
            !self.is_queued(task) ==> !self.marked(task).queue.contains(task),
    {
    }

    /// Pushing a flagged task that is not in the queue keeps the structure, and
    /// settles a state in which that task was the only one missing.
    pub proof fn lemma_pushed(self, task: usize)
        requires
            self.wf(),
            self.is_queued(task),
            !self.queue.contains(task),
        ensures
            self.pushed(task).wf(),
            self.pushed(task).queue.contains(task),
            self.settled_except(task) ==> self.pushed(task).settled(),
    {
        let next = self.pushed(task);
        assert(next.queue[self.queue.len() as int] == task);
        if self.settled_except(task) {
            assert forall|other: usize|
                other < next.queued.len() && #[trigger] next.queued[other as int] implies
                next.queue.contains(other) by {
                if other != task {
                    let i = choose|i: int| 0 <= i < self.queue.len() && self.queue[i] == other;
                    assert(next.queue[i] == other);
                }
            }
        }
    }

    /// Clearing the flag of a task that is not in the queue keeps the
    /// structure, and settles a state in which that task was the only one
    /// missing from the queue.
    pub proof fn lemma_cleared(self, task: usize)
        requires
            self.wf(),
            self.has_task(task),
            !self.queue.contains(task),
        ensures
            self.cleared(task).wf(),
            !self.cleared(task).is_queued(task),
            self.settled_except(task) ==> self.cleared(task).settled(),
    {
    }

    /// Popping keeps the structure. The popped task is no longer in the queue,
    /// and every other task keeps its place in line.
    pub proof fn lemma_popped(self)
        requires
            self.wf(),
            self.queue.len() > 0,
        ensures
            self.popped().wf(),
            self.is_queued(self.queue[0]),
            !self.popped().queue.contains(self.queue[0]),
            forall|other: usize|
                other != self.queue[0] && self.queue.contains(other)
                    ==> #[trigger] self.popped().queue.contains(other),
            self.settled() ==> self.popped().settled_except(self.queue[0]),
    {
        let next = self.popped();
        let front = self.queue[0];
        assert forall|other: usize| other != front && self.queue.contains(other) implies #[trigger]
            next.queue.contains(other) by {
            let i = choose|i: int| 0 <= i < self.queue.len() && self.queue[i] == other;
            assert(next.queue[i - 1] == other);
        }
    }

    /// Making a task runnable keeps the invariants, only appends to the queue,
    /// and leaves the task in the queue.
    pub proof fn lemma_enqueued(self, task: usize)
        requires
            self.wf(),
            self.settled(),
        ensures
            self.evolves(self.enqueued(task)),
            self.has_task(task) ==> self.enqueued(task).queue.contains(task),
            self.enqueued(task).queue.len() <= self.queue.len() + 1,
            self.enqueued(task).wakers == self.wakers,
            self.enqueued(task).free == self.free,
    {
        if self.is_queued(task) || !self.has_task(task) {
        } else {
            self.marked(task).lemma_pushed(task);
        }
    }

    /// Allocating keeps the invariants: the slot that is taken leaves the
    /// free list, and every other freed slot stays on it.
    pub proof fn lemma_allocated(self, task: usize)
        requires
            self.wf(),
            self.has_task(task),
            self.free.len() == 0 ==> self.wakers.len() < usize::MAX,
        ensures
            self.allocated(task).wf(),
            self.settled() ==> self.evolves(self.allocated(task)),
    {
        let next = self.allocated(task);
        assert forall|slot: usize|
            slot < next.wakers.len() && (#[trigger] next.wakers[slot as int]).refs
                == 0 implies next.free.contains(slot) by {
            assert(self.wakers[slot as int].refs == 0);
            let i = choose|i: int| 0 <= i < self.free.len() && self.free[i] == slot;
            assert(next.free[i] == slot);
        }
    }

    /// Giving a reference back keeps the invariants: a slot whose last
    /// reference goes joins the free list, and every other freed slot stays
    /// on it.
    pub proof fn lemma_released(self, handle: Option<usize>)
        requires
            self.wf(),
        ensures
            self.released(handle).wf(),
            self.settled() ==> self.evolves(self.released(handle)),
    {
        let next = self.released(handle);
        if self.live(handle) && self.refs(handle) < usize::MAX {
            assert forall|slot: usize|
                slot < next.wakers.len() && (#[trigger] next.wakers[slot as int]).refs
                    == 0 implies next.free.contains(slot) by {
                if slot == handle->0 {
                    assert(next.free[self.free.len() as int] == slot);
                } else {
                    assert(self.wakers[slot as int].refs == 0);
                    let i = choose|i: int| 0 <= i < self.free.len() && self.free[i] == slot;
                    assert(next.free[i] == slot);
                }
            }
        }
    }

    /// Waking keeps the invariants, only appends to the queue, and leaves the
    /// task of a live handle in the queue.
    pub proof fn lemma_woken(self, handle: Option<usize>)
        requires
            self.wf(),
            self.settled(),
        ensures
            self.evolves(self.woken(handle)),
            self.woken(handle).wakers == self.wakers,
            self.woken(handle).free == self.free,
            self.live(handle) ==> self.woken(handle).queue.contains(self.target(handle)),
            self.woken(handle).queue.len() <= self.queue.len() + 1,
    {
        if self.live(handle) {
            self.lemma_enqueued(self.target(handle));
        }
    }

    /// The live allocations are the slots that are not on the free list.
    pub proof fn lemma_live_slots(self)
        requires
            self.wf(),
            self.wakers.len() <= usize::MAX,
        ensures
            self.live_slots().finite(),
            self.live_slots().len() == self.wakers.len() - self.free.len(),
    {
        let slots = Set::new(|slot: usize| slot < self.wakers.len());
        let freed = self.free.to_set();
        lemma_below_len(self.wakers.len());
        self.free.unique_seq_to_set();
        vstd::seq_lib::seq_to_set_is_finite(self.free);
        assert(slots.intersect(freed) =~= freed);
        assert(slots.difference(freed) =~= self.live_slots());
        vstd::set_lib::lemma_set_difference_len(slots, freed);
    }

    /// What is in the queue stays there while the scheduler evolves.
    pub proof fn lemma_evolves_contains(self, next: SchedState, task: usize)
        requires
            self.evolves(next),
            self.queue.contains(task),
        ensures
            next.queue.contains(task),
    {
    }
}

/// Anything that can happen to the scheduler between two instants at which
/// it can be observed.
pub enum Event {
    /// A task is spawned: registered, marked, pushed and counted as alive.
    Spawn,
    /// The run loop takes the front task off the queue and clears its flag.
    Take,
    /// A task that was taken has reported `Ready` for the first time.
    Finish,
    /// A wake handle is created for a task.
    TaskWaker(usize),
    /// A wake handle is cloned.
    CloneWaker(Option<usize>),
    /// A wake handle is invoked and used up.
    WakeWaker(Option<usize>),
    /// A wake handle is invoked and kept.
    WakeByRef(Option<usize>),
    /// A wake handle is dropped.
    DropWaker(Option<usize>),
    /// The clock is set.
    SetNow(u64),
}

/// The four things that can be done with a wake handle.
pub enum HandleOp {
    CloneWaker,
    WakeWaker,
    WakeByRef,
    DropWaker,
}

impl SchedState {
    /// The state after `event`. An event that cannot take place (taking from an
    /// empty queue, a handle for a task that does not exist) changes nothing.
    pub open spec fn after(self, event: Event) -> SchedState {
        match event {
            Event::Spawn => if self.queued.len() < usize::MAX {
                self.registered().enqueued(self.queued.len() as usize).more_alive(1)
            } else {
                self
            },
            Event::Take => if self.queue.len() > 0 {
                self.popped().cleared(self.queue[0])
            } else {
                self
            },
            Event::Finish => if self.alive > 0 {
                self.one_less_alive()
            } else {
                self
            },
            Event::TaskWaker(task) => if self.has_task(task) && (self.free.len() > 0
                || self.wakers.len() < usize::MAX) {
                self.allocated(task)
            } else {
                self
            },
            Event::CloneWaker(handle) => self.retained(handle),
            Event::WakeWaker(handle) => self.woken(handle).released(handle),
            Event::WakeByRef(handle) => self.woken(handle),
            Event::DropWaker(handle) => self.released(handle),
            Event::SetNow(now) => self.at(now),
        }
    }

    /// The state after `events`, in order.
    pub open spec fn after_all(self, events: Seq<Event>) -> SchedState
        decreases events.len(),
    {
        if events.len() == 0 {
            self
        } else {
            self.after_all(events.drop_last()).after(events.last())
        }
    }

    /// No event breaks the invariants.
    pub proof fn lemma_after(self, event: Event)
        requires
            self.wf(),
            self.settled(),
        ensures
            self.after(event).wf(),
            self.after(event).settled(),
    {
        match event {
            Event::Spawn => {
                if self.queued.len() < usize::MAX {
                    let id = self.queued.len() as usize;
                    self.registered().lemma_enqueued(id);
                }
            },
            Event::Take => {
                if self.queue.len() > 0 {
                    self.lemma_popped();
                }
            },
            Event::Finish => {
            },
            Event::TaskWaker(task) => {
                if self.has_task(task) && (self.free.len() > 0 || self.wakers.len() < usize::MAX) {
                    self.lemma_allocated(task);
                }
            },
            Event::CloneWaker(handle) => {
            },
            Event::WakeWaker(handle) => {
                self.lemma_woken(handle);
                self.woken(handle).lemma_released(handle);
            },
            Event::WakeByRef(handle) => {
                self.lemma_woken(handle);
            },
            Event::DropWaker(handle) => {
                self.lemma_released(handle);
            },
            Event::SetNow(now) => {
            },
        }
    }

    /// At most one queue entry per task: whatever is spawned, taken, woken,
    /// cloned and dropped, in whatever order, no task is in the ready-queue
    /// twice, and the tasks in the queue are exactly those whose flag is set.
    pub proof fn lemma_at_most_one_queue_entry(self, events: Seq<Event>)
        requires
            self.wf(),
            self.settled(),
        ensures
            self.after_all(events).wf(),
            self.after_all(events).settled(),
            forall|i: int, j: int|
                0 <= i < j < self.after_all(events).queue.len() ==> self.after_all(events).queue[i]
                    != self.after_all(events).queue[j],
            forall|task: usize|
                self.after_all(events).queue.contains(task) <==> self.after_all(events).is_queued(
                    task,
                ),
        decreases events.len(),
    {
        if events.len() > 0 {
            self.lemma_at_most_one_queue_entry(events.drop_last());
            self.after_all(events.drop_last()).lemma_after(events.last());
        }
    }

    /// A wake-up that arrives while its task is being resumed is not lost:
    /// the task was taken off the queue and its flag cleared before the
    /// resumption began, so the wake marks it and pushes it to the back.
    pub proof fn lemma_wake_during_resumption(self, handle: Option<usize>)
        requires
            self.wf(),
            self.settled(),
            self.queue.len() > 0,
            self.live(handle),
            self.target(handle) == self.queue[0],
        ensures
            self.after(Event::Take).after(Event::WakeByRef(handle)).queue
                == self.queue.drop_first().push(self.queue[0]),
            self.after(Event::Take).after(Event::WakeWaker(handle)).queue
                == self.queue.drop_first().push(self.queue[0]),
    {
    }

    /// The state after `op` on a handle.
    pub open spec fn handled(self, handle: Option<usize>, op: HandleOp) -> SchedState {
        match op {
            HandleOp::CloneWaker => self.retained(handle),
            HandleOp::WakeWaker => self.woken(handle).released(handle),
            HandleOp::WakeByRef => self.woken(handle),
            HandleOp::DropWaker => self.released(handle),
        }
    }

    /// The state after `ops` on handles of one allocation, in order.
    pub open spec fn handled_all(self, handle: Option<usize>, ops: Seq<HandleOp>) -> SchedState
        decreases ops.len(),
    {
        if ops.len() == 0 {
            self
        } else {
            self.handled_all(handle, ops.drop_last()).handled(handle, ops.last())
        }
    }
}

/// Number of handles in existence after `ops`, starting from `start`: a clone
/// makes one, a wake or a drop uses one up, a wake by reference does neither.
pub open spec fn handles_after(start: int, ops: Seq<HandleOp>) -> int
    decreases ops.len(),
{
    if ops.len() == 0 {
        start
    } else {
        handles_after(start, ops.drop_last()) + match ops.last() {
            HandleOp::CloneWaker => 1int,
            HandleOp::WakeWaker => -1int,
            HandleOp::WakeByRef => 0int,
            HandleOp::DropWaker => -1int,
        }
    }
}

/// Every operation in `ops` is done with a handle that exists, and there are
/// never `usize::MAX` handles or more.
pub open spec fn handles_exist(start: int, ops: Seq<HandleOp>) -> bool {
    forall|n: int|
        0 <= n < ops.len() ==> 0 < #[trigger] handles_after(start, ops.take(n)) < usize::MAX
}

impl SchedState {
    /// Reference-count balance: after any operations on the handles of an
    /// allocation, its count is the number of handles in existence, and the
    /// allocation has been freed exactly when that number is zero. A freed
    /// slot is on the free list once.
    pub proof fn lemma_count_is_handles(self, handle: Option<usize>, ops: Seq<HandleOp>)
        requires
            self.wf(),
            self.settled(),
            self.live(handle),
            self.refs(handle) < usize::MAX,
            handles_exist(self.refs(handle) as int, ops),
        ensures
            self.handled_all(handle, ops).wf(),
            self.handled_all(handle, ops).settled(),
            self.handled_all(handle, ops).refs(handle) == handles_after(
                self.refs(handle) as int,
                ops,
            ),
            self.handled_all(handle, ops).live(handle) <==> handles_after(
                self.refs(handle) as int,
                ops,
            ) > 0,
            !self.handled_all(handle, ops).live(handle) ==> self.handled_all(
                handle,
                ops,
            ).free.contains(handle->0),
            self.handled_all(handle, ops).free.no_duplicates(),
        decreases ops.len(),
    {
        let start = self.refs(handle) as int;
        if ops.len() > 0 {
            let earlier = ops.drop_last();
            assert forall|n: int| 0 <= n < earlier.len() implies 0 < #[trigger] handles_after(
                start,
                earlier.take(n),
            ) < usize::MAX by {
                assert(earlier.take(n) =~= ops.take(n));
            }
            self.lemma_count_is_handles(handle, earlier);
            let mid = self.handled_all(handle, earlier);
            mid.lemma_woken(handle);
            mid.lemma_released(handle);
            mid.woken(handle).lemma_released(handle);
            let end = mid.handled(handle, ops.last());
            if !end.live(handle) {
                assert(end.free[end.free.len() - 1] == handle->0);
            }
        }
    }

    /// Once an allocation has been freed, nothing that is done with a handle
    /// to it has any effect: it cannot be freed a second time.
    pub proof fn lemma_freed_stays_freed(self, handle: Option<usize>, op: HandleOp)
        requires
            !self.live(handle),
        ensures
            self.handled(handle, op) == self,
    {
    }
}

/// There are exactly `n` values of `usize` below `n`.
proof fn lemma_below_len(n: nat)
    requires
        n <= usize::MAX + 1,
    ensures
        Set::new(|slot: usize| slot < n).finite(),
        Set::new(|slot: usize| slot < n).len() == n,
    decreases n,
{
    let below = Set::new(|slot: usize| slot < n);
    if n == 0 {
        assert(below =~= Set::<usize>::empty());
    } else {
        let rest = Set::new(|slot: usize| slot < (n - 1) as nat);
        lemma_below_len((n - 1) as nat);
        assert(below =~= rest.insert((n - 1) as usize));
    }
}

} // verus!
