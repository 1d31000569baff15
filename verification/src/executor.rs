//! The ready-queue with its bookkeeping, and the run loop.

use vstd::prelude::*;
use std::collections::VecDeque;
use crate::model::SchedState;
use crate::task::{Completion, Computation, Task};
use crate::waker::{
    clone_waker, drop_waker, task_waker, wake_by_ref_waker, wake_waker, Context, Waker, WakerData,
};

verus! {

/// Everything that the run loop and the wake handles share: the ready-queue,
/// the queued flag of every task, the table of wake-handle allocations, the
/// count of tasks still alive, and the clock.
pub struct SharedState {
    queue: VecDeque<usize>,
    alive: usize,
    queued: Vec<bool>,
    wakers: Vec<WakerData>,
    free: Vec<usize>,
    now: u64,
}

impl View for SharedState {
    type V = SchedState;

    closed spec fn view(&self) -> SchedState {
        SchedState {
            queue: self.queue@,
            queued: self.queued@,
            wakers: self.wakers@,
            free: self.free@,
            alive: self.alive as nat,
            now: self.now,
        }
    }
}

impl SharedState {
    /// An empty queue with no task, no wake handle and the clock at zero.
    pub fn new() -> (state: SharedState)
        ensures
            state@ == SchedState::empty(),
            state@.wf(),
            state@.settled(),
    {
        SharedState {
            queue: VecDeque::new(),
            alive: 0,
            queued: Vec::new(),
            wakers: Vec::new(),
            free: Vec::new(),
            now: 0,
        }
    }

    /// Appends `task` to the ready-queue. The caller has just won
    /// `mark_queued` for it, so the task is flagged and not in the queue.
    pub fn add_task(&mut self, task: usize)
        requires
            old(self)@.wf(),
            old(self)@.is_queued(task),
            !old(self)@.queue.contains(task),
        ensures
            final(self)@ == old(self)@.pushed(task),
            final(self)@.wf(),
    {
        proof {
            self@.lemma_pushed(task);
        }
        self.queue.push_back(task);
    }

    /// Counts `add` more tasks as alive.
    pub fn add_alive(&mut self, add: usize)
        requires
            old(self)@.alive + add <= usize::MAX,
        ensures
            final(self)@ == old(self)@.more_alive(add as nat),
    {
        self.alive = self.alive + add;
    }

    /// Counts one task as no longer alive.
    pub fn sub_alive(&mut self)
        requires
            old(self)@.alive > 0,
        ensures
            final(self)@ == old(self)@.one_less_alive(),
    {
        self.alive = self.alive - 1;
    }

    /// Removes and returns the front of the ready-queue, or `None` when the
    /// queue is empty. The flag of the returned task stays set until
    /// `clear_queued`.
    pub fn pop(&mut self) -> (front: Option<usize>)
        requires
            old(self)@.wf(),
        ensures
            final(self)@.wf(),
            match front {
                Some(task) => {
                    &&& old(self)@.queue.len() > 0
                    &&& task == old(self)@.queue[0]
                    &&& final(self)@ == old(self)@.popped()
                },
                None => {
                    &&& old(self)@.queue.len() == 0
                    &&& final(self)@ == old(self)@
                },
            },
    {
        proof {
            if self@.queue.len() > 0 {
                self@.lemma_popped();
            }
        }
        self.queue.pop_front()
    }

    /// Adds the record of a new task, flag cleared, and returns its id.
    pub(crate) fn register(&mut self) -> (task: usize)
        requires
            old(self)@.wf(),
        ensures
            task == old(self)@.queued.len(),
            task < usize::MAX,
            final(self)@ == old(self)@.registered(),
            final(self)@.wf(),
            old(self)@.settled() ==> final(self)@.settled(),
    {
        proof {
            self@.lemma_registered();
        }
        let task = self.queued.len();
        self.queued.push(false);
        assert(self.queued.len() == task + 1);
        task
    }

    /// Sets the queued flag of `task` if it is clear, and says whether it did.
    /// Whoever gets `true` pushes the task.
    pub(crate) fn mark(&mut self, task: usize) -> (won: bool)
        requires
            old(self)@.wf(),
            old(self)@.has_task(task),
        ensures
            won == !old(self)@.is_queued(task),
            final(self)@ == old(self)@.marked(task),
            final(self)@.wf(),
    {
        proof {
            self@.lemma_marked(task);
        }
        let won = !self.queued[task];
        self.queued.set(task, true);
        won
    }

    /// Clears the queued flag of `task`, which has been popped.
    pub(crate) fn clear(&mut self, task: usize)
        requires
            old(self)@.wf(),
            old(self)@.has_task(task),
            !old(self)@.queue.contains(task),
        ensures
            final(self)@ == old(self)@.cleared(task),
            final(self)@.wf(),
    {
        proof {
            self@.lemma_cleared(task);
        }
        self.queued.set(task, false);
    }

    /// Creates a wake-handle allocation for `task` with one reference and
    /// returns its slot. A freed slot is used again before the table grows.
    pub(crate) fn allocate(&mut self, task: usize) -> (slot: usize)
        requires
            old(self)@.wf(),
            old(self)@.has_task(task),
        ensures
            slot == old(self)@.fresh_slot(),
            final(self)@ == old(self)@.allocated(task),
            final(self)@.wf(),
            old(self)@.settled() ==> old(self)@.evolves(final(self)@),
            final(self)@.live(Some(slot)),
            final(self)@.refs(Some(slot)) == 1,
            final(self)@.target(Some(slot)) == task,
    {
        let data = WakerData { task, refs: 1 };
        let ghost before = self@;
        match self.free.pop() {
            Some(slot) => {
                proof {
                    before.lemma_allocated(task);
                }
                self.wakers.set(slot, data);
                slot
            },
            None => {
                let slot = self.wakers.len();
                self.wakers.push(data);
                proof {
                    assert(self.wakers.len() == slot + 1);
                    before.lemma_allocated(task);
                }
                slot
            },
        }
    }

    /// The task of the allocation behind the handle, or `None` when the handle
    /// is empty or its allocation has been freed.
    pub(crate) fn target(&self, handle: Option<usize>) -> (task: Option<usize>)
        requires
            self@.wf(),
        ensures
            self@.live(handle) ==> task == Some(self@.target(handle)) && self@.has_task(
                self@.target(handle),
            ),
            !self@.live(handle) ==> task is None,
    {
        match handle {
            Some(slot) => {
                if slot < self.wakers.len() && self.wakers[slot].refs > 0 {
                    Some(self.wakers[slot].task)
                } else {
                    None
                }
            },
            None => None,
        }
    }

    /// Adds one reference to the allocation behind the handle.
    pub(crate) fn retain(&mut self, handle: Option<usize>)
        requires
            old(self)@.wf(),
        ensures
            final(self)@ == old(self)@.retained(handle),
            final(self)@.wf(),
            old(self)@.settled() ==> old(self)@.evolves(final(self)@),
    {
        match handle {
            Some(slot) => {
                if slot < self.wakers.len() {
                    let data = self.wakers[slot];
                    if data.refs > 0 && data.refs < usize::MAX {
                        self.wakers.set(slot, WakerData { task: data.task, refs: data.refs + 1 });
                    }
                }
            },
            None => {},
        }
    }

    /// Removes one reference from the allocation behind the handle and frees
    /// the allocation when that was the last one.
    pub(crate) fn release(&mut self, handle: Option<usize>)
        requires
            old(self)@.wf(),
        ensures
            final(self)@ == old(self)@.released(handle),
            final(self)@.wf(),
            old(self)@.settled() ==> old(self)@.evolves(final(self)@),
    {
        proof {
            self@.lemma_released(handle);
        }
        match handle {
            Some(slot) => {
                if slot < self.wakers.len() {
                    let data = self.wakers[slot];
                    if data.refs > 0 && data.refs < usize::MAX {
                        let left = data.refs - 1;
                        self.wakers.set(slot, WakerData { task: data.task, refs: left });
                        if left == 0 {
                            self.free.push(slot);
                        }
                    }
                }
            },
            None => {},
        }
    }

    /// Makes the task behind the handle runnable: if the handle is live and
    /// `mark` succeeds, the task is pushed.
    pub(crate) fn wake(&mut self, handle: Option<usize>)
        requires
            old(self)@.wf(),
            old(self)@.settled(),
        ensures
            final(self)@ == old(self)@.woken(handle),
            old(self)@.evolves(final(self)@),
    {
        proof {
            self@.lemma_woken(handle);
        }
        match self.target(handle) {
            Some(task) => {
                let ghost before = self@;
                if self.mark(task) {
                    self.add_task(task);
                } else {
                    assert(self@.queued =~= before.queued);
                }
            },
            None => {},
        }
    }

    /// Number of references to the allocation behind the handle; zero when
    /// the handle is empty or its allocation has been freed.
    pub(crate) fn refs(&self, handle: Option<usize>) -> (refs: usize)
        ensures
            refs == self@.refs(handle),
    {
        match handle {
            Some(slot) => {
                if slot < self.wakers.len() {
                    self.wakers[slot].refs
                } else {
                    0
                }
            },
            None => 0,
        }
    }

    /// Number of wake-handle allocations that have not been freed.
    pub fn live_wakers(&self) -> (count: usize)
        requires
            self@.wf(),
        ensures
            count == self@.live_slots().len(),
    {
        let slots = self.wakers.len();
        let freed = self.free.len();
        proof {
            self@.lemma_live_slots();
        }
        slots - freed
    }

    /// Number of tasks counted as alive.
    pub fn alive(&self) -> (alive: usize)
        ensures
            alive == self@.alive,
    {
        self.alive
    }

    /// Number of entries in the ready-queue.
    pub fn len(&self) -> (len: usize)
        ensures
            len == self@.queue.len(),
    {
        self.queue.len()
    }

    /// Number of registered tasks.
    pub fn task_count(&self) -> (count: usize)
        ensures
            count == self@.queued.len(),
    {
        self.queued.len()
    }

    /// Whether the queued flag of `task` is set.
    pub fn is_queued(&self, task: usize) -> (queued: bool)
        ensures
            queued == self@.is_queued(task),
    {
        task < self.queued.len() && self.queued[task]
    }

    /// The time in milliseconds that the scheduler was last told.
    pub fn now(&self) -> (now: u64)
        ensures
            now == self@.now,
    {
        self.now
    }

    /// Tells the scheduler the time in milliseconds.
    pub fn set_now(&mut self, now: u64)
        ensures
            final(self)@ == old(self)@.at(now),
    {
        self.now = now;
    }
}

/// Sum of `weight` over `tasks`.
pub open spec fn sum_over<C: Computation>(
    tasks: Seq<Task<C>>,
    weight: spec_fn(Task<C>) -> nat,
) -> nat
    decreases tasks.len(),
{
    if tasks.len() == 0 {
        0
    } else {
        sum_over(tasks.drop_last(), weight) + weight(tasks.last())
    }
}

/// One for a task whose computation is still there, zero for a finished one.
pub open spec fn live_weight<C: Computation>() -> spec_fn(Task<C>) -> nat {
    |task: Task<C>|
        if task.is_finished() {
            0nat
        } else {
            1nat
        }
}

/// The budget of a task.
pub open spec fn budget_weight<C: Computation>() -> spec_fn(Task<C>) -> nat {
    |task: Task<C>| task.budget()
}

/// Number of tasks whose computation has not reported `Ready`.
pub open spec fn live_count<C: Computation>(tasks: Seq<Task<C>>) -> nat {
    sum_over(tasks, live_weight())
}

/// Sum of the budgets of all tasks.
pub open spec fn total_budget<C: Computation>(tasks: Seq<Task<C>>) -> nat {
    sum_over(tasks, budget_weight())
}

/// Appending a task adds its weight.
proof fn lemma_sum_push<C: Computation>(
    tasks: Seq<Task<C>>,
    task: Task<C>,
    weight: spec_fn(Task<C>) -> nat,
)
    ensures
        sum_over(tasks.push(task), weight) == sum_over(tasks, weight) + weight(task),
{
    assert(tasks.push(task).drop_last() =~= tasks);
}

/// Replacing a task replaces its weight.
proof fn lemma_sum_update<C: Computation>(
    tasks: Seq<Task<C>>,
    i: int,
    task: Task<C>,
    weight: spec_fn(Task<C>) -> nat,
)
    requires
        0 <= i < tasks.len(),
    ensures
        sum_over(tasks.update(i, task), weight) + weight(tasks[i]) == sum_over(tasks, weight)
            + weight(task),
    decreases tasks.len(),
{
    if i == tasks.len() - 1 {
        assert(tasks.update(i, task).drop_last() =~= tasks.drop_last());
    } else {
        lemma_sum_update(tasks.drop_last(), i, task, weight);
        assert(tasks.update(i, task).drop_last() =~= tasks.drop_last().update(i, task));
    }
}

/// There are no more live tasks than tasks.
proof fn lemma_live_count_bound<C: Computation>(tasks: Seq<Task<C>>)
    ensures
        live_count(tasks) <= tasks.len(),
    decreases tasks.len(),
{
    if tasks.len() > 0 {
        lemma_live_count_bound(tasks.drop_last());
    }
}

/// No task is live exactly when every task has finished.
proof fn lemma_live_count_zero<C: Computation>(tasks: Seq<Task<C>>)
    ensures
        live_count(tasks) == 0 <==> forall|t: int|
            0 <= t < tasks.len() ==> (#[trigger] tasks[t]).is_finished(),
    decreases tasks.len(),
{
    if tasks.len() > 0 {
        let earlier = tasks.drop_last();
        lemma_live_count_zero(earlier);
        if live_count(tasks) == 0 {
            assert forall|t: int| 0 <= t < tasks.len() implies (#[trigger] tasks[t]).is_finished()
            by {
                if t < earlier.len() {
                    assert(earlier[t] == tasks[t]);
                }
            }
        }
    }
}

/// What is left to do for whoever runs an executor to completion.
#[derive(Clone, Copy, Debug, PartialEq, Eq, Structural)]
pub enum Next {
    /// Tasks are alive but none is runnable: wait for a wake-up from
    /// outside, then drive again.
    Wait,
    /// Every task has finished.
    Stop,
}

/// Owns the shared state and the tasks, and runs them.
pub struct Executor<C> {
    state: SharedState,
    tasks: Vec<Task<C>>,
    log: Ghost<Seq<usize>>,
}

impl<C: Computation> Executor<C> {
    /// What the shared state holds.
    pub closed spec fn state(&self) -> SchedState {
        self.state@
    }

    /// The tasks, by id.
    pub closed spec fn tasks(&self) -> Seq<Task<C>> {
        self.tasks@
    }

    /// The tasks that the run loop has taken off the queue and resumed so
    /// far, in that order.
    pub closed spec fn resumed(&self) -> Seq<usize> {
        self.log@
    }

    /// The shared state is in order and settled, every registered task is
    /// here under its id, the alive count is the number of tasks that have
    /// not finished, and every unfinished task with a countdown is queued.
    pub open spec fn wf(&self) -> bool {
        &&& self.state().wf()
        &&& self.state().settled()
        &&& self.tasks().len() == self.state().queued.len()
        &&& self.tasks().len() <= usize::MAX
        &&& forall|t: int| 0 <= t < self.tasks().len() ==> (#[trigger] self.tasks()[t]).id() == t
        &&& self.state().alive == live_count(self.tasks())
        &&& forall|t: int|
            0 <= t < self.tasks().len() && !(#[trigger] self.tasks()[t]).is_finished()
                && self.tasks()[t].countdown() is Some ==> self.state().queue.contains(t as usize)
    }

    /// What one turn of the run loop does, seen from outside: the front task
    /// `task` left the queue and was resumed with the result `poll`; the
    /// other tasks are as they were and keep their place in line; whatever
    /// was enqueued came out of the task's budget. A task that had finished
    /// before reports `Ready` again, and nothing else happens.
    pub open spec fn turned(&self, next: &Executor<C>, task: usize, poll: Completion) -> bool {
        let before = self.tasks()[task as int];
        let after = next.tasks()[task as int];
        &&& self.state().queue.len() > 0
        &&& task == self.state().queue[0]
        &&& self.state().queue.drop_first().is_prefix_of(next.state().queue)
        &&& next.resumed() == self.resumed().push(task)
        &&& next.state().now == self.state().now
        &&& next.tasks().len() == self.tasks().len()
        &&& forall|t: int|
            0 <= t < self.tasks().len() && t != task ==> #[trigger] next.tasks()[t]
                == self.tasks()[t]
        &&& forall|other: usize|
            other != task && self.state().queue.contains(other)
                ==> #[trigger] next.state().queue.contains(other)
        &&& after.is_finished() <==> poll is Ready
        &&& before.is_finished() ==> {
            &&& poll is Ready
            &&& after.polls() == before.polls()
            &&& next.state().queue == self.state().queue.drop_first()
        }
        &&& !before.is_finished() ==> after.polls() == before.polls() + 1
        &&& before.countdown() matches Some(left) ==> {
            &&& poll is Ready <==> left == 0
            &&& poll is Pending ==> after.countdown() == Some((left - 1) as nat)
                && next.state().queue.contains(task)
        }
        &&& total_budget(next.tasks()) + next.state().queue.len() < total_budget(self.tasks())
            + self.state().queue.len()
    }

    /// How a task can differ between two instants of a run: its computation
    /// is resumed, never un-resumed; once finished it stays finished and is
    /// not resumed again; it does not finish without having been resumed; and
    /// if it has a countdown, every resumption takes one step off it until
    /// the last one finishes the task.
    pub open spec fn progress(before: Task<C>, after: Task<C>) -> bool {
        &&& after.polls() >= before.polls()
        &&& before.is_finished() ==> after.is_finished() && after.polls() == before.polls()
        &&& !before.is_finished() && after.is_finished() ==> after.polls() > before.polls()
        &&& !before.is_finished() && before.countdown() is Some ==> if after.is_finished() {
            after.polls() == before.polls() + before.countdown()->0 + 1
        } else {
            &&& after.countdown() is Some
            &&& after.countdown()->0 <= before.countdown()->0
            &&& after.polls() + after.countdown()->0 == before.polls() + before.countdown()->0
        }
    }

    /// What holds between the start of `run` and any later turn of its loop:
    /// what was queued at the start has been resumed, in queue order, or is
    /// still in line in that order, and every task has made `progress`.
    pub open spec fn running(&self, next: &Executor<C>) -> bool {
        &&& (self.resumed() + self.state().queue).is_prefix_of(
            next.resumed() + next.state().queue,
        )
        &&& next.state().now == self.state().now
        &&& next.tasks().len() == self.tasks().len()
        &&& forall|t: int|
            0 <= t < self.tasks().len() ==> {
                let before = self.tasks()[t];
                let after = #[trigger] next.tasks()[t];
                &&& Self::progress(before, after)
                &&& !before.is_finished() && self.state().is_queued(t as usize)
                    ==> next.state().queue.contains(t as usize) || after.polls() > before.polls()
            }
    }

    /// Every task has finished.
    pub open spec fn all_finished(&self) -> bool {
        forall|t: int| 0 <= t < self.tasks().len() ==> (#[trigger] self.tasks()[t]).is_finished()
    }

    /// What `run` does, seen from outside: the queue is empty; the tasks that
    /// were queued have been resumed first, in queue order, and after them
    /// whatever was enqueued meanwhile; every unfinished task that was queued
    /// has been resumed at least once; a task with a countdown of `left` has
    /// been resumed exactly `left + 1` times and has finished; a finished
    /// task stays finished and its computation is not resumed again.
    pub open spec fn drained(&self, next: &Executor<C>) -> bool {
        &&& next.state().queue.len() == 0
        &&& (self.resumed() + self.state().queue).is_prefix_of(next.resumed())
        &&& next.state().now == self.state().now
        &&& next.tasks().len() == self.tasks().len()
        &&& forall|t: int|
            0 <= t < self.tasks().len() ==> {
                let before = self.tasks()[t];
                let after = #[trigger] next.tasks()[t];
                &&& Self::progress(before, after)
                &&& !before.is_finished() && self.state().is_queued(t as usize) ==> after.polls()
                    > before.polls()
                &&& !before.is_finished() && before.countdown() is Some ==> after.is_finished()
            }
    }

    /// What `drive` does before it runs the queue: the clock is set to `now`
    /// and the wake-up behind `handle` is delivered.
    pub open spec fn delivered(&self, next: &Executor<C>, now: u64, handle: Option<usize>) -> bool {
        &&& next.state() == self.state().at(now).woken(handle).released(handle)
        &&& next.tasks() == self.tasks()
        &&& next.resumed() == self.resumed()
    }

    /// Run to completion: the alive count is zero exactly when every task
    /// has finished, so whoever keeps calling `run` until `alive` reports
    /// zero returns only after the last task has reported `Ready`.
    pub proof fn lemma_alive_counts_unfinished(&self)
        requires
            self.wf(),
        ensures
            self.state().alive == 0 <==> self.all_finished(),
    {
        lemma_live_count_zero(self.tasks());
    }

    /// No lost wake-up: when a live wake handle of an unfinished task is
    /// invoked, consumed or by reference, the next `run` resumes the task at
    /// least once more before it returns.
    pub proof fn lemma_no_lost_wakeup(
        before: &Executor<C>,
        woken: &Executor<C>,
        after: &Executor<C>,
        handle: Option<usize>,
    )
        requires
            before.wf(),
            before.state().live(handle),
            !before.tasks()[before.state().target(handle) as int].is_finished(),
            woken.tasks() == before.tasks(),
            woken.state() == before.state().woken(handle) || woken.state()
                == before.state().woken(handle).released(handle),
            woken.drained(after),
        ensures
            before.state().target(handle) < before.tasks().len(),
            after.tasks()[before.state().target(handle) as int].polls()
                > before.tasks()[before.state().target(handle) as int].polls(),
    {
    }

    /// An executor with no task.
    pub fn new() -> (executor: Executor<C>)
        ensures
            executor.wf(),
            executor.state() == SchedState::empty(),
            executor.tasks().len() == 0,
            executor.resumed().len() == 0,
    {
        Executor { state: SharedState::new(), tasks: Vec::new(), log: Ghost(Seq::empty()) }
    }

    /// Wraps `future` in a task, marks it queued, pushes it and counts it as
    /// alive. The task's id is the number of tasks spawned before it.
    pub fn spawn(&mut self, future: C)
        requires
            old(self).wf(),
        ensures
            final(self).wf(),
            final(self).state() == old(self).state().registered().enqueued(
                old(self).tasks().len() as usize,
            ).more_alive(1),
            final(self).tasks().len() == old(self).tasks().len() + 1,
            forall|t: int|
                0 <= t < old(self).tasks().len() ==> #[trigger] final(self).tasks()[t] == old(
                    self,
                ).tasks()[t],
            final(self).tasks()[old(self).tasks().len() as int].computation() == Some(future),
            final(self).tasks()[old(self).tasks().len() as int].polls() == 0,
            final(self).resumed() == old(self).resumed(),
    {
        let ghost before = self.state@;
        let ghost tasks = self.tasks@;
        let task = Task::spawn(future, &mut self.state);
        let id = task.task_id();
        proof {
            before.registered().lemma_enqueued(id);
            lemma_live_count_bound(tasks);
            lemma_sum_push(tasks, task, live_weight());
            let queued = before.registered().enqueued(id);
            assert forall|other: usize| before.queue.contains(other) implies #[trigger]
                queued.queue.contains(other) by {
                before.registered().lemma_evolves_contains(queued, other);
            }
        }
        if task.mark_queued(&mut self.state) {
            self.state.add_task(id);
            self.state.add_alive(1);
        }
        self.tasks.push(task);
    }

    /// One turn of the run loop: pops the front task, clears its queued
    /// flag, resumes it with a wake handle of its own, and counts it as no
    /// longer alive if this resumption finished it. Returns the task and what
    /// it reported, or `None` when the queue is empty.
    pub fn turn(&mut self) -> (resumed: Option<(usize, Completion)>)
        requires
            old(self).wf(),
        ensures
            final(self).wf(),
            match resumed {
                Some((task, poll)) => old(self).turned(final(self), task, poll),
                None => {
                    &&& old(self).state().queue.len() == 0
                    &&& final(self).state() == old(self).state()
                    &&& final(self).tasks() == old(self).tasks()
                    &&& final(self).resumed() == old(self).resumed()
                },
            },
    {
        let ghost before = self.state@;
        let ghost tasks = self.tasks@;
        let id = match self.state.pop() {
            Some(id) => id,
            None => {
                return None;
            },
        };
        proof {
            before.lemma_popped();
        }
        self.tasks[id].clear_queued(&mut self.state);
        let waker = task_waker(&self.tasks[id], &mut self.state);
        let was_live = !self.tasks[id].finished();
        let mut cx = Context::from_waker(&waker, &mut self.state);
        let poll = self.tasks[id].poll(&mut cx);
        drop_waker(waker, &mut self.state);
        proof {
            lemma_sum_update(tasks, id as int, self.tasks@[id as int], live_weight());
            lemma_sum_update(tasks, id as int, self.tasks@[id as int], budget_weight());
        }
        if was_live && poll == Completion::Ready {
            self.state.sub_alive();
        }
        self.log = Ghost(self.log@.push(id));
        Some((id, poll))
    }

    /// Resumes tasks from the front of the queue until the queue is empty.
    /// Every task that was queued is resumed at least once; a task that is
    /// woken while the loop runs is resumed again before the loop returns.
    pub fn run(&mut self)
        requires
            old(self).wf(),
        ensures
            final(self).wf(),
            old(self).drained(final(self)),
    {
        loop
            invariant
                self.wf(),
                old(self).running(self),
            ensures
                self.state().queue.len() == 0,
            decreases total_budget(self.tasks()) + self.state().queue.len(),
        {
            let ghost mid = *self;
            match self.turn() {
                None => {
                    break ;
                },
                Some(_) => {
                    proof {
                        let taken = mid.resumed() + mid.state().queue;
                        let given = self.resumed() + self.state().queue;
                        assert forall|i: int| 0 <= i < taken.len() implies taken[i] == given[i] by {
                            let ahead = i - mid.resumed().len() - 1;
                            if ahead >= 0 {
                                assert(mid.state().queue.drop_first()[ahead]
                                    == self.state().queue[ahead]);
                            }
                        }
                    }
                },
            }
        }
        assert(self.resumed() + self.state().queue =~= self.resumed());
    }

    /// One round of running to completion: sets the clock to `now`, delivers
    /// the wake-up that arrived from outside, if one did, and runs the queue
    /// until it is empty. The answer is `Stop` exactly when every task has
    /// finished; with `Wait`, only a wake-up from outside can make a task
    /// runnable again.
    pub fn drive(&mut self, now: u64, wake: Option<Waker>) -> (next: Next)
        requires
            old(self).wf(),
        ensures
            final(self).wf(),
            exists|mid: Executor<C>|
                {
                    &&& old(self).delivered(&mid, now, Waker::slot_of(wake))
                    &&& mid.wf()
                    &&& #[trigger] mid.drained(final(self))
                },
            next is Stop <==> final(self).all_finished(),
    {
        self.set_now(now);
        match wake {
            Some(waker) => {
                self.wake(waker);
            },
            None => {},
        }
        self.run();
        proof {
            self.lemma_alive_counts_unfinished();
        }
        if self.alive() == 0 {
            Next::Stop
        } else {
            Next::Wait
        }
    }

    /// Wakes the task of `waker` and gives the handle's reference back. This
    /// is how a wake-up that comes from outside a resumption, such as a timer
    /// that ran out, reaches the queue.
    pub fn wake(&mut self, waker: Waker)
        requires
            old(self).wf(),
        ensures
            final(self).wf(),
            final(self).state() == old(self).state().woken(waker.slot()).released(waker.slot()),
            final(self).tasks() == old(self).tasks(),
            final(self).resumed() == old(self).resumed(),
    {
        wake_waker(waker, &mut self.state);
    }

    /// Wakes the task of `waker` and leaves the handle with the caller.
    pub fn wake_by_ref(&mut self, waker: &Waker)
        requires
            old(self).wf(),
        ensures
            final(self).wf(),
            final(self).state() == old(self).state().woken(waker.slot()),
            final(self).tasks() == old(self).tasks(),
            final(self).resumed() == old(self).resumed(),
    {
        wake_by_ref_waker(waker, &mut self.state);
    }

    /// Returns a counted copy of `waker`.
    pub fn clone_waker(&mut self, waker: &Waker) -> (copy: Waker)
        requires
            old(self).wf(),
        ensures
            final(self).wf(),
            copy.slot() == waker.slot(),
            final(self).state() == old(self).state().retained(waker.slot()),
            final(self).tasks() == old(self).tasks(),
            final(self).resumed() == old(self).resumed(),
    {
        clone_waker(waker, &mut self.state)
    }

    /// Gives the reference of `waker` back.
    pub fn drop_waker(&mut self, waker: Waker)
        requires
            old(self).wf(),
        ensures
            final(self).wf(),
            final(self).state() == old(self).state().released(waker.slot()),
            final(self).tasks() == old(self).tasks(),
            final(self).resumed() == old(self).resumed(),
    {
        drop_waker(waker, &mut self.state);
    }

    /// Tells the executor the time in milliseconds.
    pub fn set_now(&mut self, now: u64)
        requires
            old(self).wf(),
        ensures
            final(self).wf(),
            final(self).state() == old(self).state().at(now),
            final(self).tasks() == old(self).tasks(),
            final(self).resumed() == old(self).resumed(),
    {
        self.state.set_now(now);
    }

    /// Number of tasks that have not finished.
    pub fn alive(&self) -> (alive: usize)
        requires
            self.wf(),
        ensures
            alive == live_count(self.tasks()),
    {
        self.state.alive()
    }

    /// Number of entries in the ready-queue.
    pub fn queue_len(&self) -> (len: usize)
        ensures
            len == self.state().queue.len(),
    {
        self.state.len()
    }

    /// Number of tasks spawned so far.
    pub fn task_count(&self) -> (count: usize)
        ensures
            count == self.tasks().len(),
    {
        self.tasks.len()
    }

    /// Whether `task` has finished; `false` for an id that no task has.
    pub fn is_finished(&self, task: usize) -> (done: bool)
        ensures
            done == (task < self.tasks().len() && self.tasks()[task as int].is_finished()),
    {
        task < self.tasks.len() && self.tasks[task].finished()
    }

    /// Number of wake-handle allocations that have not been freed.
    pub fn live_wakers(&self) -> (count: usize)
        requires
            self.wf(),
        ensures
            count == self.state().live_slots().len(),
    {
        self.state.live_wakers()
    }
}

} // verus!
