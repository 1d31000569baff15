//! Computations and the tasks that wrap them.

use vstd::prelude::*;
use crate::executor::SharedState;
use crate::waker::Context;

verus! {

/// What a resumption reports: the computation is done, or it has suspended.
#[derive(Clone, Copy, Debug, PartialEq, Eq, Structural)]
pub enum Completion {
    Ready,
    Pending,
}

/// A computation that advances one step each time it is resumed.
///
/// A computation that suspends keeps a copy of the context's wake handle
/// wherever its wake-up will come from. While it is being resumed it may wake
/// handles and clone or drop them; it may not touch the scheduler in any other
/// way, and it leaves the context pointing at the same handle and the same
/// queue. Every queue entry that it causes while it is being resumed comes out
/// of its `budget`, which is what makes the run loop end.
pub trait Computation {
    /// An upper bound on the number of queue entries that this computation
    /// will still cause while it is being resumed. Zero unless the
    /// computation says otherwise: one that only stores wake handles for
    /// others to invoke needs no budget.
    open spec fn budget(&self) -> nat {
        0
    }

    /// `Some(n)` for a computation that promises to suspend exactly `n` more
    /// times, waking the context's handle each time, and to report `Ready`
    /// on the resumption after those; `None` for one that promises nothing
    /// of the kind. The promise is made from the start or not at all.
    open spec fn countdown(&self) -> Option<nat> {
        None
    }

    /// Advances the computation by one step and reports whether it is done.
    fn poll(&mut self, cx: &mut Context<'_>) -> (poll: Completion)
        requires
            old(cx).wf(),
        ensures
            old(cx)@.evolves(final(cx)@),
            final(cx).waker == old(cx).waker,
            *final(final(cx).queue) == *final(old(cx).queue),
            final(cx)@.queue.len() + final(self).budget() <= old(cx)@.queue.len() + old(
                self,
            ).budget(),
            old(self).countdown() is None ==> final(self).countdown() is None,
            old(self).countdown() matches Some(left) ==> {
                &&& poll is Ready <==> left == 0
                &&& poll is Pending ==> final(self).countdown() == Some((left - 1) as nat)
                &&& poll is Pending && old(cx)@.live(old(cx).waker.slot())
                    ==> final(cx)@.queue.contains(old(cx)@.target(old(cx).waker.slot()))
            },
    ;
}

/// A boxed computation of any kind is a computation, so that one executor
/// can hold computations of different types.
impl Computation for Box<dyn Computation> {
    open spec fn budget(&self) -> nat {
        (**self).budget()
    }

    open spec fn countdown(&self) -> Option<nat> {
        (**self).countdown()
    }

    fn poll(&mut self, cx: &mut Context<'_>) -> (poll: Completion) {
        (**self).poll(cx)
    }
}

/// One computation with its bookkeeping: the task's id, under which the
/// shared state keeps its queued flag, and the slot that holds the
/// computation until it reports `Ready`.
pub struct Task<C> {
    id: usize,
    future: Option<C>,
    polls: Ghost<nat>,
}

impl<C: Computation> Task<C> {
    /// The task's id.
    pub closed spec fn id(&self) -> usize {
        self.id
    }

    /// The computation, until it has reported `Ready`.
    pub closed spec fn computation(&self) -> Option<C> {
        self.future
    }

    /// How often the task's computation has been resumed.
    pub closed spec fn polls(&self) -> nat {
        self.polls@
    }

    /// The computation has reported `Ready` and is gone.
    pub open spec fn is_finished(&self) -> bool {
        self.computation() is None
    }

    /// The budget of the task's computation; zero once it is gone.
    pub open spec fn budget(&self) -> nat {
        match self.computation() {
            Some(future) => future.budget(),
            None => 0,
        }
    }

    /// The countdown of the task's computation; `None` once it is gone.
    pub open spec fn countdown(&self) -> Option<nat> {
        match self.computation() {
            Some(future) => future.countdown(),
            None => None,
        }
    }

    /// Wraps `future` in a new task, registered with `queue` under the next
    /// free id, not queued and never resumed.
    pub fn spawn(future: C, queue: &mut SharedState) -> (task: Task<C>)
        requires
            old(queue)@.wf(),
        ensures
            task.id() == old(queue)@.queued.len(),
            task.id() < usize::MAX,
            task.computation() == Some(future),
            task.polls() == 0,
            final(queue)@ == old(queue)@.registered(),
            final(queue)@.wf(),
            old(queue)@.settled() ==> final(queue)@.settled(),
    {
        let id = queue.register();
        Task { id, future: Some(future), polls: Ghost(0) }
    }

    /// Sets the task's queued flag if it is clear, and says whether it did:
    /// `true` makes the caller the one who pushes the task.
    pub fn mark_queued(&self, queue: &mut SharedState) -> (won: bool)
        requires
            old(queue)@.wf(),
            old(queue)@.has_task(self.id()),
        ensures
            won == !old(queue)@.is_queued(self.id()),
            final(queue)@ == old(queue)@.marked(self.id()),
            final(queue)@.wf(),
    {
        queue.mark(self.id)
    }

    /// Clears the task's queued flag. The run loop does so right after it has
    /// popped the task, so that a wake during the resumption is not lost.
    pub fn clear_queued(&self, queue: &mut SharedState)
        requires
            old(queue)@.wf(),
            old(queue)@.has_task(self.id()),
            !old(queue)@.queue.contains(self.id()),
        ensures
            final(queue)@ == old(queue)@.cleared(self.id()),
            final(queue)@.wf(),
    {
        queue.clear(self.id);
    }

    /// Resumes the task. A finished task reports `Ready` and nothing happens;
    /// otherwise the computation is resumed, and dropped if it reports
    /// `Ready`.
    pub fn poll(&mut self, cx: &mut Context<'_>) -> (poll: Completion)
        requires
            old(cx).wf(),
        ensures
            final(self).id() == old(self).id(),
            final(self).is_finished() <==> poll is Ready,
            old(self).is_finished() ==> {
                &&& poll is Ready
                &&& final(self).polls() == old(self).polls()
                &&& final(cx)@ == old(cx)@
            },
            !old(self).is_finished() ==> final(self).polls() == old(self).polls() + 1,
            old(cx)@.evolves(final(cx)@),
            final(cx).waker == old(cx).waker,
            *final(final(cx).queue) == *final(old(cx).queue),
            final(cx)@.queue.len() + final(self).budget() <= old(cx)@.queue.len() + old(
                self,
            ).budget(),
            old(self).countdown() is None ==> final(self).countdown() is None,
            old(self).countdown() matches Some(left) ==> {
                &&& poll is Ready <==> left == 0
                &&& poll is Pending ==> final(self).countdown() == Some((left - 1) as nat)
                &&& poll is Pending && old(cx)@.live(old(cx).waker.slot())
                    ==> final(cx)@.queue.contains(old(cx)@.target(old(cx).waker.slot()))
            },
    {
        match &mut self.future {
            None => Completion::Ready,
            Some(future) => {
                let poll = future.poll(cx);
                self.polls = Ghost(self.polls@ + 1);
                self.settle(poll)
            },
        }
    }

    /// Records what a resumption reported: on `Ready` the computation is
    /// dropped, on `Pending` it stays.
    pub fn settle(&mut self, poll: Completion) -> (same: Completion)
        ensures
            same == poll,
            final(self).id() == old(self).id(),
            final(self).polls() == old(self).polls(),
            poll is Ready ==> final(self).is_finished(),
            poll is Pending ==> *final(self) == *old(self),
            final(self).budget() <= old(self).budget(),
    {
        match poll {
            Completion::Ready => {
                self.future = None;
            },
            Completion::Pending => {},
        }
        poll
    }

    /// The task's id.
    pub fn task_id(&self) -> (id: usize)
        ensures
            id == self.id(),
    {
        self.id
    }

    /// Whether the computation has reported `Ready` and is gone.
    pub fn finished(&self) -> (done: bool)
        ensures
            done == self.is_finished(),
    {
        self.future.is_none()
    }
}

} // verus!
