//! Wake handles and the per-resumption context.
//!
//! A wake handle is one counted reference to an allocation that names a
//! task. The count is kept by hand: `task_waker` creates the allocation with
//! one reference, `clone_waker` adds one, `drop_waker` and `wake_waker` give
//! one back, and `wake_by_ref_waker` leaves the count alone. The allocation
//! is freed when the count reaches zero.

use vstd::prelude::*;
use crate::executor::SharedState;
use crate::task::{Computation, Task};

verus! {

/// One wake-handle allocation: the task it re-enqueues, and how many handles
/// still refer to it. The allocation is free exactly when `refs` is zero.
#[derive(Clone, Copy, Debug)]
pub struct WakerData {
    pub task: usize,
    pub refs: usize,
}

/// A wake handle. It is neither `Clone` nor `Copy`: every handle is one
/// reference of its allocation, made by `task_waker` or `clone_waker` and
/// given back by `wake_waker` or `drop_waker`.
#[derive(Debug)]
pub struct Waker {
    slot: Option<usize>,
}

impl Waker {
    /// The slot of the allocation that the handle refers to; `None` for a
    /// handle that wakes nothing.
    pub closed spec fn slot(&self) -> Option<usize> {
        self.slot
    }

    /// The slot behind a handle that may be missing.
    pub open spec fn slot_of(waker: Option<Waker>) -> Option<usize> {
        match waker {
            Some(waker) => waker.slot(),
            None => None,
        }
    }

    /// Whether this is a handle that wakes nothing.
    pub fn is_noop(&self) -> (noop: bool)
        ensures
            noop == (self.slot() is None),
    {
        self.slot.is_none()
    }
}

/// A handle that refers to no allocation: waking it does nothing, and it
/// holds no reference.
pub fn noop_waker() -> (waker: Waker)
    ensures
        waker.slot() is None,
{
    Waker { slot: None }
}

/// Creates a wake handle for `task` on `queue`, in a new allocation of its
/// own with one reference.
pub fn task_waker<C: Computation>(task: &Task<C>, queue: &mut SharedState) -> (waker: Waker)
    requires
        old(queue)@.wf(),
        old(queue)@.has_task(task.id()),
    ensures
        waker.slot() == Some(old(queue)@.fresh_slot()),
        final(queue)@ == old(queue)@.allocated(task.id()),
        final(queue)@.wf(),
        old(queue)@.settled() ==> old(queue)@.evolves(final(queue)@),
        final(queue)@.live(waker.slot()),
        final(queue)@.refs(waker.slot()) == 1,
        final(queue)@.target(waker.slot()) == task.id(),
{
    let slot = queue.allocate(task.task_id());
    Waker { slot: Some(slot) }
}

/// Returns a second handle to the allocation of `waker` and counts it.
pub fn clone_waker(waker: &Waker, queue: &mut SharedState) -> (copy: Waker)
    requires
        old(queue)@.wf(),
    ensures
        copy.slot() == waker.slot(),
        final(queue)@ == old(queue)@.retained(waker.slot()),
        final(queue)@.wf(),
        old(queue)@.settled() ==> old(queue)@.evolves(final(queue)@),
{
    queue.retain(waker.slot);
    Waker { slot: waker.slot }
}

/// Wakes the task of `waker` and gives the handle's reference back: the task
/// is pushed if its queued flag was clear, then the count goes down by one.
pub fn wake_waker(waker: Waker, queue: &mut SharedState)
    requires
        old(queue)@.wf(),
        old(queue)@.settled(),
    ensures
        final(queue)@ == old(queue)@.woken(waker.slot()).released(waker.slot()),
        old(queue)@.evolves(final(queue)@),
{
    proof {
        queue@.lemma_woken(waker.slot());
    }
    queue.wake(waker.slot);
    queue.release(waker.slot);
}

/// Wakes the task of `waker` and leaves the reference count as it is.
pub fn wake_by_ref_waker(waker: &Waker, queue: &mut SharedState)
    requires
        old(queue)@.wf(),
        old(queue)@.settled(),
    ensures
        final(queue)@ == old(queue)@.woken(waker.slot()),
        old(queue)@.evolves(final(queue)@),
{
    queue.wake(waker.slot);
}

/// Gives the handle's reference back; the allocation is freed when it was the
/// last one.
pub fn drop_waker(waker: Waker, queue: &mut SharedState)
    requires
        old(queue)@.wf(),
    ensures
        final(queue)@ == old(queue)@.released(waker.slot()),
        final(queue)@.wf(),
        old(queue)@.settled() ==> old(queue)@.evolves(final(queue)@),
{
    queue.release(waker.slot);
}

/// Number of handles that refer to the allocation of `waker`; zero for a
/// handle that wakes nothing, and once the allocation has been freed.
pub fn ref_count(waker: &Waker, queue: &SharedState) -> (refs: usize)
    ensures
        refs == queue@.refs(waker.slot()),
{
    queue.refs(waker.slot)
}

/// What a computation is handed when it is resumed: the wake handle of this
/// resumption, and the queue that the handle wakes into.
pub struct Context<'a> {
    pub waker: &'a Waker,
    pub queue: &'a mut SharedState,
}

impl<'a> View for Context<'a> {
    type V = crate::model::SchedState;

    open spec fn view(&self) -> crate::model::SchedState {
        self.queue@
    }
}

impl<'a> Context<'a> {
    /// The queue behind the context is in order and no enqueue is half done.
    pub open spec fn wf(&self) -> bool {
        self@.wf() && self@.settled()
    }

    /// A context for one resumption with `waker` on `queue`.
    pub fn from_waker(waker: &'a Waker, queue: &'a mut SharedState) -> (cx: Context<'a>)
        ensures
            cx@ == old(queue)@,
            cx.waker == waker,
            *final(cx.queue) == *final(queue),
    {
        Context { waker, queue }
    }

    /// The wake handle of this resumption.
    pub fn waker(&self) -> (waker: &'a Waker)
        ensures
            waker == self.waker,
    {
        self.waker
    }

    /// The time in milliseconds that the scheduler was last told.
    pub fn now(&self) -> (now: u64)
        ensures
            now == self@.now,
    {
        self.queue.now()
    }
}

} // verus!
