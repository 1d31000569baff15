//! A computation that counts down, asking to be resumed again after every
//! step.

use vstd::prelude::*;
use crate::executor::Executor;
use crate::task::{Completion, Computation};
use crate::waker::{wake_by_ref_waker, Context};

verus! {

/// Counts `remaining` down to zero, one step per resumption. As long as a
/// step is left it wakes its own task and reports `Pending`; with none left
/// it reports `Ready`.
pub struct TestFuture {
    remaining: u8,
    id: u8,
}

impl TestFuture {
    /// Steps that are left.
    pub closed spec fn remaining(&self) -> u8 {
        self.remaining
    }

    /// The label that the computation was created with.
    pub closed spec fn id(&self) -> u8 {
        self.id
    }

    /// A computation that takes `remaining` steps, labelled `id`.
    pub fn new(remaining: u8, id: u8) -> (future: TestFuture)
        ensures
            future.remaining() == remaining,
            future.id() == id,
    {
        Self { remaining, id }
    }

    /// Steps that are left.
    pub fn steps_left(&self) -> (remaining: u8)
        ensures
            remaining == self.remaining(),
    {
        self.remaining
    }

    /// The label that the computation was created with.
    pub fn label(&self) -> (id: u8)
        ensures
            id == self.id(),
    {
        self.id
    }
}

impl Computation for TestFuture {
    open spec fn budget(&self) -> nat {
        self.remaining() as nat
    }

    open spec fn countdown(&self) -> Option<nat> {
        Some(self.remaining() as nat)
    }

    /// Takes one step. With a step left, the computation wakes the context's
    /// handle and reports `Pending`; with none left it reports `Ready` and
    /// touches nothing.
    fn poll(&mut self, cx: &mut Context<'_>) -> (poll: Completion)
        ensures
            final(self).id() == old(self).id(),
            old(self).remaining() == 0 ==> {
                &&& poll is Ready
                &&& final(self).remaining() == 0
                &&& final(cx)@ == old(cx)@
            },
            old(self).remaining() > 0 ==> {
                &&& poll is Pending
                &&& final(self).remaining() == old(self).remaining() - 1
                &&& final(cx)@ == old(cx)@.woken(old(cx).waker.slot())
            },
    {
        if self.remaining == 0 {
            Completion::Ready
        } else {
            proof {
                cx@.lemma_woken(cx.waker.slot());
            }
            self.remaining = self.remaining - 1;
            wake_by_ref_waker(cx.waker, cx.queue);
            Completion::Pending
        }
    }
}

/// Re-entrant wake-ups are neither lost nor doubled: a counting task with
/// `n` steps left, which wakes itself `n` times, has been resumed exactly
/// `n + 1` times when `run` returns, and has then reported `Ready`.
pub proof fn lemma_run_counts_down(
    before: &Executor<TestFuture>,
    after: &Executor<TestFuture>,
    task: int,
)
    requires
        before.wf(),
        0 <= task < before.tasks().len(),
        !before.tasks()[task].is_finished(),
        before.drained(after),
    ensures
        after.tasks()[task].is_finished(),
        after.tasks()[task].polls() == before.tasks()[task].polls()
            + before.tasks()[task].computation()->0.remaining() + 1,
{
}

} // verus!
