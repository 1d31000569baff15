//! A computation that is done once a given time has passed.

use vstd::prelude::*;
use crate::task::{Completion, Computation};
use crate::waker::{clone_waker, drop_waker, Context, Waker};

verus! {

/// The timing state of a sleep: what decides whether a resumption reports
/// `Ready`.
pub struct SleepTimer {
    /// The timer has run out, or a resumption has found the deadline passed.
    pub completed: bool,
    /// The first resumption has taken place.
    pub started: bool,
    /// How long to sleep, in milliseconds.
    pub time_sleep: u64,
    /// Time of the first resumption plus `time_sleep`; `None` before the first
    /// resumption, and when that sum is beyond `u64`.
    pub deadline: Option<u64>,
}

impl SleepTimer {
    /// A sleep of `ms` milliseconds that has not been resumed yet.
    pub open spec fn fresh(ms: u64) -> SleepTimer {
        SleepTimer { completed: false, started: false, time_sleep: ms, deadline: None }
    }

    /// The sleep is over at time `now`: it has completed, or it has started
    /// and `now` has reached its deadline.
    pub open spec fn due(self, now: u64) -> bool {
        self.completed || (self.started && self.deadline is Some && now >= self.deadline->0)
    }

    /// What a resumption at time `now` reports.
    pub open spec fn outcome(self, now: u64) -> Completion {
        if self.due(now) {
            Completion::Ready
        } else {
            Completion::Pending
        }
    }

    /// The deadline of a sleep of `ms` milliseconds first resumed at `now`.
    pub open spec fn deadline_from(now: u64, ms: u64) -> Option<u64> {
        if now + ms <= u64::MAX {
            Some((now + ms) as u64)
        } else {
            None
        }
    }

    /// The timing state after a resumption at time `now`.
    pub open spec fn polled(self, now: u64) -> SleepTimer {
        if self.due(now) {
            SleepTimer { completed: true, ..self }
        } else if self.started {
            self
        } else {
            SleepTimer {
                started: true,
                deadline: Self::deadline_from(now, self.time_sleep),
                ..self
            }
        }
    }

    /// The timing state after the timer has run out.
    pub open spec fn fired(self) -> SleepTimer {
        SleepTimer { completed: true, ..self }
    }

    /// The timing state after resumptions at the given times, in order.
    pub open spec fn polled_all(self, times: Seq<u64>) -> SleepTimer
        decreases times.len(),
    {
        if times.len() == 0 {
            self
        } else {
            self.polled_all(times.drop_last()).polled(times.last())
        }
    }
}

impl SleepTimer {
    /// Sleep lower bound: the first resumption of a sleep reports `Pending`,
    /// and so does every later one for as long as the timer has not fired
    /// and the clock is below the time of the first resumption plus the
    /// duration.
    pub proof fn lemma_pending_before_deadline(ms: u64, times: Seq<u64>)
        requires
            times.len() > 0,
            forall|k: int| 1 <= k < times.len() ==> #[trigger] times[k] < times[0] + ms,
        ensures
            Self::fresh(ms).polled_all(times.drop_last()).outcome(times.last()) is Pending,
            !Self::fresh(ms).polled_all(times).completed,
            Self::fresh(ms).polled_all(times).started,
            Self::fresh(ms).polled_all(times).deadline == Self::deadline_from(times[0], ms),
        decreases times.len(),
    {
        let fresh = Self::fresh(ms);
        let earlier = times.drop_last();
        if earlier.len() == 0 {
        } else {
            assert forall|k: int| 1 <= k < earlier.len() implies #[trigger] earlier[k] < earlier[0]
                + ms by {
            }
            Self::lemma_pending_before_deadline(ms, earlier);
        }
    }
}

/// What the sleeping computation and its timer share: the completion flag,
/// and the wake handle that was supplied last.
pub struct StateSleepFuture {
    completed: bool,
    waker: Option<Waker>,
}

/// Sleeps for a number of milliseconds, counted from its first resumption.
///
/// The first resumption stores the wake handle, fixes the deadline and
/// reports `Pending`; whoever drives the scheduler starts a timer then and
/// calls `fire` when it runs out. Later resumptions report `Ready` once the
/// timer has fired or the clock has reached the deadline, whichever they see
/// first.
pub struct SleepFuture {
    state: StateSleepFuture,
    started: bool,
    time_sleep: u64,
    deadline: Option<u64>,
}

impl View for SleepFuture {
    type V = SleepTimer;

    closed spec fn view(&self) -> SleepTimer {
        SleepTimer {
            completed: self.state.completed,
            started: self.started,
            time_sleep: self.time_sleep,
            deadline: self.deadline,
        }
    }
}

impl SleepFuture {
    /// The slot of the wake handle that the computation keeps, if it keeps
    /// one.
    pub closed spec fn kept(&self) -> Option<usize> {
        Waker::slot_of(self.state.waker)
    }

    /// A sleep of `ms` milliseconds.
    pub fn new(ms: u64) -> (future: SleepFuture)
        ensures
            future@ == SleepTimer::fresh(ms),
            future.kept() is None,
    {
        Self {
            state: StateSleepFuture { completed: false, waker: None },
            started: false,
            time_sleep: ms,
            deadline: None,
        }
    }

    /// The timer has run out: sets the completion flag and hands out the
    /// stored wake handle for the caller to wake.
    pub fn fire(&mut self) -> (waker: Option<Waker>)
        ensures
            final(self)@ == old(self)@.fired(),
            final(self).kept() is None,
            Waker::slot_of(waker) == old(self).kept(),
    {
        self.state.completed = true;
        self.state.waker.take()
    }

    /// Whether the first resumption has taken place.
    pub fn is_started(&self) -> (started: bool)
        ensures
            started == self@.started,
    {
        self.started
    }

    /// Whether the sleep is known to be over.
    pub fn is_completed(&self) -> (completed: bool)
        ensures
            completed == self@.completed,
    {
        self.state.completed
    }

    /// How long the computation sleeps, in milliseconds.
    pub fn duration_ms(&self) -> (ms: u64)
        ensures
            ms == self@.time_sleep,
    {
        self.time_sleep
    }
}

impl Computation for SleepFuture {
    /// Reports `Ready` if the sleep is over at the context's time, and gives
    /// the stored handle back. Otherwise stores a copy of the context's
    /// handle in place of the one stored before and reports `Pending`; the
    /// first such resumption also fixes the deadline.
    fn poll(&mut self, cx: &mut Context<'_>) -> (poll: Completion)
        ensures
            poll == old(self)@.outcome(old(cx)@.now),
            final(self)@ == old(self)@.polled(old(cx)@.now),
            poll is Ready ==> final(self).kept() is None && final(cx)@ == old(cx)@.released(
                old(self).kept(),
            ),
            poll is Pending ==> final(self).kept() == old(cx).waker.slot() && final(cx)@ == old(
                cx,
            )@.retained(old(cx).waker.slot()).released(old(self).kept()),
            final(cx)@.queue == old(cx)@.queue,
    {
        let now = cx.now();
        let due = match self.deadline {
            Some(deadline) => self.started && now >= deadline,
            None => false,
        };
        if self.state.completed || due {
            self.state.completed = true;
            self.release(cx);
            Completion::Ready
        } else {
            let fresh = clone_waker(cx.waker, cx.queue);
            self.release(cx);
            self.state.waker = Some(fresh);
            if !self.started {
                self.started = true;
                self.deadline = now.checked_add(self.time_sleep);
            }
            Completion::Pending
        }
    }
}

impl SleepFuture {
    /// Gives the stored wake handle back, if there is one.
    fn release(&mut self, cx: &mut Context<'_>)
        requires
            old(cx).wf(),
        ensures
            final(self)@ == old(self)@,
            final(self).kept() is None,
            final(cx)@ == old(cx)@.released(old(self).kept()),
            old(cx)@.evolves(final(cx)@),
            final(cx).waker == old(cx).waker,
            *final(final(cx).queue) == *final(old(cx).queue),
    {
        match self.state.waker.take() {
            Some(kept) => {
                drop_waker(kept, cx.queue);
            },
            None => {},
        }
    }
}

} // verus!
