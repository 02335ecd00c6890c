//! The decisions of two hand-written futures: one that measures how long the
//! future it wraps runs, and one that completes after a delay.
use vstd::prelude::*;
use std::time::Instant;

verus! {

/// A point in time (`std::time::Instant`).
#[verifier::external_type_specification]
#[verifier::external_body]
pub struct ExInstant(Instant);

/// A future wrapped so that the time from its first poll to its completion is measured.
pub struct MeasurableFuture<Fut> {
    inner_future: Fut,
    started_at: Option<Instant>,
}

impl<Fut> MeasurableFuture<Fut> {
    /// The wrapped future.
    pub closed spec fn inner(&self) -> Fut {
        self.inner_future
    }

    /// When the wrapped future was first polled, if it has been.
    pub closed spec fn start(&self) -> Option<Instant> {
        self.started_at
    }

    /// Wraps `inner_future`; it has not been polled yet.
    pub fn new(inner_future: Fut) -> (r: Self)
        ensures
            r.inner() == inner_future,
            r.start() is None,
    {
        MeasurableFuture { inner_future, started_at: None }
    }

    /// Records `now` as the start, unless a start is recorded already.
    pub fn note_poll(&mut self, now: Instant)
        ensures
            final(self).inner() == old(self).inner(),
            final(self).start() == (match old(self).start() {
                Some(t) => Some(t),
                None => Some(now),
            }),
    {
        if self.started_at.is_none() {
            self.started_at = Some(now);
        }
    }

    /// When the wrapped future was first polled, if it has been.
    pub fn started_at(&self) -> (r: Option<Instant>)
        ensures r == self.start(),
    {
        self.started_at
    }

    /// The wrapped future, to be polled.
    pub fn inner_mut(&mut self) -> (r: &mut Fut)
        ensures
            *r == old(self).inner(),
            final(self).inner() == *final(r),
            final(self).start() == old(self).start(),
    {
        &mut self.inner_future
    }
}

/// What a poll of the delay future does.
#[derive(Debug, Clone, Copy, PartialEq, Eq, Structural)]
pub enum SleepStep {
    /// The delay has passed: the future is ready.
    Ready,
    /// The delay has not passed: keep the waker and wait, first starting the
    /// timer when `start_timer` holds.
    Pending { start_timer: bool },
}

/// The decision of a poll, given whether the timer was started and whether the
/// delay has passed: the new `started` flag and the step.
pub open spec fn sleep_step(started: bool, completed: bool) -> (bool, SleepStep) {
    if completed {
        (started, SleepStep::Ready)
    } else {
        (true, SleepStep::Pending { start_timer: !started })
    }
}

/// A future that completes once a delay has passed, measured by a timer started
/// on its first poll.
pub struct SleepFuture {
    duration_ms: u64,
    started: bool,
}

impl View for SleepFuture {
    type V = (u64, bool);

    closed spec fn view(&self) -> (u64, bool) {
        (self.duration_ms, self.started)
    }
}

impl SleepFuture {
    /// A delay of `milliseconds`; its timer is not started yet.
    pub fn new(milliseconds: u64) -> (r: Self)
        ensures r@ == (milliseconds, false),
    {
        SleepFuture { duration_ms: milliseconds, started: false }
    }

    /// The delay, in milliseconds.
    pub fn duration_ms(&self) -> (r: u64)
        ensures r == self@.0,
    {
        self.duration_ms
    }

    /// Decides a poll, `completed` telling whether the delay has passed.
    pub fn poll_step(&mut self, completed: bool) -> (r: SleepStep)
        ensures
            final(self)@.0 == old(self)@.0,
            (final(self)@.1, r) == sleep_step(old(self)@.1, completed),
    {
        if completed {
            return SleepStep::Ready;
        }
        let start_timer = !self.started;
        self.started = true;
        SleepStep::Pending { start_timer }
    }
}

/// The steps that a run of polls takes, from the `started` flag, `polls[k]` telling
/// whether the delay had passed at the `k`-th poll.
pub open spec fn poll_run(started: bool, polls: Seq<bool>) -> Seq<SleepStep>
    decreases polls.len(),
{
    if polls.len() == 0 {
        Seq::empty()
    } else {
        let (next, step) = sleep_step(started, polls[0]);
        seq![step] + poll_run(next, polls.drop_first())
    }
}

proof fn lemma_poll_run_len(started: bool, polls: Seq<bool>)
    ensures poll_run(started, polls).len() == polls.len(),
    decreases polls.len(),
{
    if polls.len() > 0 {
        let (next, step) = sleep_step(started, polls[0]);
        lemma_poll_run_len(next, polls.drop_first());
    }
}

proof fn lemma_started_never_starts(polls: Seq<bool>)
    ensures
        forall|k: int| 0 <= k < polls.len() ==> #[trigger] poll_run(true, polls)[k] != (SleepStep::Pending { start_timer: true }),
    decreases polls.len(),
{
    if polls.len() > 0 {
        lemma_started_never_starts(polls.drop_first());
        lemma_poll_run_len(true, polls.drop_first());
        let run = poll_run(true, polls);
        assert forall|k: int| 0 <= k < polls.len() implies #[trigger] run[k] != (SleepStep::Pending { start_timer: true }) by {
            if k > 0 {
                assert(run[k] == poll_run(true, polls.drop_first())[k - 1]);
            }
        }
    }
}

/// Whatever the polls, the timer is started at most once: no two polls of a
/// run both start it.
pub proof fn lemma_timer_started_once(started: bool, polls: Seq<bool>, i: int, j: int)
    requires
        0 <= i < j < polls.len(),
    ensures
        !(poll_run(started, polls)[i] == (SleepStep::Pending { start_timer: true })
            && poll_run(started, polls)[j] == (SleepStep::Pending { start_timer: true })),
    decreases polls.len(),
{
    let (next, step) = sleep_step(started, polls[0]);
    let rest = polls.drop_first();
    lemma_poll_run_len(next, rest);
    assert(poll_run(started, polls)[j] == poll_run(next, rest)[j - 1]);
    if i == 0 {
        if step == (SleepStep::Pending { start_timer: true }) {
            lemma_started_never_starts(rest);
            assert(poll_run(true, rest)[j - 1] != (SleepStep::Pending { start_timer: true }));
        }
    } else {
        assert(poll_run(started, polls)[i] == poll_run(next, rest)[i - 1]);
        lemma_timer_started_once(next, rest, i - 1, j - 1);
    }
}

}
