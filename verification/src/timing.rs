//! The decisions of two hand-written futures: one that measures how long the
//! future it wraps takes, and a timer that is ready after a delay.

use vstd::prelude::*;

verus! {

#[verifier::external_type_specification]
#[verifier::external_body]
pub struct ExInstant(std::time::Instant);

/// Reads the clock (`Instant::now`). Nothing is promised of the reading.
#[verifier::external_body]
fn instant_now() -> std::time::Instant {
    std::time::Instant::now()
}

/// Nanoseconds since `start` (`Instant::elapsed`). Nothing is promised of
/// the reading.
#[verifier::external_body]
fn nanos_since(start: &std::time::Instant) -> u128 {
    start.elapsed().as_nanos()
}

/// Whether `nanos` is a reading that `nanos_since(start)` (the nanoseconds
/// of `Instant::elapsed` on `start`) can return.
pub closed spec fn clock_reading(start: std::time::Instant, nanos: u128) -> bool {
    call_ensures(nanos_since, (&start,), nanos)
}

/// A wrapper future that measures the execution time of its inner future.
pub struct MeasurableFuture<Fut> {
    inner_future: Fut,
    started_at: Option<std::time::Instant>,
}

impl<Fut> MeasurableFuture<Fut> {
    /// The wrapped future.
    pub closed spec fn inner(&self) -> Fut {
        self.inner_future
    }

    /// Whether the first poll has started the clock.
    pub closed spec fn started(&self) -> bool {
        self.started_at is Some
    }

    /// The instant of the first poll, once there was one.
    pub closed spec fn start_time(&self) -> Option<std::time::Instant> {
        self.started_at
    }

    /// Creates a new `MeasurableFuture` wrapper; the clock starts at the
    /// first poll.
    pub fn new(inner_future: Fut) -> (r: Self)
        ensures
            r.inner() == inner_future,
            !r.started(),
            r.start_time() is None,
    {
        MeasurableFuture { inner_future, started_at: None }
    }

    /// Starts the clock at the first poll; later polls leave it alone.
    pub fn mark_polled(&mut self)
        ensures
            final(self).started(),
            final(self).inner() == old(self).inner(),
            final(self).start_time() is Some,
            old(self).started() ==> *final(self) == *old(self),
            old(self).start_time() is Some ==> final(self).start_time() == old(self).start_time(),
    {
        if self.started_at.is_none() {
            self.started_at = Some(instant_now());
        }
    }

    /// The wrapped future, to be polled in place.
    pub fn inner_mut(&mut self) -> (r: &mut Fut)
        ensures
            *r == old(self).inner(),
            final(self).inner() == *final(r),
            final(self).started() == old(self).started(),
            final(self).start_time() == old(self).start_time(),
    {
        &mut self.inner_future
    }

    /// Nanoseconds since the first poll, read from the clock against
    /// `start_time()`.
    pub fn elapsed_nanos(&self) -> (r: u128)
        requires
            self.started(),
        ensures
            self.start_time() matches Some(t) && clock_reading(t, r),
    {
        match &self.started_at {
            Some(t) => nanos_since(t),
            None => 0,
        }
    }
}

/// What a poll of a `Delay` does.
#[derive(Debug, Clone, Copy, PartialEq, Eq)]
pub enum DelayStep {
    /// The delay is over.
    Ready,
    /// Not yet; a thread is to wake the task after `nanos` nanoseconds.
    SpawnWaker { nanos: u128 },
    /// Not yet; the waker thread is already running.
    Pending,
}

/// A future that resolves after a specified duration.
pub struct Delay {
    started: std::time::Instant,
    millis: u64,
    is_waker_spawned: bool,
}

/// The duration of `millis` milliseconds, in nanoseconds.
pub open spec fn millis_to_nanos(millis: u64) -> int {
    millis * 1_000_000
}

impl Delay {
    /// The length of the delay, in milliseconds.
    pub closed spec fn duration_millis(&self) -> u64 {
        self.millis
    }

    /// The instant the delay was created, from which it counts.
    pub closed spec fn start(&self) -> std::time::Instant {
        self.started
    }

    /// Whether the waker thread has been spawned.
    pub closed spec fn waker_spawned(&self) -> bool {
        self.is_waker_spawned
    }

    /// The step a poll takes when `elapsed` nanoseconds have passed since
    /// the delay was created, and whether the waker has been spawned after it.
    pub open spec fn step_spec(&self, elapsed: u128) -> (DelayStep, bool) {
        if elapsed >= millis_to_nanos(self.duration_millis()) {
            (DelayStep::Ready, self.waker_spawned())
        } else if !self.waker_spawned() {
            (DelayStep::SpawnWaker { nanos: (millis_to_nanos(self.duration_millis()) - elapsed) as u128 }, true)
        } else {
            (DelayStep::Pending, true)
        }
    }

    /// Creates a new `Delay` future that will be ready after `millis`
    /// milliseconds.
    pub fn new(millis: u64) -> (r: Self)
        ensures
            r.duration_millis() == millis,
            !r.waker_spawned(),
    {
        Delay { started: instant_now(), millis, is_waker_spawned: false }
    }

    /// The decision of a poll when `elapsed` nanoseconds have passed: ready
    /// once the duration has passed; otherwise a waker thread is spawned at
    /// the first such poll, and later polls wait.
    pub fn poll_step(&mut self, elapsed: u128) -> (r: DelayStep)
        ensures
            (r, final(self).waker_spawned()) == old(self).step_spec(elapsed),
            r is Ready <==> elapsed >= old(self).duration_millis() as int * 1_000_000,
            r matches DelayStep::SpawnWaker { nanos } ==> nanos == old(self).duration_millis() as int * 1_000_000 - elapsed,
            final(self).duration_millis() == old(self).duration_millis(),
            final(self).start() == old(self).start(),
            r is Ready ==> *final(self) == *old(self),
    {
        let target: u128 = self.millis as u128 * 1_000_000u128;
        if elapsed >= target {
            DelayStep::Ready
        } else if !self.is_waker_spawned {
            self.is_waker_spawned = true;
            DelayStep::SpawnWaker { nanos: target - elapsed }
        } else {
            DelayStep::Pending
        }
    }

    /// Polls the delay against the clock.
    pub fn poll_now(&mut self) -> (r: DelayStep)
        ensures
            exists|e: u128| #![trigger old(self).step_spec(e)]
                clock_reading(old(self).start(), e) && (r, final(self).waker_spawned()) == old(self).step_spec(e),
            final(self).duration_millis() == old(self).duration_millis(),
            final(self).start() == old(self).start(),
            r is Ready ==> *final(self) == *old(self),
    {
        let elapsed = nanos_since(&self.started);
        self.poll_step(elapsed)
    }
}

/// A waker thread is spawned at most once: after a poll that spawned it, no
/// later poll spawns another, whatever the clock reads.
pub proof fn law_waker_spawned_once(d: Delay, e1: u128, d1: Delay, e2: u128)
    requires
        d.step_spec(e1).0 is SpawnWaker,
        d1.waker_spawned() == d.step_spec(e1).1,
        d1.duration_millis() == d.duration_millis(),
    ensures
        !(d1.step_spec(e2).0 is SpawnWaker),
{
}

/// Once the delay has passed, a poll is ready and changes nothing.
pub proof fn law_ready_after_duration(d: Delay, e: u128)
    requires
        e >= millis_to_nanos(d.duration_millis()),
    ensures
        d.step_spec(e) == (DelayStep::Ready, d.waker_spawned()),
{
}

/// A poll at a reading of `e` nanoseconds since the delay was created is
/// ready exactly when `e` has reached the duration, `duration_millis()`
/// times a million nanoseconds. Before that, the first poll asks to be woken
/// once the rest of the duration has passed, and later polls wait.
pub proof fn law_poll_against_duration(d: Delay, e: u128)
    ensures
        d.step_spec(e).0 is Ready <==> e >= d.duration_millis() as int * 1_000_000,
        d.step_spec(e).0 is SpawnWaker <==> (e < d.duration_millis() as int * 1_000_000 && !d.waker_spawned()),
        d.step_spec(e).0 matches DelayStep::SpawnWaker { nanos } ==> nanos + e == d.duration_millis() as int * 1_000_000,
        d.step_spec(e).0 is Pending <==> (e < d.duration_millis() as int * 1_000_000 && d.waker_spawned()),
        d.step_spec(e).1 == (d.waker_spawned() || e < d.duration_millis() as int * 1_000_000),
{
}

/// The time a measured future reports is a reading of the clock against the
/// instant of its first poll: `elapsed_nanos` is what `Instant::elapsed` on
/// that instant gives, in nanoseconds.
pub proof fn law_elapsed_is_clock_reading<Fut>(m: MeasurableFuture<Fut>, r: u128)
    requires
        m.started(),
        call_ensures(MeasurableFuture::<Fut>::elapsed_nanos, (&m,), r),
    ensures
        m.start_time() matches Some(t) && clock_reading(t, r),
{
}

/// Once ready, always ready: polls keep the start and the duration, so a
/// poll at a later clock reading than a ready one is ready too.
pub proof fn law_ready_stays_ready(d: Delay, e1: u128, d1: Delay, e2: u128)
    requires
        d.step_spec(e1).0 is Ready,
        d1.duration_millis() == d.duration_millis(),
        e1 <= e2,
    ensures
        d1.step_spec(e2).0 is Ready,
{
}

} // verus!
