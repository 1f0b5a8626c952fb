//! Measuring how long a word has been worked on.
//!
//! A timer is either idle or inside a burst. Time is a count of ticks on a
//! clock that never runs backwards: a reading below the latest one seen
//! counts as that latest one.

use vstd::prelude::*;

verus! {

/// The mathematical model of a [`Timer`].
pub struct TimerState {
    /// When the running burst began, if one is running.
    pub burst_start: Option<int>,
    /// The length of all finished bursts together.
    pub accumulated: int,
    /// The latest clock reading seen.
    pub clock: int,
}

impl TimerState {
    /// A finished burst lies before the next one begins, and nothing lies
    /// after the latest reading.
    pub open spec fn wf(self) -> bool {
        &&& 0 <= self.accumulated <= self.clock
        &&& self.burst_start matches Some(start) ==> self.accumulated <= start <= self.clock
    }

    /// An idle timer that has measured nothing.
    pub open spec fn fresh() -> TimerState {
        TimerState { burst_start: None, accumulated: 0, clock: 0 }
    }

    /// Whether a burst is running.
    pub open spec fn is_active(self) -> bool {
        self.burst_start is Some
    }

    /// What a clock reading of `now` counts as.
    pub open spec fn reading(self, now: int) -> int {
        if now >= self.clock {
            now
        } else {
            self.clock
        }
    }

    /// The timer after a look at the clock that changes nothing else.
    pub open spec fn observe(self, now: int) -> TimerState {
        TimerState { clock: self.reading(now), ..self }
    }

    /// The timer after a burst has been asked to begin: an idle timer begins
    /// one at the reading, a running burst goes on.
    pub open spec fn start(self, now: int) -> TimerState {
        if self.is_active() {
            self.observe(now)
        } else {
            TimerState { burst_start: Some(self.reading(now)), clock: self.reading(now), ..self }
        }
    }

    /// The timer after the burst has been asked to end: the time since the
    /// burst began is added to the accumulated duration. An idle timer stays
    /// as it is.
    pub open spec fn stop(self, now: int) -> TimerState {
        match self.burst_start {
            Some(start) => TimerState {
                burst_start: None,
                accumulated: self.accumulated + (self.reading(now) - start),
                clock: self.reading(now),
            },
            None => self.observe(now),
        }
    }

    /// All the time spent inside bursts up to the latest reading: the finished
    /// bursts and the running one as far as it has come.
    pub open spec fn spent(self) -> int {
        match self.burst_start {
            Some(start) => self.accumulated + (self.clock - start),
            None => self.accumulated,
        }
    }

    /// The time that passes inside a burst between the latest reading and a
    /// reading of `now`.
    pub open spec fn busy_until(self, now: int) -> int {
        if self.is_active() {
            self.reading(now) - self.clock
        } else {
            0
        }
    }
}

/// A per-word stopwatch: the accumulated duration of finished bursts and the
/// start of the running one.
#[derive(Debug, Clone, Copy)]
pub struct Timer {
    burst_start: Option<u64>,
    accumulated: u64,
    clock: u64,
}

impl View for Timer {
    type V = TimerState;

    closed spec fn view(&self) -> TimerState {
        TimerState {
            burst_start: match self.burst_start {
                Some(start) => Some(start as int),
                None => None,
            },
            accumulated: self.accumulated as int,
            clock: self.clock as int,
        }
    }
}

impl Timer {
    #[verifier::type_invariant]
    spec fn inv(self) -> bool {
        self@.wf()
    }

    /// An idle timer that has measured nothing.
    pub fn new() -> (timer: Timer)
        ensures
            timer@ == TimerState::fresh(),
    {
        Timer { burst_start: None, accumulated: 0, clock: 0 }
    }

    /// The length of all finished bursts together.
    pub fn accumulated(&self) -> (ticks: u64)
        ensures
            ticks == self@.accumulated,
            self@.wf(),
    {
        proof {
            use_type_invariant(self);
        }
        self.accumulated
    }

    /// When the running burst began, if one is running.
    pub fn burst_start(&self) -> (start: Option<u64>)
        ensures
            match start {
                Some(s) => self@.burst_start == Some(s as int),
                None => self@.burst_start is None,
            },
    {
        self.burst_start
    }

    /// Whether a burst is running.
    pub fn is_active(&self) -> (active: bool)
        ensures
            active == self@.is_active(),
    {
        self.burst_start.is_some()
    }

    /// Looks at the clock and changes nothing else.
    pub fn observe(&mut self, now: u64)
        ensures
            final(self)@ == old(self)@.observe(now as int),
            final(self)@.wf(),
        no_unwind
    {
        proof {
            use_type_invariant(&*self);
        }
        if now > self.clock {
            self.clock = now;
        }
    }

    /// Begins a burst at `now` unless one is running.
    pub fn start(&mut self, now: u64)
        ensures
            final(self)@ == old(self)@.start(now as int),
            final(self)@.wf(),
        no_unwind
    {
        proof {
            use_type_invariant(&*self);
        }
        let reading: u64 = if now > self.clock {
            now
        } else {
            self.clock
        };
        let start: u64 = match self.burst_start {
            Some(start) => start,
            None => reading,
        };
        *self = Timer { burst_start: Some(start), accumulated: self.accumulated, clock: reading };
    }

    /// Ends the running burst at `now` and adds its length to the accumulated
    /// duration. An idle timer stays idle.
    pub fn stop(&mut self, now: u64)
        ensures
            final(self)@ == old(self)@.stop(now as int),
            final(self)@.wf(),
        no_unwind
    {
        proof {
            use_type_invariant(&*self);
        }
        let reading: u64 = if now > self.clock {
            now
        } else {
            self.clock
        };
        let accumulated: u64 = match self.burst_start {
            Some(start) => self.accumulated + (reading - start),
            None => self.accumulated,
        };
        *self = Timer { burst_start: None, accumulated, clock: reading };
    }
}

/// No step of a timer takes anything from the accumulated duration, and
/// every step leaves a well-formed timer.
pub proof fn lemma_timer_steps(timer: TimerState, now: int)
    requires
        timer.wf(),
    ensures
        timer.observe(now).wf(),
        timer.start(now).wf(),
        timer.stop(now).wf(),
        timer.observe(now).accumulated == timer.accumulated,
        timer.start(now).accumulated == timer.accumulated,
        timer.stop(now).accumulated >= timer.accumulated,
{
}

/// Every step of a timer adds to the time spent exactly what passed inside a
/// burst since the latest reading: beginning or ending a burst neither
/// invents time nor loses any.
pub proof fn lemma_timer_spent(timer: TimerState, now: int)
    requires
        timer.wf(),
    ensures
        timer.observe(now).spent() == timer.spent() + timer.busy_until(now),
        timer.start(now).spent() == timer.spent() + timer.busy_until(now),
        timer.stop(now).spent() == timer.spent() + timer.busy_until(now),
        !timer.is_active() ==> timer.spent() == timer.accumulated,
{
}

} // verus!
