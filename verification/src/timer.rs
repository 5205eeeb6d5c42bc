//! A countdown on a monotonic clock, which can be paused and resumed.
use vstd::prelude::*;
use crate::clock::{max_span_nanos, Moment, Span};

verus! {

/// What a countdown holds: its length, the time counted while paused
/// periods were excluded, and the moment it last started running (none while
/// paused). Times are in nanoseconds.
pub struct CountdownView {
    pub duration: nat,
    pub accumulated: nat,
    pub resumed_at: Option<u64>,
}

/// Time counted by `c` at `now`.
pub open spec fn elapsed_at(c: CountdownView, now: u64) -> nat {
    c.accumulated + match c.resumed_at {
        Some(t) => if now >= t {
            (now - t) as nat
        } else {
            0nat
        },
        None => 0nat,
    }
}

/// Time left on `c` at `now`: its length less the time counted, never below
/// zero.
pub open spec fn remaining_at(c: CountdownView, now: u64) -> nat {
    if c.duration >= elapsed_at(c, now) {
        (c.duration - elapsed_at(c, now)) as nat
    } else {
        0
    }
}

/// Whether the time counted at `now` fits a `Duration`.
pub open spec fn measurable_at(c: CountdownView, now: u64) -> bool {
    elapsed_at(c, now) <= max_span_nanos()
}

/// `c` paused at `now`: the running time is banked and the clock stops.
pub open spec fn paused(c: CountdownView, now: u64) -> CountdownView {
    match c.resumed_at {
        Some(t) => CountdownView { accumulated: elapsed_at(c, now), resumed_at: None, ..c },
        None => c,
    }
}

/// `c` resumed at `now`: a paused countdown runs again from `now`.
pub open spec fn resumed(c: CountdownView, now: u64) -> CountdownView {
    match c.resumed_at {
        Some(_) => c,
        None => CountdownView { resumed_at: Some(now), ..c },
    }
}

/// A countdown of a fixed length on a monotonic clock.
#[derive(Clone, Copy, Debug)]
pub struct Countdown {
    duration: Span,
    accumulated: Span,
    resumed_at: Option<Moment>,
}

impl View for Countdown {
    type V = CountdownView;

    closed spec fn view(&self) -> CountdownView {
        CountdownView {
            duration: self.duration@,
            accumulated: self.accumulated@,
            resumed_at: match self.resumed_at {
                Some(m) => Some(m.nanos),
                None => None,
            },
        }
    }
}

impl Countdown {
    /// A countdown of `duration`, running from `started_at`.
    pub fn new(started_at: Moment, duration: Span) -> (r: Countdown)
        ensures
            r@ == (CountdownView {
                duration: duration@,
                accumulated: 0,
                resumed_at: Some(started_at.nanos),
            }),
    {
        Countdown { duration, accumulated: Span::zero(), resumed_at: Some(started_at) }
    }

    /// Whether the time counted at `now` fits a `Duration` (adding it up
    /// overflows otherwise).
    pub fn measurable(&self, now: Moment) -> (r: bool)
        ensures
            r == measurable_at(self@, now.nanos),
    {
        let running = match self.resumed_at {
            Some(t) => now.saturating_since(&t),
            None => Span::zero(),
        };
        self.accumulated.checked_add(&running).is_some()
    }

    fn elapsed(&self, now: Moment) -> (r: Span)
        requires
            measurable_at(self@, now.nanos),
        ensures
            r@ == elapsed_at(self@, now.nanos),
    {
        let running = match self.resumed_at {
            Some(t) => now.saturating_since(&t),
            None => Span::zero(),
        };
        self.accumulated.add(&running)
    }

    /// Time left at `now`.
    pub fn remaining(&self, now: Moment) -> (r: Span)
        requires
            measurable_at(self@, now.nanos),
        ensures
            r@ == remaining_at(self@, now.nanos),
            r@ <= self@.duration,
    {
        self.duration.saturating_sub(&self.elapsed(now))
    }

    /// Whether no time is left at `now`.
    pub fn is_finished(&self, now: Moment) -> (r: bool)
        requires
            measurable_at(self@, now.nanos),
        ensures
            r == (remaining_at(self@, now.nanos) == 0),
    {
        self.remaining(now).is_zero()
    }

    /// Stops the clock at `now`, banking the time counted; no change while
    /// paused.
    pub fn pause(&mut self, now: Moment)
        requires
            measurable_at(old(self)@, now.nanos),
        ensures
            final(self)@ == paused(old(self)@, now.nanos),
    {
        if let Some(resumed_at) = self.resumed_at {
            let running = now.saturating_since(&resumed_at);
            self.accumulated = self.accumulated.add(&running);
            self.resumed_at = None;
        }
    }

    /// Starts the clock again from `now`; no change while running.
    pub fn resume(&mut self, now: Moment)
        ensures
            final(self)@ == resumed(old(self)@, now.nanos),
    {
        if self.resumed_at.is_none() {
            self.resumed_at = Some(now);
        }
    }

    /// Whether the clock is stopped.
    pub fn is_paused(&self) -> (r: bool)
        ensures
            r == (self@.resumed_at is None),
    {
        self.resumed_at.is_none()
    }
}

} // verus!

verus! {

/// The time left never exceeds the countdown's length.
pub proof fn law_remaining_within_duration(c: CountdownView, now: u64)
    ensures
        remaining_at(c, now) <= c.duration,
{
}

/// A countdown of `d` started at `start` has `d - e` left after `e`
/// nanoseconds, and none once `e` reaches `d`.
pub proof fn law_fresh_countdown(start: u64, d: nat, e: u64)
    requires
        start + e <= u64::MAX,
    ensures
        remaining_at(
            CountdownView { duration: d, accumulated: 0, resumed_at: Some(start) },
            (start + e) as u64,
        ) == (if d >= e {
            (d - e) as nat
        } else {
            0
        }),
{
}

/// Pausing freezes the time left: after a pause at `p`, the time left at any
/// moment is the time left at `p`.
pub proof fn law_pause_freezes(c: CountdownView, p: u64, t: u64)
    ensures
        remaining_at(paused(c, p), t) == remaining_at(c, p),
{
}

/// Resuming a paused countdown at `r` counts on from the time left at `r`.
pub proof fn law_resume_continues(c: CountdownView, r: u64, e: u64)
    requires
        c.resumed_at is None,
        r + e <= u64::MAX,
    ensures
        remaining_at(resumed(c, r), (r + e) as u64) == (if remaining_at(c, r) >= e {
            (remaining_at(c, r) - e) as nat
        } else {
            0
        }),
{
}

/// While the clock runs, the time left never grows.
pub proof fn law_time_left_never_grows(c: CountdownView, t1: u64, t2: u64)
    requires
        t1 <= t2,
    ensures
        remaining_at(c, t2) <= remaining_at(c, t1),
{
}

/// Pausing a paused countdown changes nothing.
pub proof fn law_pause_idempotent(c: CountdownView, p: u64, q: u64)
    ensures
        paused(paused(c, p), q) == paused(c, p),
{
}

/// Resuming a running countdown changes nothing.
pub proof fn law_resume_idempotent(c: CountdownView, r: u64, s: u64)
    ensures
        resumed(resumed(c, r), s) == resumed(c, r),
{
}

/// Pausing and resuming at the same moment leaves the time left unchanged
/// at every later moment.
pub proof fn law_pause_resume_same_moment(c: CountdownView, p: u64, t: u64)
    requires
        c.resumed_at matches Some(s) && s <= p,
        p <= t,
    ensures
        remaining_at(resumed(paused(c, p), p), t) == remaining_at(c, t),
{
}

} // verus!
