//! The countdown that dismisses the "saved" toast, with pause and resume.
//!
//! Time is a monotonic reading in nanoseconds from an arbitrary origin; the
//! host converts its clock readings to this scale.

use vstd::prelude::*;

verus! {

/// How long a freshly shown toast stays up: six seconds, in nanoseconds.
pub const TIMEOUT_NANOS: u64 = 6_000_000_000;

/// Nanoseconds in one second.
pub const NANOS_PER_SEC: u64 = 1_000_000_000;

/// The toast countdown: while running it has a deadline; while paused it
/// keeps the time that was left instead.
pub struct SavedToastTimer {
    deadline: Option<u64>,
    remaining: u64,
    paused: bool,
}

/// The abstract state of a [`SavedToastTimer`].
pub struct TimerView {
    pub deadline: Option<nat>,
    pub remaining: nat,
    pub paused: bool,
}

impl TimerView {
    /// A paused timer never carries a deadline.
    pub open spec fn well_formed(self) -> bool {
        self.paused ==> self.deadline is None
    }
}

impl View for SavedToastTimer {
    type V = TimerView;

    closed spec fn view(&self) -> TimerView {
        TimerView {
            deadline: match self.deadline {
                Some(d) => Some(d as nat),
                None => None,
            },
            remaining: self.remaining as nat,
            paused: self.paused,
        }
    }
}

/// The state right after a toast is (re)shown at `now`.
pub open spec fn restarted(now: nat, paused: bool) -> TimerView {
    TimerView {
        deadline: if paused { None } else { Some(now + (TIMEOUT_NANOS as nat)) },
        remaining: TIMEOUT_NANOS as nat,
        paused,
    }
}

/// The state after asking, at `now`, for the timer to be paused or running.
/// Nothing changes when it already is, or when no time is left.
pub open spec fn with_paused(v: TimerView, now: nat, paused: bool) -> TimerView {
    if v.paused == paused || v.remaining == 0 {
        v
    } else if paused {
        TimerView {
            deadline: None,
            remaining: match v.deadline {
                Some(d) => if d >= now { (d - now) as nat } else { 0 },
                None => v.remaining,
            },
            paused: true,
        }
    } else {
        TimerView { deadline: Some(now + v.remaining), remaining: v.remaining, paused: false }
    }
}

/// The state after the toast is dismissed.
pub open spec fn dismissed() -> TimerView {
    TimerView { deadline: None, remaining: 0, paused: false }
}

/// Whether the toast has run out at `now`.
pub open spec fn is_expired(v: TimerView, now: nat) -> bool {
    match v.deadline {
        Some(d) => now >= d,
        None => false,
    }
}

/// Whether resuming at `now` could be computed without overflow.
pub open spec fn resume_fits(v: TimerView, now: nat, paused: bool) -> bool {
    (v.paused != paused && v.remaining != 0 && !paused) ==> now + v.remaining <= u64::MAX
}

impl SavedToastTimer {
    #[verifier::type_invariant]
    spec fn inv(self) -> bool {
        self.paused ==> self.deadline is None
    }

    /// An idle timer: no deadline, no time left, not paused.
    pub fn new() -> (timer: Self)
        ensures
            timer@ == dismissed(),
    {
        SavedToastTimer { deadline: None, remaining: 0, paused: false }
    }

    /// Starts the full timeout again at `now`; a paused timer keeps the full
    /// timeout in reserve until it is resumed.
    pub fn restart(&mut self, now: u64, paused: bool)
        requires
            !paused ==> now + TIMEOUT_NANOS <= u64::MAX,
        ensures
            final(self)@ == restarted(now as nat, paused),
    {
        let deadline = if paused {
            None
        } else {
            Some(now + TIMEOUT_NANOS)
        };
        *self = SavedToastTimer { deadline, remaining: TIMEOUT_NANOS, paused };
    }

    /// Pauses or resumes the countdown at `now`. Pausing keeps the time that
    /// was left before the deadline; resuming sets a new deadline that far
    /// after `now`.
    pub fn set_paused(&mut self, now: u64, paused: bool)
        requires
            resume_fits(old(self)@, now as nat, paused),
        ensures
            final(self)@ == with_paused(old(self)@, now as nat, paused),
    {
        proof {
            use_type_invariant(&*self);
        }
        if self.paused == paused || self.remaining == 0 {
            return;
        }
        if paused {
            let remaining = match self.deadline {
                Some(deadline) => if deadline >= now {
                    deadline - now
                } else {
                    0
                },
                None => self.remaining,
            };
            *self = SavedToastTimer { deadline: None, remaining, paused: true };
        } else {
            let remaining = self.remaining;
            *self = SavedToastTimer { deadline: Some(now + remaining), remaining, paused: false };
        }
    }

    /// Hides the toast: no deadline, no time left, not paused.
    pub fn dismiss(&mut self)
        ensures
            final(self)@ == dismissed(),
    {
        *self = SavedToastTimer { deadline: None, remaining: 0, paused: false };
    }

    /// Whether the running countdown has reached its deadline at `now`.
    pub fn expired(&self, now: u64) -> (out: bool)
        ensures
            out == is_expired(self@, now as nat),
    {
        match self.deadline {
            Some(deadline) => now >= deadline,
            None => false,
        }
    }
}

impl Default for SavedToastTimer {
    fn default() -> (timer: Self)
        ensures
            timer@ == dismissed(),
    {
        Self::new()
    }
}

/// Every transition keeps the timer well formed.
pub proof fn lemma_transitions_keep_well_formed(v: TimerView, now: nat, paused: bool)
    requires
        v.well_formed(),
    ensures
        restarted(now, paused).well_formed(),
        with_paused(v, now, paused).well_formed(),
        dismissed().well_formed(),
{
}

/// Pausing at `t1` and resuming at `t2` leaves exactly the time that was
/// left at `t1` to run from `t2`: the time spent paused does not count.
pub proof fn lemma_pause_excludes_paused_time(v: TimerView, t1: nat, t2: nat)
    requires
        v.well_formed(),
        !v.paused,
        v.remaining > 0,
        v.deadline matches Some(d) && t1 < d,
    ensures
        with_paused(with_paused(v, t1, true), t2, false).deadline
            == Some(((v.deadline->0 - t1) + t2) as nat),
{
}

/// A restarted running timer expires exactly one timeout after the restart.
pub proof fn lemma_restart_expires_after_timeout(now: nat, t: nat)
    ensures
        is_expired(restarted(now, false), t) <==> t >= now + TIMEOUT_NANOS,
{
}

/// A paused timer does not expire, whatever the time.
pub proof fn lemma_paused_never_expires(v: TimerView, t: nat)
    requires
        v.well_formed(),
        v.paused,
    ensures
        !is_expired(v, t),
{
}

/// Once the toast has run out it stays run out at every later time, and
/// before that it has not run out at any earlier time; the timeout is six
/// seconds.
pub proof fn lemma_expiry_is_lasting(v: TimerView, t1: nat, t2: nat)
    requires
        t1 <= t2,
    ensures
        is_expired(v, t1) ==> is_expired(v, t2),
        !is_expired(v, t2) ==> !is_expired(v, t1),
        TIMEOUT_NANOS == 6 * NANOS_PER_SEC,
{
}

/// Pausing a running toast keeps exactly the time left before its
/// deadline; once the deadline has passed, pausing leaves no time at all,
/// and resuming such a toast later changes nothing, so it never comes back.
pub proof fn lemma_pause_keeps_time_left(v: TimerView, t: nat, later: nat)
    requires
        v.well_formed(),
        !v.paused,
        v.remaining > 0,
        v.deadline is Some,
    ensures
        !is_expired(v, t) ==> with_paused(v, t, true).remaining == v.deadline->0 - t
            && with_paused(v, t, true).remaining > 0,
        is_expired(v, t) ==> with_paused(v, t, true).remaining == 0 && with_paused(
            with_paused(v, t, true),
            later,
            false,
        ) == with_paused(v, t, true) && !is_expired(
            with_paused(with_paused(v, t, true), later, false),
            later,
        ),
{
}

/// After a dismissal the timer is idle and never expires.
pub proof fn lemma_dismissed_never_expires(t: nat)
    ensures
        !is_expired(dismissed(), t),
{
}

} // verus!
