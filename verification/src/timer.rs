//! Countdown timer driving periodic frame changes.

use vstd::prelude::*;
use vstd::arithmetic::div_mod::{
    lemma_div_nonincreasing, lemma_div_pos_is_pos, lemma_fundamental_div_mod,
    lemma_fundamental_div_mod_converse, lemma_mod_division_less_than_divisor,
};

verus! {

/// Mathematical model of an animation timer. Durations are whole
/// milliseconds; `remaining` counts down from `interval` toward the next
/// frame change.
pub ghost struct TimerModel {
    pub interval: int,
    pub remaining: int,
    pub repeating: bool,
}

impl TimerModel {
    /// A valid timer has a positive interval and a remaining time within
    /// `[0, interval]`. A repeating timer is always armed (`remaining >= 1`);
    /// a one-shot timer with `remaining == 0` has fired and lies dormant.
    pub open spec fn wf(self) -> bool {
        &&& self.interval >= 1
        &&& 0 <= self.remaining <= self.interval
        &&& self.repeating ==> self.remaining >= 1
    }

    /// How many times the timer completes during `elapsed` milliseconds.
    /// A repeating timer carries overshoot into the next cycle, so a large
    /// delta can complete several cycles at once; a one-shot timer completes
    /// at most once and never again while dormant.
    pub open spec fn fires(self, elapsed: int) -> int {
        if elapsed < self.remaining {
            0
        } else if self.repeating {
            1 + (elapsed - self.remaining) / self.interval
        } else if self.remaining > 0 {
            1
        } else {
            0
        }
    }

    /// The timer state after `elapsed` milliseconds have passed.
    pub open spec fn ticked(self, elapsed: int) -> TimerModel {
        TimerModel {
            remaining: if elapsed < self.remaining {
                self.remaining - elapsed
            } else if self.repeating {
                self.interval - (elapsed - self.remaining) % self.interval
            } else {
                0
            },
            ..self
        }
    }
}

/// Per-entity countdown clock. Subtracting each tick's elapsed time from
/// `remaining_ms` and, on expiry, re-arming with the overshoot carried over
/// is the whole of its behaviour.
#[derive(Debug)]
pub struct AnimationTimer {
    interval_ms: u64,
    remaining_ms: u64,
    repeating: bool,
}

impl View for AnimationTimer {
    type V = TimerModel;

    closed spec fn view(&self) -> TimerModel {
        TimerModel {
            interval: self.interval_ms as int,
            remaining: self.remaining_ms as int,
            repeating: self.repeating,
        }
    }
}

impl AnimationTimer {
    /// Build a timer armed for a full interval. An interval of zero
    /// milliseconds cannot schedule a next frame change and is rejected.
    pub fn new(interval_ms: u64, repeating: bool) -> (r: Option<AnimationTimer>)
        ensures
            interval_ms == 0 ==> r is None,
            interval_ms >= 1 ==> (r matches Some(t) && t@ == (TimerModel {
                interval: interval_ms as int,
                remaining: interval_ms as int,
                repeating,
            }) && t@.wf()),
    {
        if interval_ms == 0 {
            None
        } else {
            Some(AnimationTimer { interval_ms, remaining_ms: interval_ms, repeating })
        }
    }

    /// Advance the countdown by `elapsed_ms` and report how many times the
    /// timer completed, per the overshoot-carry model.
    pub fn tick(&mut self, elapsed_ms: u64) -> (fires: u64)
        requires
            old(self)@.wf(),
        ensures
            final(self)@ == old(self)@.ticked(elapsed_ms as int),
            fires as int == old(self)@.fires(elapsed_ms as int),
            final(self)@.wf(),
    {
        if elapsed_ms < self.remaining_ms {
            self.remaining_ms = self.remaining_ms - elapsed_ms;
            0
        } else if self.repeating {
            let overshoot: u64 = elapsed_ms - self.remaining_ms;
            let cycles: u64 = overshoot / self.interval_ms;
            let part: u64 = overshoot % self.interval_ms;
            proof {
                lemma_div_nonincreasing(overshoot as int, self.interval_ms as int);
                lemma_mod_division_less_than_divisor(overshoot as int, self.interval_ms as int);
            }
            self.remaining_ms = self.interval_ms - part;
            1 + cycles
        } else if self.remaining_ms > 0 {
            self.remaining_ms = 0;
            1
        } else {
            0
        }
    }

    /// Re-arm the timer for a full interval. A dormant one-shot timer fires
    /// again only after this is called.
    pub fn reset(&mut self)
        requires
            old(self)@.wf(),
        ensures
            final(self)@ == (TimerModel { remaining: old(self)@.interval, ..old(self)@ }),
            final(self)@.wf(),
    {
        self.remaining_ms = self.interval_ms;
    }

    pub fn interval_ms(&self) -> (r: u64)
        ensures
            r as int == self@.interval,
    {
        self.interval_ms
    }

    pub fn remaining_ms(&self) -> (r: u64)
        ensures
            r as int == self@.remaining,
    {
        self.remaining_ms
    }

    pub fn is_repeating(&self) -> (r: bool)
        ensures
            r == self@.repeating,
    {
        self.repeating
    }
}

/// After any nonnegative elapsed time a valid timer stays valid, and the
/// number of completions is never negative.
pub proof fn lemma_ticked_wf(t: TimerModel, elapsed: int)
    requires
        t.wf(),
        elapsed >= 0,
    ensures
        t.ticked(elapsed).wf(),
        t.fires(elapsed) >= 0,
{
    if elapsed < t.remaining {
    } else if t.repeating {
        lemma_mod_division_less_than_divisor(elapsed - t.remaining, t.interval);
        lemma_div_pos_is_pos(elapsed - t.remaining, t.interval);
    }
}

/// Zero elapsed time changes nothing: the timer neither advances nor fires.
pub proof fn lemma_tick_zero(t: TimerModel)
    requires
        t.wf(),
    ensures
        t.ticked(0) == t,
        t.fires(0) == 0,
{
}

/// Elapsed time composes: ticking by `a` and then by `b` is the same as
/// ticking once by `a + b`, and the completions add up. This is the
/// overshoot-carry property — no time is lost at tick boundaries.
pub proof fn lemma_tick_additive(t: TimerModel, a: int, b: int)
    requires
        t.wf(),
        a >= 0,
        b >= 0,
    ensures
        t.ticked(a).ticked(b) == t.ticked(a + b),
        t.fires(a) + t.ticked(a).fires(b) == t.fires(a + b),
{
    let i = t.interval;
    let r = t.remaining;
    if a < r {
        // The first tick only counts down; the second sees the same horizon.
    } else if t.repeating {
        let over = a - r;
        lemma_fundamental_div_mod(over, i);
        lemma_mod_division_less_than_divisor(over, i);
        lemma_div_pos_is_pos(over, i);
        let q = over / i;
        let m = over % i;
        let r2 = i - m;
        if b < r2 {
            assert(a + b - r == q * i + (m + b));
            lemma_fundamental_div_mod_converse(a + b - r, i, q, m + b);
        } else {
            let over2 = b - r2;
            lemma_fundamental_div_mod(over2, i);
            lemma_mod_division_less_than_divisor(over2, i);
            lemma_div_pos_is_pos(over2, i);
            let q2 = over2 / i;
            let m2 = over2 % i;
            assert((q + 1 + q2) * i == q * i + i + q2 * i) by (nonlinear_arith);
            assert(a + b - r == (q + 1 + q2) * i + m2);
            lemma_fundamental_div_mod_converse(a + b - r, i, q + 1 + q2, m2);
        }
    } else {
        // A one-shot timer is dormant after its first expiry and a dormant
        // timer never fires, so the totals agree in every case.
    }
}

} // verus!
