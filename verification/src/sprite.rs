//! Animated sprite entities: a countdown timer paired with a frame index
//! that wraps modulo the sheet's frame count.

use vstd::prelude::*;
use vstd::arithmetic::div_mod::{
    lemma_add_mod_noop_right, lemma_basic_div, lemma_fundamental_div_mod,
    lemma_fundamental_div_mod_converse, lemma_mod_division_less_than_divisor, lemma_small_mod,
};
use crate::timer::{lemma_tick_additive, lemma_tick_zero, lemma_ticked_wf, AnimationTimer, TimerModel};

verus! {

/// Why a spawn request was rejected: the two invalid configurations that
/// must never reach the tick step.
#[derive(Debug, PartialEq, Eq, Structural)]
pub enum SpawnError {
    /// The sprite sheet has no frames (`frame_count == 0`).
    EmptySheet,
    /// The timer interval is zero milliseconds.
    ZeroInterval,
}

/// Mathematical model of an animated sprite entity.
pub ghost struct SpriteModel {
    pub timer: TimerModel,
    pub frame_index: int,
    pub frame_count: int,
}

impl SpriteModel {
    /// A valid entity carries a valid timer, a positive frame count fixed at
    /// spawn time, and a frame index inside the sheet.
    pub open spec fn wf(self) -> bool {
        &&& self.timer.wf()
        &&& self.frame_count >= 1
        &&& 0 <= self.frame_index < self.frame_count
    }

    /// The entity after one frame-advance step with `elapsed` milliseconds:
    /// the timer counts down, and the frame index moves by one step per
    /// timer completion, wrapping modulo the frame count.
    pub open spec fn advanced(self, elapsed: int) -> SpriteModel {
        SpriteModel {
            timer: self.timer.ticked(elapsed),
            frame_index: (self.frame_index + self.timer.fires(elapsed)) % self.frame_count,
            ..self
        }
    }

    /// The entity after a whole run of frame-advance steps, one per tick.
    pub open spec fn advanced_seq(self, deltas: Seq<int>) -> SpriteModel
        decreases deltas.len(),
    {
        if deltas.len() == 0 {
            self
        } else {
            self.advanced(deltas[0]).advanced_seq(deltas.drop_first())
        }
    }
}

/// Every tick's elapsed time is nonnegative.
pub open spec fn all_nonneg(deltas: Seq<int>) -> bool {
    forall|k: int| 0 <= k < deltas.len() ==> deltas[k] >= 0
}

/// The cumulative elapsed time of a run of ticks.
pub open spec fn total_elapsed(deltas: Seq<int>) -> int
    decreases deltas.len(),
{
    if deltas.len() == 0 {
        0
    } else {
        deltas[0] + total_elapsed(deltas.drop_first())
    }
}

/// One animated entity: the loaded sheet's frame count, the currently
/// displayed frame, and the countdown timer that drives frame changes.
#[derive(Debug)]
pub struct AnimatedSprite {
    timer: AnimationTimer,
    frame_index: u64,
    frame_count: u64,
}

impl View for AnimatedSprite {
    type V = SpriteModel;

    closed spec fn view(&self) -> SpriteModel {
        SpriteModel {
            timer: self.timer@,
            frame_index: self.frame_index as int,
            frame_count: self.frame_count as int,
        }
    }
}

impl AnimatedSprite {
    /// Build an entity showing frame zero, its timer armed for a full
    /// interval. A sheet with no frames and a zero interval are the two
    /// invalid configurations; both are rejected here, before any tick runs.
    pub fn new(interval_ms: u64, repeating: bool, frame_count: u64) -> (r: Result<
        AnimatedSprite,
        SpawnError,
    >)
        ensures
            frame_count == 0 ==> r == Err::<AnimatedSprite, SpawnError>(SpawnError::EmptySheet),
            frame_count >= 1 && interval_ms == 0 ==> r == Err::<AnimatedSprite, SpawnError>(
                SpawnError::ZeroInterval,
            ),
            frame_count >= 1 && interval_ms >= 1 ==> (r matches Ok(s) && s@ == (SpriteModel {
                timer: TimerModel {
                    interval: interval_ms as int,
                    remaining: interval_ms as int,
                    repeating,
                },
                frame_index: 0,
                frame_count: frame_count as int,
            }) && s@.wf()),
    {
        if frame_count == 0 {
            Err(SpawnError::EmptySheet)
        } else {
            match AnimationTimer::new(interval_ms, repeating) {
                None => Err(SpawnError::ZeroInterval),
                Some(timer) => Ok(AnimatedSprite { timer, frame_index: 0, frame_count }),
            }
        }
    }

    /// One frame-advance step: count the elapsed time against the timer and
    /// move the displayed frame one step per completion, wrapping modulo the
    /// frame count.
    pub fn advance(&mut self, elapsed_ms: u64)
        requires
            old(self)@.wf(),
        ensures
            final(self)@ == old(self)@.advanced(elapsed_ms as int),
            final(self)@.wf(),
    {
        let ghost m = self@;
        let fires = self.timer.tick(elapsed_ms);
        let steps: u64 = fires % self.frame_count;
        proof {
            lemma_ticked_wf(m.timer, elapsed_ms as int);
            lemma_mod_division_less_than_divisor(fires as int, self.frame_count as int);
            lemma_add_mod_noop_right(
                m.frame_index,
                m.timer.fires(elapsed_ms as int),
                m.frame_count,
            );
        }
        let room: u64 = self.frame_count - self.frame_index;
        if steps >= room {
            proof {
                lemma_fundamental_div_mod_converse(
                    m.frame_index + steps as int,
                    m.frame_count,
                    1,
                    m.frame_index + steps as int - m.frame_count,
                );
            }
            self.frame_index = steps - room;
        } else {
            proof {
                lemma_small_mod((m.frame_index + steps as int) as nat, m.frame_count as nat);
            }
            self.frame_index = self.frame_index + steps;
        }
    }

    /// Re-arm the timer for a full interval without touching the frame; a
    /// dormant one-shot entity animates again only after this is called.
    pub fn reset_timer(&mut self)
        requires
            old(self)@.wf(),
        ensures
            final(self)@ == (SpriteModel {
                timer: TimerModel { remaining: old(self)@.timer.interval, ..old(self)@.timer },
                ..old(self)@
            }),
            final(self)@.wf(),
    {
        self.timer.reset();
    }

    /// The frame the host's render step should display.
    pub fn frame_index(&self) -> (r: u64)
        ensures
            r as int == self@.frame_index,
    {
        self.frame_index
    }

    pub fn frame_count(&self) -> (r: u64)
        ensures
            r as int == self@.frame_count,
    {
        self.frame_count
    }

    pub fn timer(&self) -> (r: &AnimationTimer)
        ensures
            r@ == self@.timer,
    {
        &self.timer
    }
}

/// A sprite sheet cut into a fixed grid holds one frame per cell, so its
/// frame count is `columns * rows`.
pub fn grid_frame_count(columns: u32, rows: u32) -> (r: u64)
    ensures
        r as int == columns as int * rows as int,
{
    proof {
        assert(columns as int * rows as int <= 0xffff_ffff * 0xffff_ffff) by (nonlinear_arith)
            requires
                columns as int <= 0xffff_ffff,
                rows as int <= 0xffff_ffff,
                columns as int >= 0,
                rows as int >= 0,
        ;
    }
    (columns as u64) * (rows as u64)
}

/// One frame-advance step keeps an entity valid and leaves its frame count
/// and timer configuration unchanged.
pub proof fn lemma_advanced_wf(s: SpriteModel, elapsed: int)
    requires
        s.wf(),
        elapsed >= 0,
    ensures
        s.advanced(elapsed).wf(),
        s.advanced(elapsed).frame_count == s.frame_count,
        s.advanced(elapsed).timer.interval == s.timer.interval,
        s.advanced(elapsed).timer.repeating == s.timer.repeating,
{
    lemma_ticked_wf(s.timer, elapsed);
    lemma_mod_division_less_than_divisor(s.frame_index + s.timer.fires(elapsed), s.frame_count);
}

/// Boundary law: zero elapsed time changes nothing — in particular it never
/// changes the frame index.
pub proof fn lemma_advanced_zero(s: SpriteModel)
    requires
        s.wf(),
    ensures
        s.advanced(0) == s,
{
    lemma_tick_zero(s.timer);
    lemma_small_mod(s.frame_index as nat, s.frame_count as nat);
}

/// Frame-advance steps compose: advancing by `a` and then by `b` is the same
/// as advancing once by `a + b`.
pub proof fn lemma_advanced_additive(s: SpriteModel, a: int, b: int)
    requires
        s.wf(),
        a >= 0,
        b >= 0,
    ensures
        s.advanced(a).advanced(b) == s.advanced(a + b),
{
    lemma_tick_additive(s.timer, a, b);
    lemma_ticked_wf(s.timer, a);
    let fa = s.timer.fires(a);
    let fb = s.timer.ticked(a).fires(b);
    lemma_add_mod_noop_right(fb, s.frame_index + fa, s.frame_count);
}

proof fn lemma_all_nonneg_drop_first(deltas: Seq<int>)
    requires
        deltas.len() > 0,
        all_nonneg(deltas),
    ensures
        all_nonneg(deltas.drop_first()),
{
    assert forall|k: int| 0 <= k < deltas.drop_first().len() implies deltas.drop_first()[k] >= 0 by {
        assert(deltas[k + 1] >= 0);
    }
}

/// The cumulative elapsed time of nonnegative ticks is nonnegative.
pub proof fn lemma_total_nonneg(deltas: Seq<int>)
    requires
        all_nonneg(deltas),
    ensures
        total_elapsed(deltas) >= 0,
    decreases deltas.len(),
{
    if deltas.len() > 0 {
        lemma_all_nonneg_drop_first(deltas);
        lemma_total_nonneg(deltas.drop_first());
    }
}

/// Law: for all entities, after any run of frame-advance steps the entity
/// stays valid — in particular `0 <= frame_index < frame_count`, with the
/// frame count itself never mutated.
pub proof fn lemma_frame_index_in_range(s: SpriteModel, deltas: Seq<int>)
    requires
        s.wf(),
        all_nonneg(deltas),
    ensures
        s.advanced_seq(deltas).wf(),
        0 <= s.advanced_seq(deltas).frame_index < s.frame_count,
        s.advanced_seq(deltas).frame_count == s.frame_count,
    decreases deltas.len(),
{
    if deltas.len() > 0 {
        lemma_advanced_wf(s, deltas[0]);
        lemma_all_nonneg_drop_first(deltas);
        lemma_frame_index_in_range(s.advanced(deltas[0]), deltas.drop_first());
    }
}

/// Law: a run of frame-advance steps equals one step with the cumulative
/// elapsed time. Overshoot carry loses nothing at tick boundaries, so how
/// the host slices time into ticks is irrelevant.
pub proof fn lemma_run_is_one_advance(s: SpriteModel, deltas: Seq<int>)
    requires
        s.wf(),
        all_nonneg(deltas),
    ensures
        s.advanced_seq(deltas) == s.advanced(total_elapsed(deltas)),
    decreases deltas.len(),
{
    if deltas.len() == 0 {
        lemma_advanced_zero(s);
    } else {
        let rest = deltas.drop_first();
        lemma_all_nonneg_drop_first(deltas);
        lemma_total_nonneg(rest);
        lemma_advanced_wf(s, deltas[0]);
        lemma_run_is_one_advance(s.advanced(deltas[0]), rest);
        lemma_advanced_additive(s, deltas[0], total_elapsed(rest));
    }
}

/// Law for a repeating entity freshly armed (`remaining == interval`): after
/// a run of ticks whose cumulative elapsed time is `T`, the frame index is
/// exactly `(start + T / interval) % frame_count` — floor division of the
/// cumulative time, not per-tick truncation.
pub proof fn lemma_repeating_cumulative(s: SpriteModel, deltas: Seq<int>)
    requires
        s.wf(),
        s.timer.repeating,
        s.timer.remaining == s.timer.interval,
        all_nonneg(deltas),
    ensures
        s.advanced_seq(deltas).frame_index == (s.frame_index + total_elapsed(deltas)
            / s.timer.interval) % s.frame_count,
{
    lemma_total_nonneg(deltas);
    lemma_run_is_one_advance(s, deltas);
    let t = total_elapsed(deltas);
    let i = s.timer.interval;
    if t < i {
        lemma_basic_div(t, i);
    } else {
        lemma_fundamental_div_mod(t, i);
        lemma_mod_division_less_than_divisor(t, i);
        assert((t / i - 1) * i == i * (t / i) - i) by (nonlinear_arith);
        lemma_fundamental_div_mod_converse(t - i, i, t / i - 1, t % i);
    }
}

/// Law for a one-shot entity: over any run of ticks the frame advances at
/// most once — exactly once as soon as the cumulative elapsed time reaches
/// the armed countdown, and never again afterwards.
pub proof fn lemma_one_shot_fires_at_most_once(s: SpriteModel, deltas: Seq<int>)
    requires
        s.wf(),
        !s.timer.repeating,
        all_nonneg(deltas),
    ensures
        s.advanced_seq(deltas).frame_index == if s.timer.remaining >= 1 && total_elapsed(deltas)
            >= s.timer.remaining {
            (s.frame_index + 1) % s.frame_count
        } else {
            s.frame_index
        },
{
    lemma_total_nonneg(deltas);
    lemma_run_is_one_advance(s, deltas);
    if !(s.timer.remaining >= 1 && total_elapsed(deltas) >= s.timer.remaining) {
        lemma_small_mod(s.frame_index as nat, s.frame_count as nat);
    }
}

} // verus!
