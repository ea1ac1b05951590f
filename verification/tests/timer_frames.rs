use ecosim::sprite::{grid_frame_count, AnimatedSprite, SpawnError};
use ecosim::timer::AnimationTimer;

#[test]
fn repeating_full_cycle_returns_to_start() {
    // interval 0.1 s, 11 frames, repeating: 11 ticks of 0.1 s are one full cycle
    let mut s = AnimatedSprite::new(100, true, 11).unwrap();
    assert_eq!(s.frame_index(), 0);
    for _ in 0..11 {
        s.advance(100);
    }
    assert_eq!(s.frame_index(), 0);
}

#[test]
fn repeating_23_ticks_wraps_to_one() {
    // 23 ticks of the interval: 23 mod 11 == 1
    let mut s = AnimatedSprite::new(100, true, 11).unwrap();
    for _ in 0..23 {
        s.advance(100);
    }
    assert_eq!(s.frame_index(), 1);
}

#[test]
fn one_shot_fires_exactly_once() {
    // interval 0.5 s, one-shot: a 0.6 s delta fires once, a further 1.0 s does not
    let mut s = AnimatedSprite::new(500, false, 4).unwrap();
    s.advance(600);
    assert_eq!(s.frame_index(), 1);
    s.advance(1000);
    assert_eq!(s.frame_index(), 1);
}

#[test]
fn one_shot_fires_again_after_reset() {
    let mut s = AnimatedSprite::new(500, false, 4).unwrap();
    s.advance(700);
    assert_eq!(s.frame_index(), 1);
    s.reset_timer();
    s.advance(500);
    assert_eq!(s.frame_index(), 2);
}

#[test]
fn zero_elapsed_changes_nothing() {
    let mut s = AnimatedSprite::new(100, true, 11).unwrap();
    s.advance(0);
    assert_eq!(s.frame_index(), 0);
    s.advance(30);
    s.advance(0);
    assert_eq!(s.frame_index(), 0);
    s.advance(70);
    assert_eq!(s.frame_index(), 1);
    s.advance(0);
    assert_eq!(s.frame_index(), 1);
}

#[test]
fn empty_sheet_is_rejected_at_spawn() {
    assert_eq!(AnimatedSprite::new(100, true, 0).unwrap_err(), SpawnError::EmptySheet);
    assert_eq!(AnimatedSprite::new(0, true, 0).unwrap_err(), SpawnError::EmptySheet);
}

#[test]
fn zero_interval_is_rejected_at_spawn() {
    assert_eq!(AnimatedSprite::new(0, true, 11).unwrap_err(), SpawnError::ZeroInterval);
    assert_eq!(AnimatedSprite::new(0, false, 1).unwrap_err(), SpawnError::ZeroInterval);
    assert!(AnimationTimer::new(0, true).is_none());
}

#[test]
fn overshoot_advances_several_frames_at_once() {
    // a 0.25 s delta against a 0.1 s interval completes two cycles,
    // leaving 0.05 s toward the third
    let mut s = AnimatedSprite::new(100, true, 11).unwrap();
    s.advance(250);
    assert_eq!(s.frame_index(), 2);
    s.advance(50);
    assert_eq!(s.frame_index(), 3);
}

#[test]
fn overshoot_is_carried_not_truncated() {
    // 30 ms + 80 ms = 110 ms: floor(110 / 100) = 1 frame; per-tick
    // truncation would drop both partial ticks and advance none
    let mut s = AnimatedSprite::new(100, true, 11).unwrap();
    s.advance(30);
    assert_eq!(s.frame_index(), 0);
    s.advance(80);
    assert_eq!(s.frame_index(), 1);
}

#[test]
fn cumulative_time_matches_floor_formula() {
    // frame_index == floor(T / I) mod F for a fresh repeating timer
    let deltas: [u64; 7] = [30, 80, 250, 0, 100, 99, 41];
    let interval: u64 = 100;
    let frames: u64 = 11;
    let mut s = AnimatedSprite::new(interval, true, frames).unwrap();
    let mut total: u64 = 0;
    for d in deltas {
        s.advance(d);
        total += d;
        assert_eq!(s.frame_index(), (total / interval) % frames);
    }
}

#[test]
fn frame_index_stays_in_range() {
    let mut s = AnimatedSprite::new(7, true, 5).unwrap();
    let deltas: [u64; 8] = [1, 13, 0, 6, 7, 200, 3, 9999];
    for d in deltas {
        s.advance(d);
        assert!(s.frame_index() < s.frame_count());
    }
}

#[test]
fn huge_elapsed_delta_is_exact() {
    // 2^64 - 1 milliseconds against a 1 ms interval: u64::MAX completions,
    // and u64::MAX is divisible by 3
    let mut s = AnimatedSprite::new(1, true, 3).unwrap();
    s.advance(u64::MAX);
    assert_eq!(s.frame_index(), 0);
    s.advance(1);
    assert_eq!(s.frame_index(), 1);
}

#[test]
fn timer_reports_completions_and_remaining() {
    let mut t = AnimationTimer::new(100, true).unwrap();
    assert_eq!(t.interval_ms(), 100);
    assert!(t.is_repeating());
    assert_eq!(t.remaining_ms(), 100);
    assert_eq!(t.tick(30), 0);
    assert_eq!(t.remaining_ms(), 70);
    assert_eq!(t.tick(250), 2);
    assert_eq!(t.remaining_ms(), 20);
    t.reset();
    assert_eq!(t.remaining_ms(), 100);
}

#[test]
fn one_shot_timer_goes_dormant() {
    let mut t = AnimationTimer::new(500, false).unwrap();
    assert!(!t.is_repeating());
    assert_eq!(t.tick(600), 1);
    assert_eq!(t.remaining_ms(), 0);
    assert_eq!(t.tick(1000), 0);
    assert_eq!(t.remaining_ms(), 0);
}

#[test]
fn sprite_exposes_its_timer() {
    let mut s = AnimatedSprite::new(100, true, 11).unwrap();
    s.advance(30);
    assert_eq!(s.timer().remaining_ms(), 70);
    assert_eq!(s.timer().interval_ms(), 100);
    assert!(s.timer().is_repeating());
}

#[test]
fn grid_frame_counts_multiply() {
    assert_eq!(grid_frame_count(11, 1), 11);
    assert_eq!(grid_frame_count(4, 2), 8);
    assert_eq!(grid_frame_count(5, 3), 15);
    assert_eq!(grid_frame_count(0, 9), 0);
    assert_eq!(grid_frame_count(u32::MAX, u32::MAX), 18446744065119617025);
}
