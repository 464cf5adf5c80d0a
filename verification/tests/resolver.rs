//! The input resolver: exact hits, fallback, neutrality, eviction.

use zinnobre_iron::history::InputHistory;
use zinnobre_iron::input::InputSample;

fn sample(axis_x: i64, jump: bool) -> InputSample {
    InputSample { axis_x, axis_y: 0, jump }
}

#[test]
fn resolve_exact_and_fallback() {
    let mut h = InputHistory::new(16);
    let a = sample(1, false);
    let b = sample(2, true);
    h.record(5, a);
    h.record(8, b);
    assert_eq!(h.resolve(6), a);
    assert_eq!(h.resolve(5), a);
    assert_eq!(h.resolve(9), b);
    assert_eq!(h.resolve(4), InputSample::neutral());
}

#[test]
fn resolve_empty_is_neutral() {
    let h = InputHistory::new(4);
    assert_eq!(h.resolve(0), InputSample::neutral());
    assert_eq!(h.resolve(u64::MAX), InputSample::neutral());
}

#[test]
fn resolve_never_returns_future_entries() {
    let mut h = InputHistory::new(4);
    let b = sample(9, true);
    h.record(8, b);
    // Only a future entry exists: the past must stay neutral, not borrow it.
    assert_eq!(h.resolve(7), InputSample::neutral());
    assert_eq!(h.resolve(8), b);
}

#[test]
fn resolve_exact_match_beats_fallback() {
    let mut h = InputHistory::new(8);
    let a = sample(1, false);
    let b = sample(2, false);
    let c = sample(3, false);
    h.record(1, a);
    h.record(2, b);
    h.record(3, c);
    assert_eq!(h.resolve(2), b);
}

#[test]
fn out_of_order_delivery_is_retrievable() {
    let mut h = InputHistory::new(8);
    let late = sample(7, false);
    let newer = sample(9, false);
    h.record(10, newer);
    h.record(6, late);
    assert_eq!(h.resolve(6), late);
    assert_eq!(h.resolve(8), late);
    assert_eq!(h.resolve(10), newer);
}

#[test]
fn duplicate_tick_keeps_first_sample() {
    let mut h = InputHistory::new(8);
    let a = sample(1, false);
    let b = sample(2, false);
    h.record(5, a);
    h.record(5, b);
    assert_eq!(h.resolve(5), a);
}

#[test]
fn eviction_never_removes_newest() {
    let mut h = InputHistory::new(3);
    let s1 = sample(1, false);
    let s2 = sample(2, false);
    let s3 = sample(3, false);
    let s4 = sample(4, false);
    h.record(1, s1);
    h.record(2, s2);
    h.record(3, s3);
    assert_eq!(h.len(), 3);
    h.record(4, s4);
    // The depth bound held: the oldest entry went, the newest stayed.
    assert_eq!(h.len(), 3);
    assert_eq!(h.latest(), Some((4, s4)));
    assert_eq!(h.resolve(4), s4);
    assert_eq!(h.resolve(1), InputSample::neutral());
}

#[test]
fn full_history_refuses_too_old_ticks() {
    let mut h = InputHistory::new(2);
    let s5 = sample(5, false);
    let s6 = sample(6, false);
    let s1 = sample(1, false);
    h.record(5, s5);
    h.record(6, s6);
    h.record(1, s1);
    // The stale write was not admitted; nothing newer was evicted for it.
    assert_eq!(h.len(), 2);
    assert_eq!(h.resolve(5), s5);
    assert_eq!(h.resolve(6), s6);
    assert_eq!(h.resolve(4), InputSample::neutral());
}

#[test]
fn depth_bound_holds_under_many_writes() {
    let mut h = InputHistory::new(4);
    for t in 0..100u64 {
        h.record(t, sample(t as i64, false));
    }
    assert_eq!(h.len(), 4);
    assert_eq!(h.latest(), Some((99, sample(99, false))));
}

#[test]
fn clamp_replay_start_degrades_to_oldest() {
    let mut h = InputHistory::new(8);
    h.record(5, sample(1, false));
    h.record(9, sample(2, false));
    assert_eq!(h.clamp_replay_start(3), 5);
    assert_eq!(h.clamp_replay_start(7), 7);
    let empty = InputHistory::new(8);
    assert_eq!(empty.clamp_replay_start(3), 3);
}
