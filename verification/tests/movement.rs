//! The velocity-writing movement variant and the planar helpers.

use zinnobre_iron::fixed::{ceil_isqrt, clamp2, scale_coord, SCALE};
use zinnobre_iron::input::{wish_velocity, BasicMovement};

#[test]
fn wish_velocity_scales_a_unit_axis() {
    // A 3-4-5 axis of exactly unit length passes the clamp untouched.
    let v = wish_velocity(600_000, 800_000, 5_500_000);
    assert_eq!(v, (3_300_000, 4_400_000));
}

#[test]
fn wish_velocity_clamps_long_axes() {
    // Five times too long: clamped back onto the unit circle first.
    let v = wish_velocity(3_000_000, 4_000_000, 5_500_000);
    assert_eq!(v, (3_300_000, 4_400_000));
}

#[test]
fn wish_velocity_keeps_zero_at_rest() {
    assert_eq!(wish_velocity(0, 0, 5_500_000), (0, 0));
}

#[test]
fn wish_velocity_never_exceeds_the_walk_speed() {
    let speed = 5_500_000i64;
    for (x, y) in [(1_000_000i64, 1_000_000i64), (-10_000_000, 3), (9_999_999, -9_999_999)] {
        let (vx, vy) = wish_velocity(x, y, speed);
        assert!(vx.abs() <= speed && vy.abs() <= speed);
        let n = (vx as i128) * (vx as i128) + (vy as i128) * (vy as i128);
        assert!(n <= (speed as i128) * (speed as i128));
    }
}

#[test]
fn default_movement_walks_at_five_and_a_half() {
    let m = BasicMovement::default();
    assert_eq!(m.move_speed, 5_500_000);
    assert_eq!(m.ground_tick, 0);
}

#[test]
fn clamp_keeps_short_vectors_exact() {
    assert_eq!(clamp2(300_000, -400_000, SCALE), (300_000, -400_000));
}

#[test]
fn clamp_shortens_in_place() {
    let (x, y) = clamp2(-3_000_000, 4_000_000, SCALE);
    assert_eq!((x, y), (-600_000, 800_000));
}

#[test]
fn square_roots_round_up() {
    assert_eq!(ceil_isqrt(0), 0);
    assert_eq!(ceil_isqrt(1), 1);
    assert_eq!(ceil_isqrt(2), 2);
    assert_eq!(ceil_isqrt(4), 2);
    assert_eq!(ceil_isqrt(25_000_000_000_000), 5_000_000);
    assert_eq!(ceil_isqrt(25_000_000_000_001), 5_000_001);
}

#[test]
fn scaling_rounds_toward_zero() {
    assert_eq!(scale_coord(707_107, 5_500_000, SCALE), 3_889_088);
    assert_eq!(scale_coord(-707_107, 5_500_000, SCALE), -3_889_088);
    assert_eq!(scale_coord(0, 5_500_000, SCALE), 0);
}
