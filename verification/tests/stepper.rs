//! The deterministic stepper: determinism, rate limiting, jump gating,
//! degenerate steps.

use zinnobre_iron::fixed::move_toward2;
use zinnobre_iron::history::InputHistory;
use zinnobre_iron::input::InputSample;
use zinnobre_iron::step::{
    apply_character_action, ground_ray_origin, CharacterPhysics, Vec3Fx, GROUND_RAY_OFFSET,
    JUMP_IMPULSE, MAX_ACCELERATION, TICK_DT,
};

fn resting_character() -> CharacterPhysics {
    CharacterPhysics {
        position: Vec3Fx { x: 0, y: 750_000, z: 0 },
        velocity: Vec3Fx { x: 0, y: 0, z: 0 },
        mass: 1_000_000,
    }
}

#[test]
fn step_is_deterministic() {
    let physics = resting_character();
    let input = InputSample { axis_x: -333_333, axis_y: 777_777, jump: true };
    let first = apply_character_action(TICK_DT, &physics, &input, true);
    for _ in 0..10 {
        let again = apply_character_action(TICK_DT, &physics, &input, true);
        assert_eq!(again, first);
    }
}

#[test]
fn acceleration_is_rate_limited() {
    // dt = 1/64 s, cap 20 units/s^2: one step moves the velocity by at most
    // 0.3125 units/s, whatever the input asks for.
    let max_delta = MAX_ACCELERATION * TICK_DT / 1_000_000;
    assert_eq!(max_delta, 312_500);
    let new_v = move_toward2(0, 0, 5_500_000, 0, max_delta);
    assert_eq!(new_v, (312_500, 0));
    let dvx = (new_v.0 - 0) as i128;
    let dvz = (new_v.1 - 0) as i128;
    assert!(dvx * dvx + dvz * dvz <= (max_delta as i128) * (max_delta as i128));
}

#[test]
fn rate_limit_holds_diagonally() {
    let max_delta = 312_500i64;
    let new_v = move_toward2(0, 0, 3_889_087, 3_889_087, max_delta);
    let dvx = new_v.0 as i128;
    let dvz = new_v.1 as i128;
    assert!(dvx * dvx + dvz * dvz <= (max_delta as i128) * (max_delta as i128));
    assert!(dvx > 0 && dvz > 0);
}

#[test]
fn near_destination_is_reached_exactly() {
    let new_v = move_toward2(5_000_000, 0, 5_100_000, 0, 312_500);
    assert_eq!(new_v, (5_100_000, 0));
}

#[test]
fn full_deflection_step_requests_twenty_units_of_force() {
    let physics = resting_character();
    // Full deflection to the camera's left: desired velocity (5.5, 0).
    let input = InputSample { axis_x: -1_000_000, axis_y: 0, jump: false };
    let out = apply_character_action(TICK_DT, &physics, &input, false);
    // mass 1.0 times 20 units/s^2: exactly the acceleration cap.
    assert_eq!(out.force, Vec3Fx { x: 20_000_000, y: 0, z: 0 });
    assert_eq!(out.impulse, Vec3Fx { x: 0, y: 0, z: 0 });
}

#[test]
fn jump_gating_follows_the_ground_ray() {
    let physics = resting_character();
    let jump = InputSample { axis_x: 0, axis_y: 0, jump: true };
    let idle = InputSample { axis_x: 0, axis_y: 0, jump: false };

    let grounded = apply_character_action(TICK_DT, &physics, &jump, true);
    assert_eq!(grounded.impulse, Vec3Fx { x: 0, y: JUMP_IMPULSE, z: 0 });

    let airborne = apply_character_action(TICK_DT, &physics, &jump, false);
    assert_eq!(airborne.impulse, Vec3Fx { x: 0, y: 0, z: 0 });

    let no_jump = apply_character_action(TICK_DT, &physics, &idle, true);
    assert_eq!(no_jump.impulse, Vec3Fx { x: 0, y: 0, z: 0 });
}

#[test]
fn zero_duration_step_requests_no_force() {
    let physics = resting_character();
    let input = InputSample { axis_x: -1_000_000, axis_y: 0, jump: true };
    let out = apply_character_action(0, &physics, &input, true);
    assert_eq!(out.force, Vec3Fx { x: 0, y: 0, z: 0 });
    // The grounded jump is an impulse, not a force: it still fires.
    assert_eq!(out.impulse, Vec3Fx { x: 0, y: JUMP_IMPULSE, z: 0 });
}

#[test]
fn zero_axis_decelerates_toward_rest() {
    let physics = CharacterPhysics {
        position: Vec3Fx { x: 0, y: 750_000, z: 0 },
        velocity: Vec3Fx { x: 5_500_000, y: 0, z: 0 },
        mass: 1_000_000,
    };
    let input = InputSample { axis_x: 0, axis_y: 0, jump: false };
    let out = apply_character_action(TICK_DT, &physics, &input, false);
    // Desired velocity is zero: the force pushes against the motion.
    assert!(out.force.x < 0);
    assert_eq!(out.force.z, 0);
}

#[test]
fn ground_ray_starts_below_the_capsule() {
    let origin = ground_ray_origin(Vec3Fx { x: 1_000_000, y: 2_000_000, z: 3_000_000 });
    assert_eq!(
        origin,
        Vec3Fx { x: 1_000_000, y: 2_000_000 - GROUND_RAY_OFFSET, z: 3_000_000 }
    );
    assert_eq!(GROUND_RAY_OFFSET, 750_000);
}

#[test]
fn per_tick_flow_uses_the_rollback_tick() {
    let physics = resting_character();
    let mut h = InputHistory::new(8);
    let early = InputSample { axis_x: 0, axis_y: 0, jump: true };
    let late = InputSample { axis_x: 0, axis_y: 0, jump: false };
    h.record(3, early);
    h.record(7, late);

    // Live at tick 9: the latest sample applies, no jump.
    let live = zinnobre_iron::step::handle_character_action(9, None, &h, &physics, true, TICK_DT);
    assert_eq!(live.impulse, Vec3Fx { x: 0, y: 0, z: 0 });

    // Rolling back to tick 4: the replayed step sees the old jump.
    let replayed =
        zinnobre_iron::step::handle_character_action(9, Some(4), &h, &physics, true, TICK_DT);
    assert_eq!(replayed.impulse, Vec3Fx { x: 0, y: JUMP_IMPULSE, z: 0 });
}

#[test]
fn axis_is_remapped_with_sign_convention() {
    let physics = resting_character();
    // A 3-4-5 axis of unit length: x negated, y becoming z.
    let input = InputSample { axis_x: 600_000, axis_y: 800_000, jump: false };
    let out = apply_character_action(TICK_DT, &physics, &input, false);
    assert!(out.force.x < 0);
    assert!(out.force.z > 0);
}
