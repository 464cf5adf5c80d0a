//! Fan-out targeting and rollback replay.

use zinnobre_iron::fanout::fan_out_targets;
use zinnobre_iron::history::InputHistory;
use zinnobre_iron::input::InputSample;
use zinnobre_iron::replay::{integrate, replay};
use zinnobre_iron::step::{apply_character_action, CharacterPhysics, Vec3Fx, TICK_DT};

#[test]
fn fan_out_excludes_the_origin() {
    let connected: Vec<u64> = vec![1, 2, 3];
    let targets = fan_out_targets(2, &connected);
    assert_eq!(targets, vec![1, 3]);
    assert!(!targets.contains(&2));
    // Every other connected client appears exactly once.
    for c in [1u64, 3] {
        assert_eq!(targets.iter().filter(|&&t| t == c).count(), 1);
    }
}

#[test]
fn fan_out_keeps_connection_order() {
    let connected: Vec<u64> = vec![9, 4, 7, 1];
    assert_eq!(fan_out_targets(4, &connected), vec![9, 7, 1]);
    assert_eq!(fan_out_targets(9, &connected), vec![4, 7, 1]);
    assert_eq!(fan_out_targets(1, &connected), vec![9, 4, 7]);
}

#[test]
fn fan_out_to_nobody_when_alone() {
    let connected: Vec<u64> = vec![5];
    assert_eq!(fan_out_targets(5, &connected), Vec::<u64>::new());
    let empty: Vec<u64> = Vec::new();
    assert_eq!(fan_out_targets(5, &empty), Vec::<u64>::new());
}

#[test]
fn fan_out_of_unknown_origin_reaches_everyone() {
    let connected: Vec<u64> = vec![1, 2, 3];
    assert_eq!(fan_out_targets(9, &connected), vec![1, 2, 3]);
}

fn authoritative_history() -> InputHistory {
    let mut h = InputHistory::new(32);
    h.record(10, InputSample { axis_x: -1_000_000, axis_y: 0, jump: false });
    h.record(12, InputSample { axis_x: 0, axis_y: 1_000_000, jump: false });
    h.record(14, InputSample { axis_x: 500_000, axis_y: -500_000, jump: true });
    h
}

fn snapshot() -> CharacterPhysics {
    CharacterPhysics {
        position: Vec3Fx { x: 0, y: 750_000, z: 0 },
        velocity: Vec3Fx { x: 0, y: 0, z: 0 },
        mass: 1_000_000,
    }
}

#[test]
fn replay_reproduces_forward_simulation() {
    let h = authoritative_history();
    let grounded = vec![true, true, false, true, true];

    // The authority stepped these ticks one by one.
    let mut auth = snapshot();
    for (k, g) in grounded.iter().enumerate() {
        let input = h.resolve(10 + k as u64);
        let out = apply_character_action(TICK_DT, &auth, &input, *g);
        auth = integrate(&auth, &out, TICK_DT);
    }

    // A client replaying the window from the same snapshot converges on the
    // same state, whatever its discarded prediction said.
    let replayed = replay(&snapshot(), &h, 10, &grounded, TICK_DT);
    assert_eq!(replayed, auth);
}

#[test]
fn replay_is_deterministic() {
    let h = authoritative_history();
    let grounded = vec![true, false, true];
    let once = replay(&snapshot(), &h, 11, &grounded, TICK_DT);
    let twice = replay(&snapshot(), &h, 11, &grounded, TICK_DT);
    assert_eq!(once, twice);
}

#[test]
fn replay_of_nothing_is_the_snapshot() {
    let h = authoritative_history();
    let grounded: Vec<bool> = Vec::new();
    assert_eq!(replay(&snapshot(), &h, 10, &grounded, TICK_DT), snapshot());
}

#[test]
fn integrate_applies_force_and_impulse() {
    let state = snapshot();
    let out = zinnobre_iron::step::StepOutput {
        force: Vec3Fx { x: 20_000_000, y: 0, z: 0 },
        impulse: Vec3Fx { x: 0, y: 5_000_000, z: 0 },
    };
    let next = integrate(&state, &out, TICK_DT);
    // dv = force * dt / mass: 20 * (1/64) / 1 = 0.3125 units/s.
    assert_eq!(next.velocity.x, 312_500);
    // dv = impulse / mass: 5 / 1 = 5 units/s.
    assert_eq!(next.velocity.y, 5_000_000);
    assert_eq!(next.velocity.z, 0);
    // position advances by the new velocity over the step.
    assert_eq!(next.position.x, 312_500 * TICK_DT / 1_000_000);
    assert_eq!(next.position.y, 750_000 + 5_000_000 * TICK_DT / 1_000_000);
    assert_eq!(next.mass, state.mass);
}
