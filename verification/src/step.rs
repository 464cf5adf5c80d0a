//! The deterministic stepper: one fixed simulation step turned into force
//! and impulse requests.
//!
//! The stepper is a pure function of the step duration, the character's
//! physical attributes, the resolved input sample and the grounded-check
//! result.  It never writes velocity or position itself: the physics
//! integrator is the sole writer of physical state, and receives only the
//! deltas computed here.  Running it twice on equal arguments gives equal
//! output bit for bit, which is what lets a client predict ahead of the
//! server and replay past steps during rollback.

use vstd::prelude::*;

use crate::fixed::{
    abs_spec, move_toward2, norm_sq, scale_coord, spec_clamp2, spec_move_toward2,
    spec_scale_coord, DT_LIMIT, MASS_LIMIT, POS_LIMIT, SCALE, VEL_LIMIT,
};
use crate::input::InputSample;

verus! {

/// Top walking speed (5.5 units per second).
pub const MAX_SPEED: i64 = 5_500_000;

/// Acceleration cap (20 units per second squared): the velocity-space rate
/// limiter moves the ground velocity by at most this times the step
/// duration.
pub const MAX_ACCELERATION: i64 = 20_000_000;

/// The single-step upward impulse a grounded jump applies (5 units of
/// momentum).
pub const JUMP_IMPULSE: i64 = 5_000_000;

/// Radius of the character's capsule collider (0.5 units).
pub const CHARACTER_CAPSULE_RADIUS: i64 = 500_000;

/// Height of the character capsule's cylindrical section (0.5 units).
pub const CHARACTER_CAPSULE_HEIGHT: i64 = 500_000;

/// How far below the character's position the grounded ray starts: half the
/// capsule height plus the capsule radius (0.75 units).
pub const GROUND_RAY_OFFSET: i64 = 750_000;

/// How far down the grounded ray may travel and still count as a hit
/// (0.01 units).
pub const GROUND_RAY_MAX_DISTANCE: i64 = 10_000;

/// Fixed simulation rate: sixty-four steps per second.
pub const TICK_RATE_HZ: i64 = 64;

/// Duration of one fixed step, `SCALE / TICK_RATE_HZ` (1/64 second).
pub const TICK_DT: i64 = 15_625;

/// Largest force coordinate a step can request:
/// `MAX_ACCELERATION * MASS_LIMIT / SCALE * SCALE` worth of quanta.
pub const FORCE_LIMIT: i64 = 20_000_000_000_000_000;

/// A fixed-point vector in world space (x and z span the ground plane, y
/// points up).
#[derive(Clone, Copy, PartialEq, Eq, Structural, Debug)]
pub struct Vec3Fx {
    pub x: i64,
    pub y: i64,
    pub z: i64,
}

impl Vec3Fx {
    /// The zero vector.
    pub open spec fn zero_spec() -> Vec3Fx {
        Vec3Fx { x: 0, y: 0, z: 0 }
    }

    /// Builds the zero vector.
    pub fn zero() -> (r: Vec3Fx)
        ensures
            r == Vec3Fx::zero_spec(),
    {
        Vec3Fx { x: 0, y: 0, z: 0 }
    }

    /// Every coordinate within `limit` in magnitude.
    pub open spec fn in_bounds(self, limit: int) -> bool {
        abs_spec(self.x as int) <= limit && abs_spec(self.y as int) <= limit && abs_spec(
            self.z as int,
        ) <= limit
    }
}

/// The physical attributes of a simulated character that one step reads:
/// position and velocity as the integrator last wrote them, and the body's
/// mass.  The stepper never mutates them.
#[derive(Clone, Copy, PartialEq, Eq, Structural, Debug)]
pub struct CharacterPhysics {
    pub position: Vec3Fx,
    pub velocity: Vec3Fx,
    pub mass: i64,
}

impl CharacterPhysics {
    /// The machine bounds every simulated body respects.
    pub open spec fn wf(self) -> bool {
        &&& self.position.in_bounds(POS_LIMIT as int)
        &&& self.velocity.in_bounds(VEL_LIMIT as int)
        &&& 0 < self.mass <= MASS_LIMIT
    }
}

/// What one step hands the physics integrator: a force to apply over the
/// step, and a single-step impulse (cleared after consumption).
#[derive(Clone, Copy, PartialEq, Eq, Structural, Debug)]
pub struct StepOutput {
    pub force: Vec3Fx,
    pub impulse: Vec3Fx,
}

impl StepOutput {
    /// Output bounds every step guarantees.
    pub open spec fn wf(self) -> bool {
        self.force.in_bounds(FORCE_LIMIT as int) && self.impulse.in_bounds(JUMP_IMPULSE as int)
    }
}

/// Where the grounded check's downward ray starts: a fixed offset below the
/// character's current (not predicted) position.
pub open spec fn spec_ground_ray_origin(position: Vec3Fx) -> Vec3Fx {
    Vec3Fx { x: position.x, y: (position.y - GROUND_RAY_OFFSET) as i64, z: position.z }
}

/// Computes the origin of the grounded check's ray.  The caller casts the
/// ray straight down from here, over at most `GROUND_RAY_MAX_DISTANCE`,
/// excluding the character's own collider, and hands the hit flag to
/// `apply_character_action`.
pub fn ground_ray_origin(position: Vec3Fx) -> (r: Vec3Fx)
    requires
        position.in_bounds(POS_LIMIT as int),
    ensures
        r == spec_ground_ray_origin(position),
{
    Vec3Fx { x: position.x, y: position.y - GROUND_RAY_OFFSET, z: position.z }
}

/// The ground velocity one step steers toward: the clamped movement axis
/// remapped to the ground plane (x negated by the camera convention, the
/// axis' second coordinate becoming z), times the top speed.
pub open spec fn spec_desired_velocity(input: InputSample) -> (int, int) {
    let c = spec_clamp2(input.axis_x as int, input.axis_y as int, SCALE as int);
    (
        spec_scale_coord(-c.0, MAX_SPEED as int, SCALE as int),
        spec_scale_coord(c.1, MAX_SPEED as int, SCALE as int),
    )
}

/// The ground velocity after one step's rate limiter: moved from the
/// current toward the desired velocity by at most
/// `MAX_ACCELERATION * dt / SCALE`.
pub open spec fn spec_new_ground_velocity(dt: int, physics: CharacterPhysics, input: InputSample)
    -> (int, int) {
    let desired = spec_desired_velocity(input);
    let max_delta = MAX_ACCELERATION * dt / (SCALE as int);
    spec_move_toward2(
        physics.velocity.x as int,
        physics.velocity.z as int,
        desired.0,
        desired.1,
        max_delta,
    )
}

/// One deterministic step.  The impulse is the grounded jump; the force is
/// the mass times the acceleration that realizes the rate-limited velocity
/// change over `dt`; a zero-duration step requests no force.
pub open spec fn spec_apply_character_action(
    dt: int,
    physics: CharacterPhysics,
    input: InputSample,
    grounded: bool,
) -> StepOutput {
    let impulse = if input.jump && grounded {
        Vec3Fx { x: 0, y: JUMP_IMPULSE, z: 0 }
    } else {
        Vec3Fx::zero_spec()
    };
    let nv = spec_new_ground_velocity(dt, physics, input);
    let force = if dt == 0 {
        Vec3Fx::zero_spec()
    } else {
        Vec3Fx {
            x: spec_scale_coord(nv.0 - physics.velocity.x, physics.mass as int, dt) as i64,
            y: 0,
            z: spec_scale_coord(nv.1 - physics.velocity.z, physics.mass as int, dt) as i64,
        }
    };
    StepOutput { force, impulse }
}

/// Applies one character action step: computes the force and impulse
/// deltas for the physics integrator from the step duration, the current
/// physical state, the resolved input and the grounded-check result.
///
/// The output is exactly `spec_apply_character_action`; the impulse appears
/// when and only when the jump is pressed and the ground ray hit, and a
/// zero-duration step requests no force.
pub fn apply_character_action(
    dt: i64,
    physics: &CharacterPhysics,
    input: &InputSample,
    grounded: bool,
) -> (out: StepOutput)
    requires
        0 <= dt <= DT_LIMIT,
        physics.wf(),
        input.wf(),
    ensures
        out == spec_apply_character_action(dt as int, *physics, *input, grounded),
        out.impulse == (if input.jump && grounded {
            Vec3Fx { x: 0, y: JUMP_IMPULSE, z: 0 }
        } else {
            Vec3Fx::zero_spec()
        }),
        dt == 0 ==> out.force == Vec3Fx::zero_spec(),
        out.wf(),
{
    let impulse = if input.jump && grounded {
        Vec3Fx { x: 0, y: JUMP_IMPULSE, z: 0 }
    } else {
        Vec3Fx::zero()
    };

    let clamped = crate::fixed::clamp2(input.axis_x, input.axis_y, SCALE);
    proof {
        crate::fixed::lemma_norm_component(clamped.0 as int, clamped.1 as int, SCALE as int);
    }
    let desired_x = scale_coord(-clamped.0, MAX_SPEED, SCALE);
    let desired_z = scale_coord(clamped.1, MAX_SPEED, SCALE);

    let max_delta = MAX_ACCELERATION * dt / SCALE;
    proof {
        vstd::arithmetic::div_mod::lemma_div_is_ordered(
            MAX_ACCELERATION as int * dt as int,
            MAX_ACCELERATION as int * DT_LIMIT as int,
            SCALE as int,
        );
    }
    let nv = move_toward2(physics.velocity.x, physics.velocity.z, desired_x, desired_z, max_delta);

    let force = if dt == 0 {
        Vec3Fx::zero()
    } else {
        let dvx = nv.0 - physics.velocity.x;
        let dvz = nv.1 - physics.velocity.z;
        proof {
            assert(abs_spec(dvx as int) * physics.mass <= i64::MAX && abs_spec(dvz as int)
                * physics.mass <= i64::MAX) by (nonlinear_arith)
                requires
                    abs_spec(dvx as int) <= 20_000_000,
                    abs_spec(dvz as int) <= 20_000_000,
                    0 < physics.mass <= 1_000_000_000,
            ;
        }
        let fx = scale_coord(dvx, physics.mass, dt);
        let fz = scale_coord(dvz, physics.mass, dt);
        proof {
            lemma_force_bounded(dvx as int, physics.mass as int, dt as int);
            lemma_force_bounded(dvz as int, physics.mass as int, dt as int);
        }
        Vec3Fx { x: fx, y: 0, z: fz }
    };

    StepOutput { force, impulse }
}

/// A force coordinate stays within `FORCE_LIMIT` whenever the velocity
/// delta is rate-limited and the body's mass is in bounds.
proof fn lemma_force_bounded(dv: int, mass: int, dt: int)
    requires
        abs_spec(dv) <= MAX_ACCELERATION,
        0 < mass <= MASS_LIMIT,
        dt >= 1,
    ensures
        abs_spec(spec_scale_coord(dv, mass, dt)) <= FORCE_LIMIT,
{
    crate::fixed::lemma_scale_coord_bounds(dv, mass, dt);
    assert(abs_spec(dv) * mass <= 20_000_000_000_000_000) by (nonlinear_arith)
        requires
            0 <= abs_spec(dv) <= 20_000_000,
            0 < mass <= 1_000_000_000,
    ;
    let p = abs_spec(dv) * mass;
    vstd::arithmetic::div_mod::lemma_fundamental_div_mod(p, dt);
    vstd::arithmetic::div_mod::lemma_mod_bound(p, dt);
    let q = p / dt;
    assert(q <= p) by (nonlinear_arith)
        requires
            dt * q <= p,
            dt >= 1,
            q >= 0,
    ;
}

/// One entity's whole per-tick flow, as every participant runs it for every
/// entity it simulates: read the effective tick (the rollback replay tick
/// while rolling back), resolve the input to act on, and step.  The caller
/// performs the grounded ray cast (from `ground_ray_origin`, straight down)
/// and hands its result in.
pub fn handle_character_action(
    current_tick: u64,
    rollback_tick: Option<u64>,
    history: &crate::history::InputHistory,
    physics: &CharacterPhysics,
    grounded: bool,
    dt: i64,
) -> (out: StepOutput)
    requires
        rollback_tick matches Some(t) ==> t <= current_tick,
        history.wf(),
        crate::history::samples_wf(history@),
        physics.wf(),
        0 <= dt <= DT_LIMIT,
    ensures
        out == spec_apply_character_action(
            dt as int,
            *physics,
            crate::history::spec_resolve(
                history@,
                crate::clock::spec_effective_tick(current_tick, rollback_tick),
            ),
            grounded,
        ),
        out.wf(),
{
    let tick = crate::clock::effective_tick(current_tick, rollback_tick);
    let input = history.resolve(tick);
    proof {
        crate::history::lemma_resolve_wf(history@, tick);
    }
    apply_character_action(dt, physics, &input, grounded)
}

/// Determinism: a step is a function of its arguments alone.  Two steps
/// given equal durations, physical states, inputs and grounded-check
/// results produce equal output, on any two machines.
pub proof fn lemma_step_deterministic(
    dt1: int,
    physics1: CharacterPhysics,
    input1: InputSample,
    grounded1: bool,
    dt2: int,
    physics2: CharacterPhysics,
    input2: InputSample,
    grounded2: bool,
)
    requires
        dt1 == dt2,
        physics1 == physics2,
        input1 == input2,
        grounded1 == grounded2,
    ensures
        spec_apply_character_action(dt1, physics1, input1, grounded1)
            == spec_apply_character_action(dt2, physics2, input2, grounded2),
{
}

/// Rate-limited acceleration: the ground velocity one step steers toward
/// differs from the current one by a vector no longer than
/// `MAX_ACCELERATION * dt / SCALE`, whatever the input asks for.
pub proof fn lemma_step_rate_limited(dt: int, physics: CharacterPhysics, input: InputSample)
    requires
        0 <= dt <= DT_LIMIT,
    ensures
        ({
            let nv = spec_new_ground_velocity(dt, physics, input);
            let max_delta = MAX_ACCELERATION * dt / (SCALE as int);
            norm_sq(nv.0 - physics.velocity.x, nv.1 - physics.velocity.z) <= max_delta * max_delta
        }),
{
    let desired = spec_desired_velocity(input);
    let max_delta = MAX_ACCELERATION * dt / (SCALE as int);
    vstd::arithmetic::div_mod::lemma_div_pos_is_pos(MAX_ACCELERATION as int * dt, SCALE as int);
    crate::fixed::lemma_move_toward2_rate_limited(
        physics.velocity.x as int,
        physics.velocity.z as int,
        desired.0,
        desired.1,
        max_delta,
    );
}

} // verus!
