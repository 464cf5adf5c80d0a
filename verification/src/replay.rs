//! Rollback replay: re-simulating a window of past ticks.
//!
//! When a later-arriving authoritative snapshot disagrees with a client's
//! prediction, the rollback framework discards the speculative states and
//! re-runs the window from the divergence point, feeding each replayed
//! step the previous replayed step's output.  The stepper itself carries no
//! replay control; this module supplies the window walk, built on the same
//! `apply_character_action` that forward simulation uses, together with a
//! reference integrator that advances a state by one step's output the way
//! the external solver does (semi-implicit, force over the step plus the
//! one-shot impulse, then position from the new velocity).

use vstd::prelude::*;

use crate::fixed::{
    clamp_i128, clamp_to, scale_i128, spec_scale_coord, DT_LIMIT, POS_LIMIT, SCALE, VEL_LIMIT,
};
use crate::history::{lemma_resolve_wf, samples_wf, spec_resolve, InputHistory};
use crate::input::InputSample;
use crate::step::{
    apply_character_action, spec_apply_character_action, CharacterPhysics, StepOutput, Vec3Fx,
};

verus! {

/// One velocity coordinate after a step's output is applied: the force
/// acting over the step, plus the one-shot impulse, both divided by the
/// body's mass, clamped to the machine bound.
pub open spec fn spec_integrate_velocity(v: int, force: int, impulse: int, mass: int, dt: int)
    -> int
    recommends
        mass > 0,
        dt >= 0,
{
    clamp_to(
        v + spec_scale_coord(force, dt, mass) + spec_scale_coord(impulse, SCALE as int, mass),
        VEL_LIMIT as int,
    )
}

/// One position coordinate advanced by the new velocity over the step,
/// clamped to the machine bound.
pub open spec fn spec_integrate_position(p: int, v: int, dt: int) -> int
    recommends
        dt >= 0,
{
    clamp_to(p + spec_scale_coord(v, dt, SCALE as int), POS_LIMIT as int)
}

/// The state one step's output advances to.
pub open spec fn spec_integrate(state: CharacterPhysics, out: StepOutput, dt: int)
    -> CharacterPhysics
    recommends
        state.mass > 0,
        dt >= 0,
{
    let vx = spec_integrate_velocity(
        state.velocity.x as int,
        out.force.x as int,
        out.impulse.x as int,
        state.mass as int,
        dt,
    );
    let vy = spec_integrate_velocity(
        state.velocity.y as int,
        out.force.y as int,
        out.impulse.y as int,
        state.mass as int,
        dt,
    );
    let vz = spec_integrate_velocity(
        state.velocity.z as int,
        out.force.z as int,
        out.impulse.z as int,
        state.mass as int,
        dt,
    );
    CharacterPhysics {
        position: Vec3Fx {
            x: spec_integrate_position(state.position.x as int, vx, dt) as i64,
            y: spec_integrate_position(state.position.y as int, vy, dt) as i64,
            z: spec_integrate_position(state.position.z as int, vz, dt) as i64,
        },
        velocity: Vec3Fx { x: vx as i64, y: vy as i64, z: vz as i64 },
        mass: state.mass,
    }
}

fn integrate_velocity(v: i64, force: i64, impulse: i64, mass: i64, dt: i64) -> (r: i64)
    requires
        0 < mass,
        0 <= dt <= DT_LIMIT,
    ensures
        r == spec_integrate_velocity(v as int, force as int, impulse as int, mass as int, dt as int),
        crate::fixed::abs_spec(r as int) <= VEL_LIMIT,
{
    let dv_force = scale_i128(force, dt, mass);
    let dv_impulse = scale_i128(impulse, SCALE, mass);
    proof {
        assert(crate::fixed::abs_spec(force as int) * dt <= 0x10_0000_0000_0000_0000_0000_0000
            && crate::fixed::abs_spec(impulse as int) * (SCALE as int)
            <= 0x10_0000_0000_0000_0000_0000_0000) by (nonlinear_arith)
            requires
                0 <= crate::fixed::abs_spec(force as int) <= 0x8000_0000_0000_0000,
                0 <= crate::fixed::abs_spec(impulse as int) <= 0x8000_0000_0000_0000,
                0 <= dt <= 1_000_000,
        ;
    }
    clamp_i128(v as i128 + dv_force + dv_impulse, VEL_LIMIT)
}

fn integrate_position(p: i64, v: i64, dt: i64) -> (r: i64)
    requires
        0 <= dt <= DT_LIMIT,
    ensures
        r == spec_integrate_position(p as int, v as int, dt as int),
        crate::fixed::abs_spec(r as int) <= POS_LIMIT,
{
    let dp = scale_i128(v, dt, SCALE);
    proof {
        assert(crate::fixed::abs_spec(v as int) * dt <= 0x10_0000_0000_0000_0000_0000_0000)
            by (nonlinear_arith)
            requires
                0 <= crate::fixed::abs_spec(v as int) <= 0x8000_0000_0000_0000,
                0 <= dt <= 1_000_000,
        ;
    }
    clamp_i128(p as i128 + dp, POS_LIMIT)
}

/// Advances a state by one step's output, the reference model of what the
/// external integrator does with the requested deltas.
pub fn integrate(state: &CharacterPhysics, out: &StepOutput, dt: i64) -> (r: CharacterPhysics)
    requires
        state.wf(),
        0 <= dt <= DT_LIMIT,
    ensures
        r == spec_integrate(*state, *out, dt as int),
        r.wf(),
{
    let vx = integrate_velocity(state.velocity.x, out.force.x, out.impulse.x, state.mass, dt);
    let vy = integrate_velocity(state.velocity.y, out.force.y, out.impulse.y, state.mass, dt);
    let vz = integrate_velocity(state.velocity.z, out.force.z, out.impulse.z, state.mass, dt);
    let px = integrate_position(state.position.x, vx, dt);
    let py = integrate_position(state.position.y, vy, dt);
    let pz = integrate_position(state.position.z, vz, dt);
    CharacterPhysics {
        position: Vec3Fx { x: px, y: py, z: pz },
        velocity: Vec3Fx { x: vx, y: vy, z: vz },
        mass: state.mass,
    }
}

/// The state after replaying one step per grounded-check flag, resolving
/// each tick's input from the history, each step starting from the
/// previous step's outcome.
pub open spec fn spec_replay(
    start: CharacterPhysics,
    history: Seq<(u64, InputSample)>,
    start_tick: u64,
    grounded: Seq<bool>,
    dt: int,
) -> CharacterPhysics
    recommends
        start.mass > 0,
        dt >= 0,
        start_tick + grounded.len() <= u64::MAX,
    decreases grounded.len(),
{
    if grounded.len() == 0 {
        start
    } else {
        let input = spec_resolve(history, start_tick);
        let out = spec_apply_character_action(dt, start, input, grounded.first());
        let next = spec_integrate(start, out, dt);
        spec_replay(next, history, (start_tick + 1) as u64, grounded.drop_first(), dt)
    }
}

/// Replays the window `[start_tick, start_tick + grounded.len())` from an
/// authoritative snapshot: each step resolves its input from the history,
/// runs the same stepper as forward simulation, and advances through the
/// reference integrator.  Replay order is strictly increasing by tick; the
/// discarded prediction plays no part.
pub fn replay(
    start: &CharacterPhysics,
    history: &InputHistory,
    start_tick: u64,
    grounded: &Vec<bool>,
    dt: i64,
) -> (r: CharacterPhysics)
    requires
        start.wf(),
        history.wf(),
        samples_wf(history@),
        0 <= dt <= DT_LIMIT,
        start_tick + grounded@.len() <= u64::MAX,
    ensures
        r == spec_replay(*start, history@, start_tick, grounded@, dt as int),
        r.wf(),
{
    let ghost g = grounded@;
    let mut state = *start;
    let mut i: usize = 0;
    proof {
        assert(g.subrange(0, g.len() as int) =~= g);
    }
    while i < grounded.len()
        invariant
            i <= g.len(),
            g == grounded@,
            history.wf(),
            samples_wf(history@),
            0 <= dt <= DT_LIMIT,
            start_tick + g.len() <= u64::MAX,
            state.wf(),
            spec_replay(*start, history@, start_tick, g, dt as int) == spec_replay(
                state,
                history@,
                (start_tick + i) as u64,
                g.subrange(i as int, g.len() as int),
                dt as int,
            ),
        decreases g.len() - i,
    {
        let tick = start_tick + (i as u64);
        let input = history.resolve(tick);
        proof {
            lemma_resolve_wf(history@, tick);
            assert(g.subrange(i as int, g.len() as int).first() == g[i as int]);
            assert(g.subrange(i as int, g.len() as int).drop_first() =~= g.subrange(
                i as int + 1,
                g.len() as int,
            ));
        }
        let out = apply_character_action(dt, &state, &input, grounded[i]);
        state = integrate(&state, &out, dt);
        i = i + 1;
    }
    proof {
        assert(g.subrange(g.len() as int, g.len() as int) =~= Seq::<bool>::empty());
    }
    state
}

/// Rollback replay convergence: the replayed outcome is a function of the
/// authoritative snapshot, the recorded inputs and the grounded checks
/// alone.  Two participants replaying the same window from the same
/// snapshot reach the same state, bit for bit — in particular, a client
/// whose prediction diverged converges on the authority's result, since
/// the discarded prediction enters nowhere.
pub proof fn lemma_replay_convergence(
    start1: CharacterPhysics,
    history1: Seq<(u64, InputSample)>,
    grounded1: Seq<bool>,
    start2: CharacterPhysics,
    history2: Seq<(u64, InputSample)>,
    grounded2: Seq<bool>,
    start_tick: u64,
    dt: int,
)
    requires
        start1 == start2,
        history1 == history2,
        grounded1 == grounded2,
    ensures
        spec_replay(start1, history1, start_tick, grounded1, dt) == spec_replay(
            start2,
            history2,
            start_tick,
            grounded2,
            dt,
        ),
{
}

} // verus!
