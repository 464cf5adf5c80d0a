//! Tick selection and per-entity simulation modes.
//!
//! The tick clock itself is an external collaborator: it advances a
//! monotonically increasing counter at the fixed rate and, during
//! reconciliation, exposes a rollback replay tick.  This module holds the
//! two decisions the core makes from those readings: which tick a step acts
//! on, and whether an entity's stepper runs at all.

use vstd::prelude::*;

verus! {

/// How one process simulates one entity, fixed at spawn time: the server's
/// ground truth, a client-side prediction (stepped every tick, rollback
/// replays included), or an interpolated replica that never steps.
#[derive(Clone, Copy, PartialEq, Eq, Structural, Debug)]
pub enum SimulationMode {
    Authoritative,
    Predicted,
    Interpolated,
}

/// Whether the stepper runs for an entity: predicted entities always step
/// (that is what a rollback replays), authoritative ones step only outside
/// a rollback (no rollback is ever applied to ground truth), interpolated
/// replicas never step.
pub open spec fn spec_runs_stepper(mode: SimulationMode, rolling_back: bool) -> bool {
    match mode {
        SimulationMode::Authoritative => !rolling_back,
        SimulationMode::Predicted => true,
        SimulationMode::Interpolated => false,
    }
}

/// Decides whether to invoke the stepper for an entity this step.
pub fn runs_stepper(mode: SimulationMode, rolling_back: bool) -> (r: bool)
    ensures
        r == spec_runs_stepper(mode, rolling_back),
{
    match mode {
        SimulationMode::Authoritative => !rolling_back,
        SimulationMode::Predicted => true,
        SimulationMode::Interpolated => false,
    }
}

/// The tick a step acts on: the rollback replay tick while rolling back,
/// else the live tick.
pub open spec fn spec_effective_tick(current_tick: u64, rollback_tick: Option<u64>) -> u64 {
    match rollback_tick {
        Some(t) => t,
        None => current_tick,
    }
}

/// Reads the tick to resolve input for, once per step, before resolving.
/// A replay tick never runs ahead of the live tick.
pub fn effective_tick(current_tick: u64, rollback_tick: Option<u64>) -> (r: u64)
    requires
        rollback_tick matches Some(t) ==> t <= current_tick,
    ensures
        r == spec_effective_tick(current_tick, rollback_tick),
        r <= current_tick,
{
    match rollback_tick {
        Some(t) => t,
        None => current_tick,
    }
}

} // verus!
