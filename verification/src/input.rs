//! Player intent: the per-tick input sample and the action sets it is
//! captured from.
//!
//! A sample is recorded once (by local capture on the owning client, or by
//! network delivery everywhere else) and never mutated afterwards; the
//! history module stores samples by tick and the stepper consumes them.

use vstd::prelude::*;

use crate::fixed::{
    abs_spec, clamp2, norm_sq, scale_coord, spec_clamp2, spec_scale_coord, SCALE,
};

verus! {

/// Largest magnitude a raw axis coordinate may take (ten units).  Device
/// capture stays within the unit square; anything delivered over the network
/// is validated to this bound before it is recorded.
pub const AXIS_LIMIT: i64 = 10_000_000;

/// Largest movement speed a character design may ask for (one thousand
/// units per second).
pub const MOVE_SPEED_LIMIT: i64 = 1_000_000_000;

/// The two intents a simulated character acts on.
#[derive(Clone, Copy, PartialEq, Eq, Structural, Debug, Hash)]
pub enum CharacterAction {
    Move,
    Jump,
}

/// The action set of the free-look movement prototype.
#[derive(Clone, Copy, PartialEq, Eq, Structural, Debug, Hash)]
pub enum BasicAction {
    Move,
    Look,
}

/// How an action is captured: a planar analogue pair, or a single button.
#[derive(Clone, Copy, PartialEq, Eq, Structural, Debug)]
pub enum InputKind {
    DualAxis,
    Button,
}

impl CharacterAction {
    /// The capture kind of each action: movement is a planar axis pair,
    /// jumping a button.
    pub fn input_control_kind(&self) -> (r: InputKind)
        ensures
            r == (match self {
                CharacterAction::Move => InputKind::DualAxis,
                CharacterAction::Jump => InputKind::Button,
            }),
    {
        match self {
            CharacterAction::Move => InputKind::DualAxis,
            CharacterAction::Jump => InputKind::Button,
        }
    }
}

impl BasicAction {
    /// The capture kind of each action: both are planar axis pairs.
    pub fn input_control_kind(&self) -> (r: InputKind)
        ensures
            r == InputKind::DualAxis,
    {
        InputKind::DualAxis
    }
}

/// One tick's captured player intent: a planar movement axis pair and the
/// jump button's state.  Immutable once recorded.
#[derive(Clone, Copy, PartialEq, Eq, Structural, Debug)]
pub struct InputSample {
    pub axis_x: i64,
    pub axis_y: i64,
    pub jump: bool,
}

impl InputSample {
    /// Both axis coordinates lie within the capture bound.
    pub open spec fn wf(self) -> bool {
        abs_spec(self.axis_x as int) <= AXIS_LIMIT && abs_spec(self.axis_y as int) <= AXIS_LIMIT
    }

    /// The neutral sample: no movement, no jump.  It is what the resolver
    /// hands out before any input was ever recorded for an entity.
    pub open spec fn neutral_spec() -> InputSample {
        InputSample { axis_x: 0, axis_y: 0, jump: false }
    }

    /// Builds the neutral sample.
    pub fn neutral() -> (r: InputSample)
        ensures
            r == InputSample::neutral_spec(),
            r.wf(),
    {
        InputSample { axis_x: 0, axis_y: 0, jump: false }
    }
}

/// Tunables of the velocity-writing movement variant: how fast the
/// character walks, and how many ticks it has been grounded.
#[derive(Clone, Copy, PartialEq, Eq, Structural, Debug)]
pub struct BasicMovement {
    pub move_speed: i64,
    pub ground_tick: u8,
}

impl BasicMovement {
    /// The design bound every instance respects.
    pub open spec fn wf(self) -> bool {
        0 <= self.move_speed <= MOVE_SPEED_LIMIT
    }
}

impl Default for BasicMovement {
    /// The design defaults: a walk speed of 5.5 units per second, not yet
    /// grounded.
    fn default() -> (r: Self)
        ensures
            r.move_speed == 5_500_000,
            r.ground_tick == 0,
            r.wf(),
    {
        BasicMovement { move_speed: 5_500_000, ground_tick: 0 }
    }
}

/// The planar velocity the movement variant writes: the axis pair clamped
/// to unit length, times the walk speed.
pub open spec fn spec_wish_velocity(axis_x: int, axis_y: int, move_speed: int) -> (int, int)
    recommends
        move_speed >= 0,
{
    let c = spec_clamp2(axis_x, axis_y, SCALE as int);
    (
        spec_scale_coord(c.0, move_speed, SCALE as int),
        spec_scale_coord(c.1, move_speed, SCALE as int),
    )
}

/// Computes the wish velocity of the velocity-writing movement variant: the
/// result never exceeds the walk speed in either coordinate.
pub fn wish_velocity(axis_x: i64, axis_y: i64, move_speed: i64) -> (r: (i64, i64))
    requires
        abs_spec(axis_x as int) <= AXIS_LIMIT,
        abs_spec(axis_y as int) <= AXIS_LIMIT,
        0 <= move_speed <= MOVE_SPEED_LIMIT,
    ensures
        (r.0 as int, r.1 as int) == spec_wish_velocity(
            axis_x as int,
            axis_y as int,
            move_speed as int,
        ),
        abs_spec(r.0 as int) <= move_speed,
        abs_spec(r.1 as int) <= move_speed,
{
    let c = clamp2(axis_x, axis_y, SCALE);
    proof {
        crate::fixed::lemma_norm_component(c.0 as int, c.1 as int, SCALE as int);
        assert(abs_spec(c.0 as int) * move_speed <= i64::MAX && abs_spec(c.1 as int) * move_speed
            <= i64::MAX) by (nonlinear_arith)
            requires
                abs_spec(c.0 as int) <= 1_000_000,
                abs_spec(c.1 as int) <= 1_000_000,
                0 <= move_speed <= 1_000_000_000,
        ;
    }
    let vx = scale_coord(c.0, move_speed, SCALE);
    let vy = scale_coord(c.1, move_speed, SCALE);
    (vx, vy)
}

} // verus!
