//! What the replication collaborator is told about the simulated world:
//! which marker tags entities carry, which components it synchronizes and
//! how, and the schedule phases a fixed update is split into.
//!
//! Registering these with the networking machinery, and the wire encoding
//! itself, happen outside the core; this module holds the decisions.

use vstd::prelude::*;

verus! {

/// Entities whose physical state replicates as one atomic group use this
/// replication-group key.
pub const REPLICATION_GROUP_ID: u64 = 1;

/// Tags a player character entity.
#[derive(Clone, Copy, PartialEq, Eq, Structural, Debug)]
pub struct CharacterMarker;

/// Tags the static floor entity.
#[derive(Clone, Copy, PartialEq, Eq, Structural, Debug)]
pub struct FloorMarker;

/// Tags the pushable block entity.
#[derive(Clone, Copy, PartialEq, Eq, Structural, Debug)]
pub struct BlockMarker;

/// The two phases of one fixed update: input handling first, then the
/// physics step — forces must be complete before the solver consumes them.
#[derive(Clone, Copy, PartialEq, Eq, Structural, Debug, Hash)]
pub enum FixedSet {
    Main,
    Physics,
}

impl FixedSet {
    /// Where the phase stands in the fixed update: `Main` strictly before
    /// `Physics`.
    pub fn phase_rank(&self) -> (r: u8)
        ensures
            r == (match self {
                FixedSet::Main => 0u8,
                FixedSet::Physics => 1u8,
            }),
    {
        match self {
            FixedSet::Main => 0,
            FixedSet::Physics => 1,
        }
    }
}

/// How a replicated component reaches predicted entities: sent once at
/// spawn, or refreshed every server send.
#[derive(Clone, Copy, PartialEq, Eq, Structural, Debug)]
pub enum SyncMode {
    Once,
    Full,
}

/// The components the server replicates to clients.
#[derive(Clone, Copy, PartialEq, Eq, Structural, Debug)]
pub enum ReplicatedComponent {
    Color,
    EntityName,
    CharacterMarker,
    FloorMarker,
    BlockMarker,
    LinearVelocity,
    AngularVelocity,
    Position,
    Rotation,
}

/// The sync mode of each replicated component: identity-like components
/// travel once at spawn; the physical state refreshes fully, since
/// prediction must correct it.
pub open spec fn spec_component_sync_mode(c: ReplicatedComponent) -> SyncMode {
    match c {
        ReplicatedComponent::Color => SyncMode::Once,
        ReplicatedComponent::EntityName => SyncMode::Once,
        ReplicatedComponent::CharacterMarker => SyncMode::Once,
        ReplicatedComponent::FloorMarker => SyncMode::Once,
        ReplicatedComponent::BlockMarker => SyncMode::Once,
        ReplicatedComponent::LinearVelocity => SyncMode::Full,
        ReplicatedComponent::AngularVelocity => SyncMode::Full,
        ReplicatedComponent::Position => SyncMode::Full,
        ReplicatedComponent::Rotation => SyncMode::Full,
    }
}

/// Resolves a component's sync mode.
pub fn component_sync_mode(c: ReplicatedComponent) -> (r: SyncMode)
    ensures
        r == spec_component_sync_mode(c),
{
    match c {
        ReplicatedComponent::Color => SyncMode::Once,
        ReplicatedComponent::EntityName => SyncMode::Once,
        ReplicatedComponent::CharacterMarker => SyncMode::Once,
        ReplicatedComponent::FloorMarker => SyncMode::Once,
        ReplicatedComponent::BlockMarker => SyncMode::Once,
        ReplicatedComponent::LinearVelocity => SyncMode::Full,
        ReplicatedComponent::AngularVelocity => SyncMode::Full,
        ReplicatedComponent::Position => SyncMode::Full,
        ReplicatedComponent::Rotation => SyncMode::Full,
    }
}

/// Whether a component's predicted value is smoothed toward corrections:
/// only the spatial pose is.
pub fn has_correction(c: ReplicatedComponent) -> (r: bool)
    ensures
        r == (c == ReplicatedComponent::Position || c == ReplicatedComponent::Rotation),
{
    match c {
        ReplicatedComponent::Position => true,
        ReplicatedComponent::Rotation => true,
        _ => false,
    }
}

} // verus!
