//! Server-side spawning decisions: what a newly connected client's
//! character looks like and where it appears.
//!
//! Spawning the entity, and turning these plain values into engine colors
//! and trigonometry, belong to the collaborators; the reproducible choices
//! live here.

use vstd::prelude::*;

use crate::fixed::SCALE;

verus! {

/// How many palette entries the spawn color cycle walks through.
pub const SPAWN_COLOR_COUNT: usize = 12;

/// Angular spacing of spawn spots around the ring, in fixed-point radians
/// (5 radians per character).
pub const SPAWN_ANGLE_STEP: i64 = 5_000_000;

/// Radius of the spawn ring (2 units).
pub const SPAWN_RADIUS: i64 = 2_000_000;

/// Height characters spawn at (3 units).
pub const SPAWN_HEIGHT: i64 = 3_000_000;

/// A stable hue for a client, in degrees: the client identifier times
/// thirty, wrapped to the machine word, modulo a full turn.
pub open spec fn spec_client_hue_degrees(client_id: u64) -> u64 {
    (((client_id * 30) % 0x1_0000_0000_0000_0000) % 360) as u64
}

/// Derives the hue of a client's color from its identifier.
pub fn client_hue_degrees(client_id: u64) -> (h: u64)
    ensures
        h == spec_client_hue_degrees(client_id),
        h < 360,
{
    client_id.wrapping_mul(30) % 360
}

/// Which palette entry the next character uses: the palette repeats once
/// every `SPAWN_COLOR_COUNT` spawns.
pub fn spawn_color_index(num_characters: usize) -> (i: usize)
    ensures
        i == num_characters as int % (SPAWN_COLOR_COUNT as int),
        i < SPAWN_COLOR_COUNT,
{
    num_characters % SPAWN_COLOR_COUNT
}

/// The ring angle of the next character's spawn spot, in fixed-point
/// radians.
pub fn spawn_angle(num_characters: usize) -> (a: i64)
    requires
        num_characters <= 1_000_000_000,
    ensures
        a == SPAWN_ANGLE_STEP * num_characters,
{
    SPAWN_ANGLE_STEP * (num_characters as i64)
}

} // verus!
