//! Deterministic, tick-synchronized movement core for a multiplayer
//! character simulation.
//!
//! The library decides, for every fixed simulation step, which input a
//! character entity acts on (`history`, `clock`), turns that input into
//! reproducible force and impulse requests (`input`, `step`), re-runs past
//! windows after a divergence (`replay`), and computes the fan-out targets
//! for relaying raw inputs between an authoritative server and observing
//! clients (`fanout`).  Around that core: what the replication collaborator
//! is told of each component (`protocol`), the server's spawn choices
//! (`server`), and the launcher grammar (`cli`).  All quantities are
//! fixed-point integers (`fixed`), so a step is bit-for-bit reproducible on
//! every machine: the property that client-side prediction and rollback
//! replay depend on.
//!
//! The physics solver, the network transport and the render loop are
//! external collaborators: they hand this library plain values (ticks,
//! samples, states, ray-hit flags) and take plain values back.

pub mod cli;
pub mod clock;
pub mod fanout;
pub mod fixed;
pub mod history;
pub mod input;
pub mod protocol;
pub mod replay;
pub mod server;
pub mod step;

pub use fixed::SCALE;
