//! The command-line grammar, and the smaller decision helpers.

use zinnobre_iron::cli::{cli, Cli, CliError};
use zinnobre_iron::clock::{effective_tick, runs_stepper, SimulationMode};
use zinnobre_iron::input::{BasicAction, CharacterAction, InputKind};
use zinnobre_iron::protocol::{
    component_sync_mode, has_correction, FixedSet, ReplicatedComponent, SyncMode,
};
use zinnobre_iron::server::{client_hue_degrees, spawn_angle, spawn_color_index};

fn args(parts: &[&str]) -> Vec<String> {
    parts.iter().map(|s| s.to_string()).collect()
}

#[test]
fn cli_parses_each_role() {
    assert_eq!(cli(&args(&["server"])), Ok(Cli::Server));
    assert_eq!(cli(&args(&["client"])), Ok(Cli::Client { client_id: None }));
    assert_eq!(
        cli(&args(&["host-server"])),
        Ok(Cli::HostServer { client_id: None })
    );
    assert_eq!(
        cli(&args(&["client-and-server"])),
        Ok(Cli::ClientAndServer { client_id: None })
    );
}

#[test]
fn cli_parses_client_ids() {
    assert_eq!(
        cli(&args(&["client", "-c", "5"])),
        Ok(Cli::Client { client_id: Some(5) })
    );
    assert_eq!(
        cli(&args(&["client", "--client-id", "123"])),
        Ok(Cli::Client { client_id: Some(123) })
    );
    assert_eq!(
        cli(&args(&["host-server", "-c", "18446744073709551615"])),
        Ok(Cli::HostServer { client_id: Some(u64::MAX) })
    );
}

#[test]
fn cli_rejects_bad_argument_lists() {
    assert_eq!(cli(&args(&[])), Err(CliError::MissingCommand));
    assert_eq!(cli(&args(&["bogus"])), Err(CliError::UnknownCommand));
    assert_eq!(cli(&args(&["server", "-c"])), Err(CliError::UnexpectedArgument));
    assert_eq!(cli(&args(&["client", "-c"])), Err(CliError::MissingValue));
    assert_eq!(cli(&args(&["client", "-x", "5"])), Err(CliError::UnexpectedArgument));
    assert_eq!(
        cli(&args(&["client", "-c", "5", "6"])),
        Err(CliError::UnexpectedArgument)
    );
}

#[test]
fn cli_rejects_bad_identifiers() {
    assert_eq!(cli(&args(&["client", "-c", "12x"])), Err(CliError::InvalidValue));
    assert_eq!(cli(&args(&["client", "-c", ""])), Err(CliError::InvalidValue));
    // One past the machine word overflows.
    assert_eq!(
        cli(&args(&["client", "-c", "18446744073709551616"])),
        Err(CliError::InvalidValue)
    );
}

#[test]
fn effective_tick_prefers_the_rollback_tick() {
    assert_eq!(effective_tick(100, None), 100);
    assert_eq!(effective_tick(100, Some(42)), 42);
    assert_eq!(effective_tick(100, Some(100)), 100);
}

#[test]
fn stepper_runs_by_mode() {
    assert!(runs_stepper(SimulationMode::Authoritative, false));
    assert!(!runs_stepper(SimulationMode::Authoritative, true));
    assert!(runs_stepper(SimulationMode::Predicted, false));
    assert!(runs_stepper(SimulationMode::Predicted, true));
    assert!(!runs_stepper(SimulationMode::Interpolated, false));
    assert!(!runs_stepper(SimulationMode::Interpolated, true));
}

#[test]
fn actions_declare_their_capture_kind() {
    assert_eq!(CharacterAction::Move.input_control_kind(), InputKind::DualAxis);
    assert_eq!(CharacterAction::Jump.input_control_kind(), InputKind::Button);
    assert_eq!(BasicAction::Move.input_control_kind(), InputKind::DualAxis);
    assert_eq!(BasicAction::Look.input_control_kind(), InputKind::DualAxis);
}

#[test]
fn identity_components_sync_once_physics_fully() {
    assert_eq!(component_sync_mode(ReplicatedComponent::Color), SyncMode::Once);
    assert_eq!(component_sync_mode(ReplicatedComponent::CharacterMarker), SyncMode::Once);
    assert_eq!(component_sync_mode(ReplicatedComponent::Position), SyncMode::Full);
    assert_eq!(component_sync_mode(ReplicatedComponent::LinearVelocity), SyncMode::Full);
    assert!(has_correction(ReplicatedComponent::Position));
    assert!(has_correction(ReplicatedComponent::Rotation));
    assert!(!has_correction(ReplicatedComponent::Color));
}

#[test]
fn inputs_run_before_physics() {
    assert!(FixedSet::Main.phase_rank() < FixedSet::Physics.phase_rank());
}

#[test]
fn spawn_choices_are_reproducible() {
    assert_eq!(client_hue_degrees(1), 30);
    assert_eq!(client_hue_degrees(12), 0);
    assert_eq!(client_hue_degrees(7), 210);
    assert_eq!(client_hue_degrees(u64::MAX), u64::MAX.wrapping_mul(30) % 360);
    assert_eq!(spawn_color_index(0), 0);
    assert_eq!(spawn_color_index(13), 1);
    assert_eq!(spawn_angle(0), 0);
    assert_eq!(spawn_angle(3), 15_000_000);
}
