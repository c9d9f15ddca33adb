//! Tests for the service lifecycle state machines and the shutdown
//! orchestrator.

use stelliberty::lifecycle::{
    self, InstallAction, LifecycleError, ServiceState, StopObservation,
};
use stelliberty::shutdown::{DaemonPhase, EngineStopOutcome, ShutdownOrchestrator};

#[test]
fn install_on_a_running_service_is_a_no_op() {
    assert_eq!(
        lifecycle::install_action(ServiceState::Running),
        InstallAction::AlreadyRunning
    );
}

#[test]
fn install_on_a_stopped_service_delegates_to_start() {
    assert_eq!(
        lifecycle::install_action(ServiceState::Stopped),
        InstallAction::StartExisting
    );
}

#[test]
fn install_registers_when_nothing_usable_exists() {
    assert_eq!(
        lifecycle::install_action(ServiceState::NotInstalled),
        InstallAction::RegisterAndStart
    );
    assert_eq!(
        lifecycle::install_action(ServiceState::StartPending),
        InstallAction::RegisterAndStart
    );
    assert_eq!(
        lifecycle::install_action(ServiceState::Unknown(7)),
        InstallAction::RegisterAndStart
    );
}

#[test]
fn start_is_a_no_op_when_already_running() {
    assert!(!lifecycle::start_should_call(ServiceState::Running));
    assert!(lifecycle::start_should_call(ServiceState::Stopped));
    assert!(lifecycle::start_should_call(ServiceState::NotInstalled));
}

#[test]
fn stop_is_a_no_op_when_already_stopped() {
    assert!(!lifecycle::stop_should_call(ServiceState::Stopped));
    assert!(lifecycle::stop_should_call(ServiceState::Running));
    assert!(lifecycle::stop_should_call(ServiceState::StopPending));
}

#[test]
fn start_poll_succeeds_once_running_appears() {
    let mut obs = vec![ServiceState::StartPending; 3];
    obs.push(ServiceState::Running);
    obs.extend(vec![ServiceState::StartPending; 27]);
    let (r, slept) = lifecycle::run_start_poll(&obs);
    assert_eq!(r, Ok(()));
    assert_eq!(slept, 3 * 500);
}

#[test]
fn start_poll_times_out_after_thirty_sleeps() {
    let obs = vec![ServiceState::StartPending; 31];
    let (r, slept) = lifecycle::run_start_poll(&obs);
    assert_eq!(r, Err(LifecycleError::StartTimeout));
    assert_eq!(slept, 30 * 500);
}

#[test]
fn start_poll_fails_fast_on_a_foreign_state() {
    let mut obs = vec![ServiceState::StartPending; 2];
    obs.push(ServiceState::Stopped);
    obs.extend(vec![ServiceState::StartPending; 28]);
    let (r, slept) = lifecycle::run_start_poll(&obs);
    assert_eq!(r, Err(LifecycleError::StartFailed(ServiceState::Stopped)));
    assert_eq!(slept, 2 * 500);
}

#[test]
fn stop_poll_succeeds_on_stopped() {
    let mut obs = vec![StopObservation::Reported(ServiceState::StopPending); 4];
    obs.push(StopObservation::Reported(ServiceState::Stopped));
    obs.extend(vec![StopObservation::Reported(ServiceState::StopPending); 26]);
    let (r, slept) = lifecycle::run_stop_poll(&obs);
    assert_eq!(r, Ok(()));
    assert_eq!(slept, 4 * 100);
}

#[test]
fn stop_poll_treats_a_failed_query_as_stopped() {
    let mut obs = vec![StopObservation::Reported(ServiceState::StopPending); 2];
    obs.push(StopObservation::QueryFailed);
    obs.extend(vec![StopObservation::Reported(ServiceState::StopPending); 28]);
    let (r, slept) = lifecycle::run_stop_poll(&obs);
    assert_eq!(r, Ok(()));
    assert_eq!(slept, 2 * 100);
}

#[test]
fn stop_poll_times_out_on_endless_pending() {
    let obs = vec![StopObservation::Reported(ServiceState::StopPending); 31];
    let (r, slept) = lifecycle::run_stop_poll(&obs);
    assert_eq!(r, Err(LifecycleError::StopTimeout));
    assert_eq!(slept, 30 * 100);
}

#[test]
fn stop_poll_reports_the_state_that_refused_to_stop() {
    let obs = vec![StopObservation::Reported(ServiceState::Running); 31];
    let (r, slept) = lifecycle::run_stop_poll(&obs);
    assert_eq!(
        r,
        Err(LifecycleError::StopFailed(ServiceState::Running))
    );
    assert_eq!(slept, 30 * 100);
}

#[test]
fn uninstall_skips_the_stop_phase_when_already_stopped() {
    assert!(!lifecycle::uninstall_needs_stop(ServiceState::Stopped));
    assert!(lifecycle::uninstall_needs_stop(ServiceState::Running));
}

#[test]
fn descriptor_carries_fixed_names_and_auto_start() {
    let d = lifecycle::default_descriptor(String::from("/usr/bin/stelliberty-service"));
    assert_eq!(d.name, "StellibertyService");
    assert_eq!(d.display_name, "Stelliberty Service");
    assert_eq!(d.executable_path, "/usr/bin/stelliberty-service");
    assert!(d.auto_start);
}

#[test]
fn service_unit_embeds_the_executable_path() {
    let unit = lifecycle::get_service_unit("/opt/stelliberty/service");
    assert!(unit.contains("ExecStart=/opt/stelliberty/service\n"));
    assert!(unit.starts_with("[Unit]\n"));
    assert!(unit.contains("WantedBy=multi-user.target"));
}

#[test]
fn unsupported_platform_refuses_every_operation() {
    assert_eq!(
        stelliberty::unsupported::start_service(),
        Err(LifecycleError::UnsupportedPlatform)
    );
    assert_eq!(
        stelliberty::unsupported::stop_service(),
        Err(LifecycleError::UnsupportedPlatform)
    );
    assert_eq!(
        stelliberty::unsupported::uninstall_service(),
        Err(LifecycleError::UnsupportedPlatform)
    );
}

fn run_shutdown(outcome: EngineStopOutcome) -> ShutdownOrchestrator {
    let mut o = ShutdownOrchestrator::new();
    assert_eq!(o.phase, DaemonPhase::Starting);
    o.mark_running();
    assert_eq!(o.phase, DaemonPhase::Running);
    let req = o.on_shutdown_signal();
    assert_eq!(req.budget_ms, 5000);
    assert_eq!(o.phase, DaemonPhase::Stopping);
    o.resolve_engine_stop(outcome);
    o.finish();
    o
}

#[test]
fn shutdown_completes_when_the_engine_stops() {
    let o = run_shutdown(EngineStopOutcome::Finished);
    assert_eq!(o.phase, DaemonPhase::Stopped);
    assert!(o.server_aborted);
}

#[test]
fn shutdown_completes_when_the_engine_fails() {
    let o = run_shutdown(EngineStopOutcome::Failed);
    assert_eq!(o.phase, DaemonPhase::Stopped);
    assert!(o.server_aborted);
}

#[test]
fn shutdown_completes_when_the_engine_hangs_past_its_budget() {
    let o = run_shutdown(EngineStopOutcome::TimedOut);
    assert_eq!(o.phase, DaemonPhase::Stopped);
    assert!(o.server_aborted);
}

#[test]
fn coordinator_constructs() {
    let _ = stelliberty::coordinator::SystemCoordinator::new();
    let _ = stelliberty::coordinator::SystemCoordinator::default();
}
