//! Service lifecycle manager: the per-operation state machines behind
//! install / uninstall / start / stop against the host's service facility.
//!
//! The library owns every decision: what an operation does given the
//! state the service manager reports, and how the bounded polling loops
//! judge each successive observation.  The surrounding binary performs
//! the OS calls (register, start, stop, delete, query) and feeds the
//! reported states back in.

use vstd::prelude::*;

verus! {

/// Polling interval while waiting for a started service to reach
/// `Running`, in milliseconds.
pub const START_POLL_INTERVAL_MS: u64 = 500;

/// Polling interval while waiting for a stopping service to reach
/// `Stopped`, in milliseconds.
pub const STOP_POLL_INTERVAL_MS: u64 = 100;

/// How many times a pending state may be observed before the operation
/// gives up.
pub const POLL_ATTEMPT_LIMIT: usize = 30;

/// The state the OS service manager reports for the service.
#[derive(Clone, Copy, PartialEq, Eq, Structural, Debug)]
pub enum ServiceState {
    /// No service of this name is registered.
    NotInstalled,
    Stopped,
    StartPending,
    Running,
    StopPending,
    /// Any other raw state the manager can report.
    Unknown(u32),
}

/// Why a lifecycle operation failed.
#[derive(Clone, Copy, PartialEq, Eq, Structural, Debug)]
pub enum LifecycleError {
    /// This platform has no native service facility; run the executable
    /// directly instead.
    UnsupportedPlatform,
    /// The service did not reach `Running` within the polling budget.
    StartTimeout,
    /// Polling for `Running` saw a state that is neither pending nor
    /// running.
    StartFailed(ServiceState),
    /// The service did not reach `Stopped` within the polling budget.
    StopTimeout,
    /// Polling for `Stopped` ended on a state that is not `Stopped`.
    StopFailed(ServiceState),
}

/// The descriptor a fresh registration hands to the service manager.
pub struct ServiceDescriptor {
    pub name: String,
    pub display_name: String,
    pub description: String,
    pub executable_path: String,
    pub auto_start: bool,
}

/// The descriptor this daemon registers itself under: fixed names, the
/// given executable path, and automatic start at boot.
pub fn default_descriptor(executable_path: String) -> (r: ServiceDescriptor)
    ensures
        r.name@ == "StellibertyService"@,
        r.display_name@ == "Stelliberty Service"@,
        r.description@ == "Stelliberty background service managing the proxy engine"@,
        r.executable_path@ == executable_path@,
        r.auto_start,
{
    ServiceDescriptor {
        name: "StellibertyService".to_owned(),
        display_name: "Stelliberty Service".to_owned(),
        description: "Stelliberty background service managing the proxy engine".to_owned(),
        executable_path,
        auto_start: true,
    }
}

/// What the install operation does first, given the state the manager
/// reports for an existing registration.
#[derive(Clone, Copy, PartialEq, Eq, Structural, Debug)]
pub enum InstallAction {
    /// Already registered and running: install is a no-op success and
    /// performs no service-manager mutation at all.
    AlreadyRunning,
    /// Registered but stopped: delegate to the start operation.
    StartExisting,
    /// Register a fresh descriptor, then start it and poll.
    RegisterAndStart,
}

/// Install decision: running means done, stopped means start, anything
/// else means register anew.
pub fn install_action(observed: ServiceState) -> (r: InstallAction)
    ensures
        observed is Running ==> r is AlreadyRunning,
        observed is Stopped ==> r is StartExisting,
        !(observed is Running) && !(observed is Stopped) ==> r is RegisterAndStart,
{
    match observed {
        ServiceState::Running => InstallAction::AlreadyRunning,
        ServiceState::Stopped => InstallAction::StartExisting,
        _ => InstallAction::RegisterAndStart,
    }
}

/// Start is idempotent: the underlying OS start call is issued exactly
/// when the service is not already running.
pub fn start_should_call(observed: ServiceState) -> (r: bool)
    ensures
        r == !(observed is Running),
{
    match observed {
        ServiceState::Running => false,
        _ => true,
    }
}

/// Stop is idempotent: the underlying OS stop call is issued exactly
/// when the service is not already stopped.
pub fn stop_should_call(observed: ServiceState) -> (r: bool)
    ensures
        r == !(observed is Stopped),
{
    match observed {
        ServiceState::Stopped => false,
        _ => true,
    }
}

/// One verdict of a polling loop: the wait is over, or sleep this many
/// milliseconds and query again, or give up with this error.
#[derive(Clone, Copy, PartialEq, Eq, Structural, Debug)]
pub enum PollStep {
    Satisfied,
    Sleep(u64),
    Fail(LifecycleError),
}

/// Judge one observation of the start-side polling loop.
/// `pending_seen` counts the pending states already waited through.
pub fn start_poll_step(observed: ServiceState, pending_seen: usize) -> (r: PollStep)
    ensures
        observed is Running ==> r is Satisfied,
        observed is StartPending && pending_seen < POLL_ATTEMPT_LIMIT ==> r == PollStep::Sleep(
            START_POLL_INTERVAL_MS,
        ),
        observed is StartPending && pending_seen >= POLL_ATTEMPT_LIMIT ==> r == PollStep::Fail(
            LifecycleError::StartTimeout,
        ),
        !(observed is Running) && !(observed is StartPending) ==> r == PollStep::Fail(
            LifecycleError::StartFailed(observed),
        ),
{
    match observed {
        ServiceState::Running => PollStep::Satisfied,
        ServiceState::StartPending => {
            if pending_seen >= POLL_ATTEMPT_LIMIT {
                PollStep::Fail(LifecycleError::StartTimeout)
            } else {
                PollStep::Sleep(START_POLL_INTERVAL_MS)
            }
        },
        _ => PollStep::Fail(LifecycleError::StartFailed(observed)),
    }
}

/// Judge one observation of the stop-side polling loop.
/// `waited` counts the observations already slept through.
pub fn stop_poll_step(observed: StopObservation, waited: usize) -> (r: PollStep)
    ensures
        stop_settles(observed) ==> r is Satisfied,
        !stop_settles(observed) && waited < POLL_ATTEMPT_LIMIT ==> r == PollStep::Sleep(
            STOP_POLL_INTERVAL_MS,
        ),
        observed == StopObservation::Reported(ServiceState::StopPending) && waited
            >= POLL_ATTEMPT_LIMIT ==> r == PollStep::Fail(LifecycleError::StopTimeout),
        (observed matches StopObservation::Reported(s) && !(s is StopPending) && !(s is Stopped)
            && waited >= POLL_ATTEMPT_LIMIT) ==> r == PollStep::Fail(
            LifecycleError::StopFailed(observed->Reported_0),
        ),
{
    match observed {
        StopObservation::QueryFailed => PollStep::Satisfied,
        StopObservation::Reported(s) => {
            match s {
                ServiceState::Stopped => PollStep::Satisfied,
                ServiceState::StopPending => {
                    if waited >= POLL_ATTEMPT_LIMIT {
                        PollStep::Fail(LifecycleError::StopTimeout)
                    } else {
                        PollStep::Sleep(STOP_POLL_INTERVAL_MS)
                    }
                },
                _ => {
                    if waited >= POLL_ATTEMPT_LIMIT {
                        PollStep::Fail(LifecycleError::StopFailed(s))
                    } else {
                        PollStep::Sleep(STOP_POLL_INTERVAL_MS)
                    }
                },
            }
        },
    }
}

/// The first index at which `obs` reports something other than
/// `StartPending`, or `obs.len()` if it never does.
pub open spec fn first_start_settled(obs: Seq<ServiceState>) -> int
    decreases obs.len(),
{
    if obs.len() == 0 {
        0
    } else if !(obs[0] is StartPending) {
        0
    } else {
        1 + first_start_settled(obs.drop_first())
    }
}

pub proof fn lemma_first_start_settled(obs: Seq<ServiceState>)
    ensures
        0 <= first_start_settled(obs) <= obs.len(),
        first_start_settled(obs) < obs.len() ==> !(obs[first_start_settled(obs)] is StartPending),
        forall|i: int| 0 <= i < first_start_settled(obs) ==> obs[i] is StartPending,
    decreases obs.len(),
{
    if obs.len() > 0 && obs[0] is StartPending {
        lemma_first_start_settled(obs.drop_first());
        assert forall|i: int| 0 <= i < first_start_settled(obs) implies obs[i] is StartPending by {
            if i > 0 {
                assert(obs.drop_first()[i - 1] == obs[i]);
            }
        }
    }
}

/// Drive the start-side polling loop over the states the manager
/// reported, one query per entry.  Returns the verdict and the total
/// time slept between queries.
///
/// `Running` ends the wait with success; any state that is neither
/// running nor pending is a fatal failure; a pending state sleeps
/// 500 ms, and the attempt budget of 30 sleeps is a fatal timeout.
pub fn run_start_poll(observations: &Vec<ServiceState>) -> (r: (
    Result<(), LifecycleError>,
    u64,
))
    requires
        observations@.len() > POLL_ATTEMPT_LIMIT,
    ensures
        ({
            let fs = first_start_settled(observations@);
            if fs <= POLL_ATTEMPT_LIMIT {
                &&& (observations@[fs] is Running ==> r.0 == Ok::<(), LifecycleError>(()))
                &&& (!(observations@[fs] is Running) ==> r.0 == Err::<(), LifecycleError>(
                    LifecycleError::StartFailed(observations@[fs]),
                ))
                &&& r.1 == fs * START_POLL_INTERVAL_MS
            } else {
                &&& r.0 == Err::<(), LifecycleError>(LifecycleError::StartTimeout)
                &&& r.1 == POLL_ATTEMPT_LIMIT * START_POLL_INTERVAL_MS
            }
        }),
{
    proof {
        lemma_first_start_settled(observations@);
    }
    let ghost fs = first_start_settled(observations@);
    let mut i: usize = 0;
    let mut slept: u64 = 0;
    loop
        invariant
            observations@.len() > POLL_ATTEMPT_LIMIT,
            0 <= i <= POLL_ATTEMPT_LIMIT,
            i <= fs,
            fs == first_start_settled(observations@),
            0 <= fs <= observations@.len(),
            fs < observations@.len() ==> !(observations@[fs] is StartPending),
            forall|k: int| 0 <= k < fs ==> observations@[k] is StartPending,
            slept == i * START_POLL_INTERVAL_MS,
        decreases POLL_ATTEMPT_LIMIT - i,
    {
        let s = observations[i];
        match s {
            ServiceState::Running => {
                return (Ok(()), slept);
            },
            ServiceState::StartPending => {
                proof {
                    assert(observations@[i as int] is StartPending);
                    assert(fs > i);
                }
                if i >= POLL_ATTEMPT_LIMIT {
                    proof {
                        assert(fs > POLL_ATTEMPT_LIMIT);
                    }
                    return (Err(LifecycleError::StartTimeout), slept);
                }
                slept = slept + START_POLL_INTERVAL_MS;
                i = i + 1;
            },
            _ => {
                proof {
                    assert(fs == i);
                }
                return (Err(LifecycleError::StartFailed(s)), slept);
            },
        }
    }
}

/// One observation of the stop-side polling loop: either a reported
/// state, or a failed status query (taken to mean the service is gone).
#[derive(Clone, Copy, PartialEq, Eq, Structural, Debug)]
pub enum StopObservation {
    Reported(ServiceState),
    QueryFailed,
}

/// Whether a stop-side observation ends the wait with success.
pub open spec fn stop_settles(o: StopObservation) -> bool {
    o is QueryFailed || o == StopObservation::Reported(ServiceState::Stopped)
}

/// The first index at which the stop wait settles, or `obs.len()`.
pub open spec fn first_stop_settled(obs: Seq<StopObservation>) -> int
    decreases obs.len(),
{
    if obs.len() == 0 {
        0
    } else if stop_settles(obs[0]) {
        0
    } else {
        1 + first_stop_settled(obs.drop_first())
    }
}

pub proof fn lemma_first_stop_settled(obs: Seq<StopObservation>)
    ensures
        0 <= first_stop_settled(obs) <= obs.len(),
        first_stop_settled(obs) < obs.len() ==> stop_settles(obs[first_stop_settled(obs)]),
        forall|i: int| 0 <= i < first_stop_settled(obs) ==> !stop_settles(obs[i]),
    decreases obs.len(),
{
    if obs.len() > 0 && !stop_settles(obs[0]) {
        lemma_first_stop_settled(obs.drop_first());
        assert forall|i: int| 0 <= i < first_stop_settled(obs) implies !stop_settles(obs[i]) by {
            if i > 0 {
                assert(obs.drop_first()[i - 1] == obs[i]);
            }
        }
    }
}

/// Drive the stop-side polling loop over the queries' results, one per
/// entry.  A reported `Stopped` — or a failed query, taken as "assume
/// stopped" rather than blocking forever — ends the wait with success;
/// any other state sleeps 100 ms; on the 31st such observation the wait
/// fails, as a timeout if that state was `StopPending` and as a fatal
/// stop failure otherwise.
pub fn run_stop_poll(observations: &Vec<StopObservation>) -> (r: (
    Result<(), LifecycleError>,
    u64,
))
    requires
        observations@.len() > POLL_ATTEMPT_LIMIT,
    ensures
        ({
            let fs = first_stop_settled(observations@);
            if fs <= POLL_ATTEMPT_LIMIT {
                &&& r.0 == Ok::<(), LifecycleError>(())
                &&& r.1 == fs * STOP_POLL_INTERVAL_MS
            } else {
                &&& (observations@[POLL_ATTEMPT_LIMIT as int] matches StopObservation::Reported(s)
                    ==> r.0 == Err::<(), LifecycleError>(
                    if s is StopPending {
                        LifecycleError::StopTimeout
                    } else {
                        LifecycleError::StopFailed(s)
                    },
                ))
                &&& r.1 == POLL_ATTEMPT_LIMIT * STOP_POLL_INTERVAL_MS
            }
        }),
{
    proof {
        lemma_first_stop_settled(observations@);
    }
    let ghost fs = first_stop_settled(observations@);
    let mut i: usize = 0;
    let mut slept: u64 = 0;
    loop
        invariant
            observations@.len() > POLL_ATTEMPT_LIMIT,
            0 <= i <= POLL_ATTEMPT_LIMIT,
            i <= fs,
            fs == first_stop_settled(observations@),
            0 <= fs <= observations@.len(),
            fs < observations@.len() ==> stop_settles(observations@[fs]),
            forall|k: int| 0 <= k < fs ==> !stop_settles(observations@[k]),
            slept == i * STOP_POLL_INTERVAL_MS,
        decreases POLL_ATTEMPT_LIMIT - i,
    {
        let o = observations[i];
        match o {
            StopObservation::QueryFailed => {
                proof {
                    assert(fs == i);
                }
                return (Ok(()), slept);
            },
            StopObservation::Reported(s) => {
                match s {
                    ServiceState::Stopped => {
                        proof {
                            assert(stop_settles(observations@[i as int]));
                            assert(fs == i);
                        }
                        return (Ok(()), slept);
                    },
                    _ => {
                        proof {
                            assert(!stop_settles(observations@[i as int]));
                            assert(fs > i);
                        }
                        if i >= POLL_ATTEMPT_LIMIT {
                            proof {
                                assert(fs > POLL_ATTEMPT_LIMIT);
                            }
                            if matches!(s, ServiceState::StopPending) {
                                return (Err(LifecycleError::StopTimeout), slept);
                            }
                            return (Err(LifecycleError::StopFailed(s)), slept);
                        }
                        slept = slept + STOP_POLL_INTERVAL_MS;
                        i = i + 1;
                    },
                }
            },
        }
    }
}

/// Whether the uninstall operation must request a stop (and poll) before
/// deregistering: exactly when the service is not already stopped.
pub fn uninstall_needs_stop(observed: ServiceState) -> (r: bool)
    ensures
        r == !(observed is Stopped),
{
    match observed {
        ServiceState::Stopped => false,
        _ => true,
    }
}

/// The systemd unit file contents for the service, as a function of the
/// executable path alone.
pub fn get_service_unit(binary_path: &str) -> (r: String)
    ensures
        r@ == "[Unit]\nDescription=Stelliberty Service\nAfter=network.target\n\n[Service]\nType=simple\nExecStart="@
            + binary_path@
            + "\nRestart=on-failure\nRestartSec=5s\nStandardOutput=journal\nStandardError=journal\nSyslogIdentifier=stelliberty\n\n[Install]\nWantedBy=multi-user.target\n"@,
{
    let mut unit =
        "[Unit]\nDescription=Stelliberty Service\nAfter=network.target\n\n[Service]\nType=simple\nExecStart=".to_owned();
    unit.append(binary_path);
    unit.append(
        "\nRestart=on-failure\nRestartSec=5s\nStandardOutput=journal\nStandardError=journal\nSyslogIdentifier=stelliberty\n\n[Install]\nWantedBy=multi-user.target\n",
    );
    unit
}

} // verus!
