//! Shutdown orchestrator: the daemon-side state machine that carries the
//! process from `Starting` through `Running` to `Stopped` once a stop
//! signal arrives.
//!
//! The orchestrator owns only the decisions.  The surrounding runtime
//! performs the outside work it asks for: reporting the phase to the OS
//! service manager, issuing the bounded engine-stop call, and aborting
//! the IPC server task.  Whatever the engine-stop call resolves to —
//! success, a reported failure, or exhausting its time budget — the
//! orchestrator proceeds: shutdown is never blocked by a misbehaving
//! dependent.

use vstd::prelude::*;

verus! {

/// Milliseconds the orchestrator is willing to wait for the supervised
/// engine to stop before abandoning it.
pub const ENGINE_STOP_BUDGET_MS: u64 = 5000;

/// The daemon's lifecycle phase, reported to the OS where required.
#[derive(Clone, Copy, PartialEq, Eq, Structural, Debug)]
pub enum DaemonPhase {
    Starting,
    Running,
    Stopping,
    Stopped,
}

/// How the bounded engine-stop call resolved.
#[derive(Clone, Copy, PartialEq, Eq, Structural, Debug)]
pub enum EngineStopOutcome {
    /// The engine stopped within the budget.
    Finished,
    /// The engine returned an error; shutdown proceeds anyway.
    Failed,
    /// The budget ran out; the engine handle is abandoned.
    TimedOut,
}

/// What the runtime must do next on the orchestrator's behalf.
#[derive(Clone, Copy, PartialEq, Eq, Structural, Debug)]
pub struct EngineStopRequest {
    /// Hard ceiling on the engine-stop call, in milliseconds.
    pub budget_ms: u64,
}

/// The orchestrator's state.
#[derive(Clone, Copy, PartialEq, Eq, Structural, Debug)]
pub struct ShutdownOrchestrator {
    pub phase: DaemonPhase,
    /// The single-fire stop signal has been consumed.
    pub signal_seen: bool,
    /// The bounded engine-stop step has resolved (one way or another).
    pub engine_stop_resolved: bool,
    /// The IPC server task has been cancelled.
    pub server_aborted: bool,
}

impl ShutdownOrchestrator {
    /// Well-formedness: flags only advance together with the phase.
    pub open spec fn wf(self) -> bool {
        &&& (self.phase is Starting ==> !self.signal_seen && !self.engine_stop_resolved
            && !self.server_aborted)
        &&& (self.phase is Running ==> !self.signal_seen && !self.engine_stop_resolved
            && !self.server_aborted)
        &&& (self.phase is Stopping ==> self.signal_seen && !self.server_aborted)
        &&& (self.phase is Stopped ==> self.signal_seen && self.engine_stop_resolved
            && self.server_aborted)
    }

    /// The state after consuming the stop signal.
    pub open spec fn spec_on_signal(self) -> ShutdownOrchestrator {
        ShutdownOrchestrator { phase: DaemonPhase::Stopping, signal_seen: true, ..self }
    }

    /// The state after the engine-stop step resolved, whatever the outcome.
    pub open spec fn spec_resolve_engine_stop(
        self,
        outcome: EngineStopOutcome,
    ) -> ShutdownOrchestrator {
        ShutdownOrchestrator { engine_stop_resolved: true, ..self }
    }

    /// The state after the server task is aborted and `Stopped` reported.
    pub open spec fn spec_finish(self) -> ShutdownOrchestrator {
        ShutdownOrchestrator { phase: DaemonPhase::Stopped, server_aborted: true, ..self }
    }

    /// A fresh orchestrator: the daemon is starting up.
    pub fn new() -> (r: ShutdownOrchestrator)
        ensures
            r.wf(),
            r.phase is Starting,
    {
        ShutdownOrchestrator {
            phase: DaemonPhase::Starting,
            signal_seen: false,
            engine_stop_resolved: false,
            server_aborted: false,
        }
    }

    /// The IPC server task and the engine handle are both live: report
    /// `Running`.
    pub fn mark_running(&mut self)
        requires
            old(self).wf(),
            old(self).phase is Starting,
        ensures
            final(self).wf(),
            *final(self) == (ShutdownOrchestrator { phase: DaemonPhase::Running, ..*old(self) }),
    {
        self.phase = DaemonPhase::Running;
    }

    /// Consume the single-fire stop signal.  The returned request tells
    /// the runtime to issue the engine-stop call under a hard time budget.
    pub fn on_shutdown_signal(&mut self) -> (r: EngineStopRequest)
        requires
            old(self).wf(),
            old(self).phase is Running,
        ensures
            final(self).wf(),
            *final(self) == old(self).spec_on_signal(),
            final(self).phase is Stopping,
            r.budget_ms == ENGINE_STOP_BUDGET_MS,
    {
        self.phase = DaemonPhase::Stopping;
        self.signal_seen = true;
        EngineStopRequest { budget_ms: ENGINE_STOP_BUDGET_MS }
    }

    /// Record how the bounded engine-stop call resolved.  Every outcome —
    /// normal completion, a reported failure, or a timeout — lets shutdown
    /// proceed; none of them can block it.
    pub fn resolve_engine_stop(&mut self, outcome: EngineStopOutcome)
        requires
            old(self).wf(),
            old(self).phase is Stopping,
            !old(self).engine_stop_resolved,
        ensures
            final(self).wf(),
            *final(self) == old(self).spec_resolve_engine_stop(outcome),
            final(self).phase is Stopping,
            final(self).engine_stop_resolved,
    {
        self.engine_stop_resolved = true;
    }

    /// Abort the IPC server task (no drain phase) and report `Stopped`.
    pub fn finish(&mut self)
        requires
            old(self).wf(),
            old(self).phase is Stopping,
            old(self).engine_stop_resolved,
        ensures
            final(self).wf(),
            *final(self) == old(self).spec_finish(),
            final(self).phase is Stopped,
            final(self).server_aborted,
    {
        self.phase = DaemonPhase::Stopped;
        self.server_aborted = true;
    }
}

/// Law: from `Running`, once the stop signal arrives, the orchestrator
/// reaches `Stopped` with the server task cancelled, for *every* possible
/// resolution of the engine-stop step — including the engine hanging
/// until the time budget runs out — and the only wait on the way is the
/// engine-stop call itself, which is capped at `ENGINE_STOP_BUDGET_MS`.
pub proof fn lemma_shutdown_always_completes(s: ShutdownOrchestrator, outcome: EngineStopOutcome)
    requires
        s.wf(),
        s.phase is Running,
    ensures
        ({
            let done = s.spec_on_signal().spec_resolve_engine_stop(outcome).spec_finish();
            done.wf() && done.phase is Stopped && done.server_aborted
        }),
        ENGINE_STOP_BUDGET_MS == 5000,
{
}

} // verus!
