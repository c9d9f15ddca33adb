//! Verified control-plane library for a privileged background daemon:
//! a minimal HTTP-like codec over a local transport, the client's
//! connection-retry policy, the service lifecycle state machines, and
//! the shutdown orchestrator.

use vstd::prelude::*;

pub mod client;
pub mod codec;
pub mod coordinator;
pub mod endpoint;
pub mod lifecycle;
pub mod shutdown;
pub mod text;
pub mod unsupported;

pub use client::ClientError;
pub use client::ConnectOutcome;
pub use client::IpcClient;
pub use client::IpcHttpResponse;
pub use codec::DecodeError;
pub use codec::RawResponse;
pub use codec::TransferEncoding;
pub use coordinator::SystemCoordinator;
pub use endpoint::BuildVariant;
pub use endpoint::TransportKind;
pub use lifecycle::InstallAction;
pub use lifecycle::LifecycleError;
pub use lifecycle::ServiceDescriptor;
pub use lifecycle::ServiceState;
pub use lifecycle::StopObservation;
pub use shutdown::DaemonPhase;
pub use shutdown::EngineStopOutcome;
pub use shutdown::EngineStopRequest;
pub use shutdown::ShutdownOrchestrator;

verus! {

} // verus!
