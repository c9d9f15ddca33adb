//! Lifecycle operations on a platform without a native service
//! facility: every operation short-circuits to the same advisory
//! failure directing the operator to run the executable directly.
//! This is a deliberate terminal state, not a fault.

use vstd::prelude::*;
use crate::lifecycle::LifecycleError;

verus! {

/// Uninstall on a platform without a service facility: always refused.
pub fn uninstall_service() -> (r: Result<(), LifecycleError>)
    ensures
        r == Err::<(), LifecycleError>(LifecycleError::UnsupportedPlatform),
{
    Err(LifecycleError::UnsupportedPlatform)
}

/// Start on a platform without a service facility: always refused.
pub fn start_service() -> (r: Result<(), LifecycleError>)
    ensures
        r == Err::<(), LifecycleError>(LifecycleError::UnsupportedPlatform),
{
    Err(LifecycleError::UnsupportedPlatform)
}

/// Stop on a platform without a service facility: always refused.
pub fn stop_service() -> (r: Result<(), LifecycleError>)
    ensures
        r == Err::<(), LifecycleError>(LifecycleError::UnsupportedPlatform),
{
    Err(LifecycleError::UnsupportedPlatform)
}

} // verus!
