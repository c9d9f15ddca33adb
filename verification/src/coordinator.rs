//! System coordinator: the handle the frontend keeps for system-level
//! operations.  The signal wiring it performs at start-up belongs to
//! the GUI bridge and stays outside this library.

use vstd::prelude::*;

verus! {

/// Coordinator handle for system-level operations.  It carries no
/// state of its own: every operation it fronts is independent.
pub struct SystemCoordinator;

impl SystemCoordinator {
    pub fn new() -> SystemCoordinator {
        SystemCoordinator
    }
}

impl Default for SystemCoordinator {
    fn default() -> SystemCoordinator {
        SystemCoordinator
    }
}

} // verus!
