//! Cooperative tasks.
//!
//! A task is a resumable unit of user logic identified by its index in the
//! kernel's task arena. The kernel owns each task's promise slot; the user
//! side owns what the task does when resumed.

use vstd::prelude::*;

use crate::shared_state::{AwaitKey, SharedState};
use crate::{Id, TaskId};

verus! {

/// A cooperative task registered with the kernel.
pub struct Task {
    /// The component on whose behalf the task runs.
    pub owner: Id,
    /// Whether the task can still be resumed.
    pub live: bool,
    /// The promise slot of the task's current suspension point.
    pub slot: SharedState,
}

impl Task {
    /// Creates a live task for the given owner, with a fresh slot.
    pub fn new_static(owner: Id) -> (r: Self)
        ensures
            r.owner == owner,
            r.live,
            !r.slot.completed,
            r.slot.waker == Some(0u64),
            r.slot.epoch == 0,
    {
        Task { owner, live: true, slot: SharedState::new(0, owner, owner) }
    }
}

/// What a resumed task asks the kernel to do next.
pub enum TaskStep {
    /// The task is done; it will never be resumed again.
    Finish,
    /// Suspend until the given delay has elapsed.
    Sleep {
        /// Relative delay until the wake-up.
        delay: u64,
    },
    /// Suspend until an event matching the key arrives.
    WaitEvent {
        /// The awaited key.
        key: AwaitKey,
    },
    /// Suspend until an event matching the key arrives or the timeout
    /// elapses, whichever comes first.
    WaitEventFor {
        /// The awaited key.
        key: AwaitKey,
        /// Relative deadline for the wait.
        timeout: u64,
    },
}

} // verus!
