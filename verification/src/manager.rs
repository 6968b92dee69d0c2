//! The capability interface a scheduler backend satisfies.
//!
//! Any component with `spawn_task`, `can_schedule` and `record_completion`
//! is a valid backend for callers that only hand work over.  A deferred
//! computation itself cannot cross a verified boundary, so a task travels
//! as its [`TaskDescriptor`] and the implementor maps the identifier to
//! the actual work it runs.

use vstd::prelude::*;

use crate::queue::TaskDescriptor;

verus! {

/// The task-manager contract: hand a task over, query admission, report
/// completion.
pub trait TaskManager: Send + Sync {
    /// Takes a task to run concurrently with the caller and returns at
    /// once.
    fn spawn_task(&self, task: TaskDescriptor);

    /// True when a task for this key may proceed under the target's
    /// current limits.
    fn can_schedule(&self, target_id: &str, task_type: &str) -> bool;

    /// Updates the target's resource utilization after a task finished.
    fn record_completion(&self, target_id: &str, task_type: &str);
}

/// A basic, non-functional stub: accepts every task, admits every key,
/// records nothing.
pub struct StubTaskManager;

impl TaskManager for StubTaskManager {
    fn spawn_task(&self, _task: TaskDescriptor) {
    }

    fn can_schedule(&self, _target_id: &str, _task_type: &str) -> (r: bool) {
        true
    }

    fn record_completion(&self, _target_id: &str, _task_type: &str) {
    }
}

} // verus!
