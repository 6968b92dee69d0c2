use vstd::prelude::*;

verus! {

/// Errors surfaced by the scheduler.
///
/// None of them is fatal: every failure is local and recoverable.
#[derive(Clone, Copy, Debug, PartialEq, Eq, Structural)]
pub enum SchedulerError {
    /// The bounded task queue stands at its configured depth; the caller
    /// may retry later (backpressure).
    QueueFull,
    /// A task's own computation faulted while it ran.  Reported as an
    /// event by the component that ran the task; scheduler health is
    /// unaffected.
    TaskFailed,
    /// A malformed target was named.  The scheduler degrades such a
    /// target to the default bucket instead of returning this error, so
    /// no operation of this crate produces it.
    InvalidTarget,
    /// The scheduler is draining after `shutdown` and accepts no new
    /// submissions.
    ShutdownInProgress,
}

} // verus!
