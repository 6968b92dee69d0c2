//! A per-target rate-limited task scheduler.
//!
//! The crate manages admission of tasks against per-(target, task type)
//! request budgets, holds denied tasks in an arrival-ordered queue, and
//! tracks a bounded pool of worker slots.  Time is handed in by the caller
//! as a plain timestamp, so every decision here is a pure function of the
//! scheduler's state and its arguments.

pub mod errors;
pub mod executor;
pub mod limiter;
pub mod logging;
pub mod manager;
pub mod queue;
pub mod scheduler;
