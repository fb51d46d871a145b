use vstd::prelude::*;

verus! {

/// Why an operation on a task or a task store was refused.
#[derive(Debug, Clone, Copy, PartialEq, Eq, Structural)]
pub enum TaskError {
    /// No task with the given id or name exists.
    NotFound,
    /// More than one task carries the requested name.
    Ambiguous,
    /// A timer was started on a task that is already running.
    AlreadyRunning,
    /// A timer was stopped or cancelled on a task that is not running.
    NotRunning,
    /// The operation requires a stopped task, but the task is running.
    TaskBusy,
    /// More time was asked to be subtracted than the task has accumulated.
    InsufficientDuration,
    /// A time token could not be parsed.
    InvalidFormat,
    /// A persisted store could not be read or written.
    IoFailure,
}

} // verus!
