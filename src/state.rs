use vstd::prelude::*;

verus! {

/// Lifecycle of a task. `New` is the pending state: created and not yet claimed.
#[derive(Clone, Copy, Debug, PartialEq, Eq, Structural)]
pub enum FangTaskState {
    New,
    InProgress,
    Finished,
    Failed,
}

impl FangTaskState {
    /// `Finished` and `Failed` admit no further transition.
    pub open spec fn is_terminal(self) -> bool {
        self == FangTaskState::Finished || self == FangTaskState::Failed
    }
}

/// The edges of the lifecycle: claim, success report, failure report.
pub open spec fn transition_allowed(from: FangTaskState, to: FangTaskState) -> bool {
    (from == FangTaskState::New && to == FangTaskState::InProgress) || (from
        == FangTaskState::InProgress && (to == FangTaskState::Finished || to
        == FangTaskState::Failed))
}

/// Why the store did not complete an operation.
#[derive(Clone, Copy, Debug, PartialEq, Eq, Structural)]
pub enum StorageError {
    /// A task with the same identity already exists.
    DuplicateId,
    /// No task has the given identity.
    UnknownTask,
    /// The calling transaction does not hold the lock on the task.
    NotClaimed,
    /// The task's timestamp cannot be moved forward any more.
    ClockExhausted,
}

#[derive(Clone, Copy, Debug, PartialEq, Eq, Structural)]
pub enum TaskError {
    Storage(StorageError),
    /// The requested state change is not an edge of the lifecycle.
    InvalidTransition,
}

/// Accepts exactly the edges of the lifecycle.
pub fn check_transition(from: FangTaskState, to: FangTaskState) -> (r: Result<(), TaskError>)
    ensures
        r is Ok <==> transition_allowed(from, to),
        r is Err ==> r == Err::<(), TaskError>(TaskError::InvalidTransition),
        from.is_terminal() ==> r == Err::<(), TaskError>(TaskError::InvalidTransition),
{
    match (from, to) {
        (FangTaskState::New, FangTaskState::InProgress) => Ok(()),
        (FangTaskState::InProgress, FangTaskState::Finished) => Ok(()),
        (FangTaskState::InProgress, FangTaskState::Failed) => Ok(()),
        _ => Err(TaskError::InvalidTransition),
    }
}

/// The value `updated_at` takes on a transition at clock reading `now`: the
/// reading itself when it is ahead of `old`, else the next tick after `old`.
pub open spec fn refreshed(old: i64, now: i64) -> Option<i64> {
    if now > old {
        Some(now)
    } else if old < i64::MAX {
        Some((old + 1) as i64)
    } else {
        None
    }
}

pub fn refresh_stamp(old: i64, now: i64) -> (r: Option<i64>)
    ensures
        r == refreshed(old, now),
        r matches Some(t) ==> t > old && t >= now,
{
    if now > old {
        Some(now)
    } else if old < i64::MAX {
        Some(old + 1)
    } else {
        None
    }
}

} // verus!
