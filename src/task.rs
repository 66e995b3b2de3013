use vstd::prelude::*;

use crate::state::FangTaskState;

verus! {

/// One unit of work. `metadata` is the producer's payload as a serialized
/// document; the store never looks inside it. Timestamps are microseconds
/// since the Unix epoch; `id` is the 128-bit value of a UUID.
#[derive(Debug, PartialEq, Eq)]
pub struct Task {
    pub id: u128,
    pub metadata: String,
    pub error_message: Option<String>,
    pub state: FangTaskState,
    pub created_at: i64,
    pub updated_at: i64,
}

/// What a producer supplies for a new task.
#[derive(Debug, Clone)]
pub struct NewTask {
    pub metadata: String,
}

/// The mathematical value of a task: its fields, with text as character sequences.
pub struct TaskRecord {
    pub id: u128,
    pub metadata: Seq<char>,
    pub error_message: Option<Seq<char>>,
    pub state: FangTaskState,
    pub created_at: i64,
    pub updated_at: i64,
}

pub open spec fn text_of(s: Option<String>) -> Option<Seq<char>> {
    match s {
        Some(t) => Some(t@),
        None => None,
    }
}

impl View for Task {
    type V = TaskRecord;

    open spec fn view(&self) -> TaskRecord {
        TaskRecord {
            id: self.id,
            metadata: self.metadata@,
            error_message: text_of(self.error_message),
            state: self.state,
            created_at: self.created_at,
            updated_at: self.updated_at,
        }
    }
}

/// Claim order: older first, ties broken by identity.
pub open spec fn comes_before(a: TaskRecord, b: TaskRecord) -> bool {
    a.created_at < b.created_at || (a.created_at == b.created_at && a.id < b.id)
}

pub fn copy_text(s: &Option<String>) -> (r: Option<String>)
    ensures
        r == *s,
{
    match s {
        Some(t) => Some(t.clone()),
        None => None,
    }
}

impl Task {
    /// A task with the given payload in the pending state.
    pub fn pending(id: u128, metadata: String, now: i64) -> (r: Task)
        ensures
            r.id == id,
            r.metadata == metadata,
            r.error_message is None,
            r.state == FangTaskState::New,
            r.created_at == now,
            r.updated_at == now,
    {
        Task {
            id,
            metadata,
            error_message: None,
            state: FangTaskState::New,
            created_at: now,
            updated_at: now,
        }
    }

    pub fn duplicate(&self) -> (r: Task)
        ensures
            r == *self,
            r@ == self@,
    {
        Task {
            id: self.id,
            metadata: self.metadata.clone(),
            error_message: copy_text(&self.error_message),
            state: self.state,
            created_at: self.created_at,
            updated_at: self.updated_at,
        }
    }

    pub fn precedes(&self, other: &Task) -> (r: bool)
        ensures
            r == comes_before(self@, other@),
    {
        self.created_at < other.created_at || (self.created_at == other.created_at && self.id
            < other.id)
    }
}

} // verus!
