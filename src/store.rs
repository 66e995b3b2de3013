use vstd::prelude::*;

use crate::state::{
    check_transition, refresh_stamp, refreshed, transition_allowed, FangTaskState, StorageError,
    TaskError,
};
use crate::sources::{current_micros, fresh_task_id};
use crate::task::{comes_before, copy_text, text_of, NewTask, Task, TaskRecord};

verus! {

/// A row lock held by an open transaction, with the row as it was committed
/// before that transaction touched it.
#[derive(Debug)]
pub struct Held {
    pub holder: u64,
    pub before: Task,
}

/// One row of the task table: its latest version and the lock on it, if any.
#[derive(Debug)]
pub struct Row {
    pub task: Task,
    pub lock: Option<Held>,
}

pub struct RowRecord {
    pub task: TaskRecord,
    pub lock: Option<(u64, TaskRecord)>,
}

impl View for Row {
    type V = RowRecord;

    open spec fn view(&self) -> RowRecord {
        RowRecord {
            task: self.task@,
            lock: match self.lock {
                Some(h) => Some((h.holder, h.before@)),
                None => None,
            },
        }
    }
}

/// The task table. Transactions are named by `u64` values chosen by the caller.
#[derive(Debug)]
pub struct TaskStore {
    rows: Vec<Row>,
}

/// What a claim hands back.
#[derive(Debug)]
pub enum ClaimOutcome {
    /// The oldest pending task, now in progress and locked by the caller.
    Claimed(Task),
    /// No task is pending.
    Empty,
    /// The oldest pending task is locked by the named transaction: the caller
    /// must wait until it resolves.
    Blocked(u64),
}

pub enum ClaimView {
    Claimed(TaskRecord),
    Empty,
    Blocked(u64),
}

impl View for ClaimOutcome {
    type V = ClaimView;

    open spec fn view(&self) -> ClaimView {
        match self {
            ClaimOutcome::Claimed(t) => ClaimView::Claimed(t@),
            ClaimOutcome::Empty => ClaimView::Empty,
            ClaimOutcome::Blocked(h) => ClaimView::Blocked(*h),
        }
    }
}

pub open spec fn claim_view(r: Result<ClaimOutcome, TaskError>) -> Result<ClaimView, TaskError> {
    match r {
        Ok(c) => Ok(c@),
        Err(e) => Err(e),
    }
}

pub open spec fn task_view(r: Result<Task, TaskError>) -> Result<TaskRecord, TaskError> {
    match r {
        Ok(t) => Ok(t@),
        Err(e) => Err(e),
    }
}

/// The version of a row that transaction `tx` reads: its own changes, or
/// the committed version where another transaction holds the lock.
pub open spec fn visible(r: RowRecord, tx: u64) -> TaskRecord {
    match r.lock {
        Some((h, b)) => if h == tx {
            r.task
        } else {
            b
        },
        None => r.task,
    }
}

pub open spec fn eligible(r: RowRecord, tx: u64) -> bool {
    visible(r, tx).state == FangTaskState::New
}

pub open spec fn held_by(r: RowRecord, tx: u64) -> bool {
    r.lock matches Some((h, _)) && h == tx
}

/// Row `i` is the oldest task that `tx` sees pending.
pub open spec fn is_next(rows: Seq<RowRecord>, tx: u64, i: int) -> bool {
    &&& 0 <= i < rows.len()
    &&& eligible(rows[i], tx)
    &&& forall|j: int|
        0 <= j < rows.len() && j != i && eligible(#[trigger] rows[j], tx) ==> comes_before(
            rows[i].task,
            rows[j].task,
        )
}

/// Identities are unique; a locked row has been claimed out of the pending
/// state, and its committed version differs only in state, message and stamp.
pub open spec fn store_wf(rows: Seq<RowRecord>) -> bool {
    &&& forall|i: int, j: int|
        0 <= i < rows.len() && 0 <= j < rows.len() && i != j ==> #[trigger] rows[i].task.id
            != #[trigger] rows[j].task.id
    &&& forall|i: int|
        0 <= i < rows.len() ==> match #[trigger] rows[i].lock {
            Some((_, b)) => b.id == rows[i].task.id && b.created_at == rows[i].task.created_at
                && b.metadata == rows[i].task.metadata && b.state == FangTaskState::New
                && rows[i].task.state != FangTaskState::New,
            None => true,
        }
}

pub open spec fn in_progress(t: TaskRecord, stamp: i64) -> TaskRecord {
    TaskRecord { state: FangTaskState::InProgress, updated_at: stamp, ..t }
}

/// What a claim by `tx` at clock reading `now` returns, and the table after it.
pub open spec fn claim_post(
    s: Seq<RowRecord>,
    tx: u64,
    now: i64,
    r: Result<ClaimView, TaskError>,
    s2: Seq<RowRecord>,
) -> bool {
    match r {
        Ok(ClaimView::Empty) => s2 == s && forall|j: int|
            0 <= j < s.len() ==> !eligible(#[trigger] s[j], tx),
        Ok(ClaimView::Blocked(h)) => s2 == s && h != tx && exists|i: int|
            is_next(s, tx, i) && #[trigger] held_by(s[i], h),
        Ok(ClaimView::Claimed(t)) => exists|i: int|
            #![trigger s[i]]
            is_next(s, tx, i) && s[i].lock is None && refreshed(s[i].task.updated_at, now)
                == Some(t.updated_at) && t == in_progress(s[i].task, t.updated_at) && s2
                == s.update(i, RowRecord { task: t, lock: Some((tx, s[i].task)) }),
        Err(e) => s2 == s && e == TaskError::Storage(StorageError::ClockExhausted) && exists|
            i: int,
        |
            #![trigger s[i]]
            is_next(s, tx, i) && s[i].lock is None && refreshed(s[i].task.updated_at, now)
                is None,
    }
}

/// The task after a permitted transition to `target`; only a failure stores
/// the message.
pub open spec fn transitioned(
    t: TaskRecord,
    target: FangTaskState,
    msg: Option<Seq<char>>,
    stamp: i64,
) -> TaskRecord {
    TaskRecord {
        state: target,
        updated_at: stamp,
        error_message: if target == FangTaskState::Failed {
            msg
        } else {
            t.error_message
        },
        ..t
    }
}

/// What an update of task `id` to `target` by `tx` returns, and the table after it.
pub open spec fn update_post(
    s: Seq<RowRecord>,
    tx: u64,
    id: u128,
    target: FangTaskState,
    msg: Option<Seq<char>>,
    now: i64,
    r: Result<TaskRecord, TaskError>,
    s2: Seq<RowRecord>,
) -> bool {
    if forall|j: int| 0 <= j < s.len() ==> (#[trigger] s[j]).task.id != id {
        r == Err::<TaskRecord, TaskError>(TaskError::Storage(StorageError::UnknownTask)) && s2
            == s
    } else {
        exists|i: int|
            #![trigger s[i]]
            0 <= i < s.len() && s[i].task.id == id && update_branch(s, tx, i, target, msg, now, r, s2)
    }
}

/// The outcome of an update by `tx` of the task in row `i`.
pub open spec fn update_branch(
    s: Seq<RowRecord>,
    tx: u64,
    i: int,
    target: FangTaskState,
    msg: Option<Seq<char>>,
    now: i64,
    r: Result<TaskRecord, TaskError>,
    s2: Seq<RowRecord>,
) -> bool {
    if !transition_allowed(
        visible(s[i], tx).state,
        target,
    ) {
        r == Err::<TaskRecord, TaskError>(TaskError::InvalidTransition) && s2 == s
    } else if !held_by(s[i], tx) {
        r == Err::<TaskRecord, TaskError>(TaskError::Storage(StorageError::NotClaimed))
            && s2 == s
    } else if refreshed(s[i].task.updated_at, now) is None {
        r == Err::<TaskRecord, TaskError>(TaskError::Storage(StorageError::ClockExhausted))
            && s2 == s
    } else {
        r == Ok::<TaskRecord, TaskError>(
            transitioned(s[i].task, target, msg, refreshed(s[i].task.updated_at, now)->0),
        ) && s2 == s.update(
            i,
            RowRecord {
                task: transitioned(
                    s[i].task,
                    target,
                    msg,
                    refreshed(s[i].task.updated_at, now)->0,
                ),
                lock: s[i].lock,
            },
        )
    }
}

/// The row once transaction `tx` commits.
pub open spec fn committed(r: RowRecord, tx: u64) -> RowRecord {
    if held_by(r, tx) {
        RowRecord { task: r.task, lock: None }
    } else {
        r
    }
}

/// The row once transaction `tx` rolls back.
pub open spec fn rolled_back(r: RowRecord, tx: u64) -> RowRecord {
    match r.lock {
        Some((h, b)) => if h == tx {
            RowRecord { task: b, lock: None }
        } else {
            r
        },
        None => r,
    }
}

impl View for TaskStore {
    type V = Seq<RowRecord>;

    closed spec fn view(&self) -> Seq<RowRecord> {
        self.rows@.map_values(|r: Row| r@)
    }
}

/// The error message a task carries after a permitted transition to `target`:
/// `message` for a failure, the current one otherwise.
pub fn message_after(current: &Option<String>, target: FangTaskState, message: Option<String>) -> (r:
    Option<String>)
    ensures
        text_of(r) == (if target == FangTaskState::Failed {
            text_of(message)
        } else {
            text_of(*current)
        }),
{
    if target == FangTaskState::Failed {
        message
    } else {
        copy_text(current)
    }
}

fn eligible_row(row: &Row, tx: u64) -> (r: bool)
    ensures
        r == eligible(row@, tx),
{
    match &row.lock {
        Some(h) => if h.holder == tx {
            row.task.state == FangTaskState::New
        } else {
            h.before.state == FangTaskState::New
        },
        None => row.task.state == FangTaskState::New,
    }
}

impl TaskStore {
    pub closed spec fn wf(&self) -> bool {
        store_wf(self@)
    }

    /// The table's invariant, as the laws about tables state it.
    pub proof fn lemma_wf(&self)
        requires
            self.wf(),
        ensures
            store_wf(self@),
    {
    }

    /// An empty table.
    pub fn empty() -> (r: TaskStore)
        ensures
            r.wf(),
            r@ == Seq::<RowRecord>::empty(),
    {
        let r = TaskStore { rows: Vec::new() };
        assert(r@ =~= Seq::<RowRecord>::empty());
        r
    }

    proof fn lemma_view(&self)
        ensures
            self@.len() == self.rows@.len(),
            forall|j: int| 0 <= j < self.rows@.len() ==> #[trigger] self@[j] == self.rows@[j]@,
    {
    }

    /// The position of the oldest task that `tx` sees pending.
    fn find_next(&self, tx: u64) -> (r: Option<usize>)
        requires
            self.wf(),
        ensures
            r matches Some(i) ==> is_next(self@, tx, i as int),
            r is None ==> forall|j: int| 0 <= j < self@.len() ==> !eligible(#[trigger] self@[j], tx),
    {
        let mut best: Option<usize> = None;
        let mut k: usize = 0;
        while k < self.rows.len()
            invariant
                k <= self.rows@.len(),
                self@.len() == self.rows@.len(),
                forall|j: int| 0 <= j < self.rows@.len() ==> #[trigger] self@[j] == self.rows@[j]@,
                store_wf(self@),
                best matches Some(b) ==> b < k && eligible(self@[b as int], tx) && forall|j: int|
                    0 <= j < k && j != b && eligible(#[trigger] self@[j], tx) ==> comes_before(
                        self@[b as int].task,
                        self@[j].task,
                    ),
                best is None ==> forall|j: int| 0 <= j < k ==> !eligible(#[trigger] self@[j], tx),
            decreases self.rows@.len() - k,
        {
            if eligible_row(&self.rows[k], tx) {
                match best {
                    None => {
                        best = Some(k);
                    },
                    Some(b) => {
                        if self.rows[k].task.precedes(&self.rows[b].task) {
                            best = Some(k);
                        } else {
                            assert(self@[b as int].task.id != self@[k as int].task.id);
                        }
                    },
                }
            }
            k = k + 1;
        }
        best
    }

    /// The position of the task with identity `id`.
    fn position_of(&self, id: u128) -> (r: Option<usize>)
        ensures
            r matches Some(i) ==> i < self@.len() && self@[i as int].task.id == id,
            r is None ==> forall|j: int| 0 <= j < self@.len() ==> (#[trigger] self@[j]).task.id != id,
    {
        let mut k: usize = 0;
        while k < self.rows.len()
            invariant
                k <= self.rows@.len(),
                self@.len() == self.rows@.len(),
                forall|j: int| 0 <= j < self.rows@.len() ==> #[trigger] self@[j] == self.rows@[j]@,
                forall|j: int| 0 <= j < k ==> (#[trigger] self@[j]).task.id != id,
            decreases self.rows@.len() - k,
        {
            if self.rows[k].task.id == id {
                return Some(k);
            }
            k = k + 1;
        }
        None
    }

    /// Adds a pending task with identity `id`, created at `now`. Fails with
    /// `DuplicateId`, leaving the table as it was, where the identity is taken.
    pub fn insert_with(&mut self, id: u128, metadata: String, now: i64) -> (r: Result<
        Task,
        TaskError,
    >)
        requires
            old(self).wf(),
        ensures
            final(self).wf(),
            (exists|j: int| 0 <= j < old(self)@.len() && (#[trigger] old(self)@[j]).task.id == id)
                ==> r == Err::<Task, TaskError>(TaskError::Storage(StorageError::DuplicateId))
                && final(self)@ == old(self)@,
            (forall|j: int| 0 <= j < old(self)@.len() ==> (#[trigger] old(self)@[j]).task.id != id)
                ==> r is Ok,
            r matches Ok(t) ==> t.id == id && t.metadata == metadata && t.error_message is None
                && t.state == FangTaskState::New && t.created_at == now && t.updated_at == now
                && final(self)@ == old(self)@.push(RowRecord { task: t@, lock: None }),
    {
        match self.position_of(id) {
            Some(_) => Err(TaskError::Storage(StorageError::DuplicateId)),
            None => {
                let task = Task::pending(id, metadata, now);
                let copy = task.duplicate();
                let ghost pre = self@;
                self.rows.push(Row { task, lock: None });
                assert(self@ =~= pre.push(RowRecord { task: copy@, lock: None }));
                Ok(copy)
            },
        }
    }

    /// Claims for transaction `tx` the oldest task that it sees pending: the
    /// task moves to `InProgress` with `updated_at` refreshed from `now`, and
    /// `tx` holds its lock. Where another transaction holds the lock on that
    /// task, nothing changes and the holder is named.
    pub fn claim_next_at(&mut self, tx: u64, now: i64) -> (r: Result<ClaimOutcome, TaskError>)
        requires
            old(self).wf(),
        ensures
            final(self).wf(),
            claim_post(old(self)@, tx, now, claim_view(r), final(self)@),
    {
        match self.find_next(tx) {
            None => Ok(ClaimOutcome::Empty),
            Some(i) => {
                assert(self@[i as int] == self.rows@[i as int]@);
                match &self.rows[i].lock {
                    Some(h) => {
                        assert(held_by(self@[i as int], h.holder));
                        Ok(ClaimOutcome::Blocked(h.holder))
                    },
                    None => {
                        match refresh_stamp(self.rows[i].task.updated_at, now) {
                            None => Err(TaskError::Storage(StorageError::ClockExhausted)),
                            Some(stamp) => {
                                let before = self.rows[i].task.duplicate();
                                let mut task = self.rows[i].task.duplicate();
                                task.state = FangTaskState::InProgress;
                                task.updated_at = stamp;
                                let copy = task.duplicate();
                                let ghost pre = self@;
                                self.rows[i] = Row { task, lock: Some(Held { holder: tx, before }) };
                                assert(self@ =~= pre.update(
                                    i as int,
                                    RowRecord { task: copy@, lock: Some((tx, pre[i as int].task)) },
                                ));
                                assert(forall|a: int|
                                    0 <= a < self@.len() ==> #[trigger] self@[a].task.id == pre[a].task.id);
                                assert(store_wf(self@));
                                Ok(ClaimOutcome::Claimed(copy))
                            },
                        }
                    },
                }
            },
        }
    }

    /// Moves task `id` to `target` within transaction `tx`, which must hold its
    /// lock; a move to `Failed` records `error_message`. The transition is
    /// judged against the version of the task that `tx` reads.
    pub fn update_state_at(
        &mut self,
        tx: u64,
        id: u128,
        target: FangTaskState,
        error_message: Option<String>,
        now: i64,
    ) -> (r: Result<Task, TaskError>)
        requires
            old(self).wf(),
        ensures
            final(self).wf(),
            update_post(
                old(self)@,
                tx,
                id,
                target,
                crate::task::text_of(error_message),
                now,
                task_view(r),
                final(self)@,
            ),
    {
        let i = match self.position_of(id) {
            None => {
                return Err(TaskError::Storage(StorageError::UnknownTask));
            },
            Some(i) => i,
        };
        assert(self@[i as int] == self.rows@[i as int]@);
        let seen = match &self.rows[i].lock {
            Some(h) => if h.holder == tx {
                self.rows[i].task.state
            } else {
                h.before.state
            },
            None => self.rows[i].task.state,
        };
        if check_transition(seen, target).is_err() {
            return Err(TaskError::InvalidTransition);
        }
        let holds = match &self.rows[i].lock {
            Some(h) => h.holder == tx,
            None => false,
        };
        if !holds {
            return Err(TaskError::Storage(StorageError::NotClaimed));
        }
        let stamp = match refresh_stamp(self.rows[i].task.updated_at, now) {
            None => {
                return Err(TaskError::Storage(StorageError::ClockExhausted));
            },
            Some(stamp) => stamp,
        };
        let mut task = self.rows[i].task.duplicate();
        task.state = target;
        task.updated_at = stamp;
        task.error_message = message_after(&self.rows[i].task.error_message, target, error_message);
        let copy = task.duplicate();
        let ghost pre = self@;
        let row = &mut self.rows[i];
        row.task = task;
        assert(self@ =~= pre.update(i as int, RowRecord { task: copy@, lock: pre[i as int].lock }));
        assert(forall|a: int| 0 <= a < self@.len() ==> #[trigger] self@[a].task.id == pre[a].task.id);
        assert(store_wf(self@));
        Ok(copy)
    }

    /// Ends transaction `tx`, keeping its changes and releasing its locks.
    pub fn commit(&mut self, tx: u64)
        requires
            old(self).wf(),
        ensures
            final(self).wf(),
            final(self)@.len() == old(self)@.len(),
            forall|i: int|
                0 <= i < old(self)@.len() ==> #[trigger] final(self)@[i] == committed(
                    old(self)@[i],
                    tx,
                ),
    {
        proof {
            self.lemma_view();
        }
        let ghost pre = self@;
        let mut k: usize = 0;
        while k < self.rows.len()
            invariant
                k <= self.rows@.len(),
                self.rows@.len() == pre.len(),
                forall|j: int| 0 <= j < k ==> #[trigger] self.rows@[j]@ == committed(pre[j], tx),
                forall|j: int| k <= j < pre.len() ==> #[trigger] self.rows@[j]@ == pre[j],
            decreases self.rows@.len() - k,
        {
            let holds = match &self.rows[k].lock {
                Some(h) => h.holder == tx,
                None => false,
            };
            assert(self.rows@[k as int]@ == pre[k as int]);
            if holds {
                let row = &mut self.rows[k];
                row.lock = None;
                assert(self.rows@[k as int]@ =~= committed(pre[k as int], tx));
            }
            assert(self.rows@[k as int]@ == committed(pre[k as int], tx));
            k = k + 1;
        }
        proof {
            self.lemma_view();
        }
        assert(forall|a: int| 0 <= a < self@.len() ==> #[trigger] self@[a].task == pre[a].task);
    }

    /// Aborts transaction `tx`: each row it locked returns to its committed
    /// version, and the locks are released.
    pub fn rollback(&mut self, tx: u64)
        requires
            old(self).wf(),
        ensures
            final(self).wf(),
            final(self)@.len() == old(self)@.len(),
            forall|i: int|
                0 <= i < old(self)@.len() ==> #[trigger] final(self)@[i] == rolled_back(
                    old(self)@[i],
                    tx,
                ),
    {
        proof {
            self.lemma_view();
        }
        let ghost pre = self@;
        let mut k: usize = 0;
        while k < self.rows.len()
            invariant
                k <= self.rows@.len(),
                self.rows@.len() == pre.len(),
                forall|j: int| 0 <= j < k ==> #[trigger] self.rows@[j]@ == rolled_back(pre[j], tx),
                forall|j: int| k <= j < pre.len() ==> #[trigger] self.rows@[j]@ == pre[j],
            decreases self.rows@.len() - k,
        {
            assert(self.rows@[k as int]@ == pre[k as int]);
            let before = match &self.rows[k].lock {
                Some(h) => if h.holder == tx {
                    Some(h.before.duplicate())
                } else {
                    None
                },
                None => None,
            };
            if let Some(b) = before {
                self.rows[k] = Row { task: b, lock: None };
            }
            k = k + 1;
        }
        proof {
            self.lemma_view();
        }
        assert(forall|a: int| 0 <= a < self@.len() ==> #[trigger] self@[a].task.id == pre[a].task.id);
    }

    /// Adds a pending task carrying `params.metadata`, with a fresh random
    /// identity and the current time as its creation time.
    pub fn insert(&mut self, params: &NewTask) -> (r: Result<Task, TaskError>)
        requires
            old(self).wf(),
        ensures
            final(self).wf(),
            old(self)@.len() == 0 ==> r is Ok,
            r is Err ==> r == Err::<Task, TaskError>(TaskError::Storage(StorageError::DuplicateId))
                && final(self)@ == old(self)@,
            r matches Ok(t) ==> t.metadata == params.metadata && t.error_message is None && t.state
                == FangTaskState::New && t.created_at == t.updated_at && 0 <= t.created_at
                < i64::MAX && (forall|j: int|
                0 <= j < old(self)@.len() ==> (#[trigger] old(self)@[j]).task.id != t.id)
                && final(self)@ == old(self)@.push(RowRecord { task: t@, lock: None }),
    {
        let id = fresh_task_id();
        let now = current_micros();
        self.insert_with(id, params.metadata.clone(), now)
    }

    /// Claims for transaction `tx` the oldest task it sees pending, reading
    /// the clock for the new `updated_at`.
    pub fn fetch_task(&mut self, tx: u64) -> (r: Result<ClaimOutcome, TaskError>)
        requires
            old(self).wf(),
        ensures
            final(self).wf(),
            exists|now: i64| claim_post(old(self)@, tx, now, claim_view(r), final(self)@),
    {
        let now = current_micros();
        self.claim_next_at(tx, now)
    }

    /// Moves task `id` to `target` within transaction `tx`, reading the clock
    /// for the new `updated_at`.
    pub fn update_state(
        &mut self,
        tx: u64,
        id: u128,
        target: FangTaskState,
        error_message: Option<String>,
    ) -> (r: Result<Task, TaskError>)
        requires
            old(self).wf(),
        ensures
            final(self).wf(),
            exists|now: i64|
                update_post(
                    old(self)@,
                    tx,
                    id,
                    target,
                    crate::task::text_of(error_message),
                    now,
                    task_view(r),
                    final(self)@,
                ),
    {
        let now = current_micros();
        self.update_state_at(tx, id, target, error_message, now)
    }

    pub fn len(&self) -> (r: usize)
        ensures
            r == self@.len(),
    {
        self.rows.len()
    }
}

} // verus!
