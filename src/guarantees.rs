use vstd::prelude::*;

use crate::state::{transition_allowed, FangTaskState, TaskError};
use crate::store::{
    claim_post, eligible, held_by, is_next, rolled_back, store_wf, update_branch, update_post,
    visible, ClaimView, RowRecord,
};
use crate::task::{comes_before, TaskRecord};

verus! {

/// At most one row is the oldest pending one for a transaction.
pub proof fn lemma_next_unique(s: Seq<RowRecord>, tx: u64, i: int, j: int)
    requires
        is_next(s, tx, i),
        is_next(s, tx, j),
    ensures
        i == j,
{
    if i != j {
        assert(comes_before(s[i].task, s[j].task));
        assert(comes_before(s[j].task, s[i].task));
    }
}

/// A task claimed by one transaction is not handed to any other transaction
/// while the first still holds it.
pub proof fn lemma_claim_exclusive(
    s0: Seq<RowRecord>,
    tx1: u64,
    now1: i64,
    t: TaskRecord,
    s1: Seq<RowRecord>,
    tx2: u64,
    now2: i64,
    r2: Result<ClaimView, TaskError>,
    s2: Seq<RowRecord>,
)
    requires
        store_wf(s0),
        claim_post(s0, tx1, now1, Ok(ClaimView::Claimed(t)), s1),
        tx1 != tx2,
        claim_post(s1, tx2, now2, r2, s2),
    ensures
        !(r2 matches Ok(ClaimView::Claimed(t2)) && t2.id == t.id),
{
    let i = choose|i: int|
        #![trigger s0[i]]
        is_next(s0, tx1, i) && s0[i].lock is None && refreshed_is(s0, i, now1, t) && s1
            == s0.update(i, RowRecord { task: t, lock: Some((tx1, s0[i].task)) });
    match r2 {
        Ok(ClaimView::Claimed(t2)) => {
            let k = choose|k: int|
                #![trigger s1[k]]
                is_next(s1, tx2, k) && s1[k].lock is None && refreshed_is(s1, k, now2, t2) && s2
                    == s1.update(k, RowRecord { task: t2, lock: Some((tx2, s1[k].task)) });
            assert(k != i);
            assert(s1[k] == s0[k]);
            assert(s0[k].task.id != s0[i].task.id);
        },
        _ => {},
    }
}

spec fn refreshed_is(s: Seq<RowRecord>, i: int, now: i64, t: TaskRecord) -> bool {
    crate::state::refreshed(s[i].task.updated_at, now) == Some(t.updated_at) && t
        == crate::store::in_progress(s[i].task, t.updated_at)
}

/// A claim succeeds on the oldest pending task when nobody holds its lock and
/// its timestamp can still move forward: that task is handed out in progress.
pub proof fn lemma_claim_succeeds(
    s: Seq<RowRecord>,
    tx: u64,
    now: i64,
    r: Result<ClaimView, TaskError>,
    s2: Seq<RowRecord>,
    i: int,
)
    requires
        store_wf(s),
        is_next(s, tx, i),
        s[i].lock is None,
        s[i].task.updated_at < i64::MAX,
        claim_post(s, tx, now, r, s2),
    ensures
        r matches Ok(ClaimView::Claimed(t)) && t.id == s[i].task.id && t.metadata
            == s[i].task.metadata && t.state == FangTaskState::InProgress,
{
    match r {
        Ok(ClaimView::Empty) => {
            assert(!eligible(s[i], tx));
        },
        Ok(ClaimView::Blocked(h)) => {
            let k = choose|k: int| is_next(s, tx, k) && #[trigger] held_by(s[k], h);
            lemma_next_unique(s, tx, i, k);
        },
        Ok(ClaimView::Claimed(t)) => {
            let k = choose|k: int|
                #![trigger s[k]]
                is_next(s, tx, k) && s[k].lock is None && refreshed_is(s, k, now, t) && s2
                    == s.update(k, RowRecord { task: t, lock: Some((tx, s[k].task)) });
            lemma_next_unique(s, tx, i, k);
        },
        Err(_) => {
            let k = choose|k: int|
                #![trigger s[k]]
                is_next(s, tx, k) && s[k].lock is None && crate::state::refreshed(
                    s[k].task.updated_at,
                    now,
                ) is None;
            lemma_next_unique(s, tx, i, k);
        },
    }
}

/// With a single pending task, the first claim gets it, and while that
/// transaction is open every other transaction's claim blocks on it and
/// changes nothing.
pub proof fn lemma_single_task_single_claimant(
    task: TaskRecord,
    tx1: u64,
    now1: i64,
    r1: Result<ClaimView, TaskError>,
    s1: Seq<RowRecord>,
    tx2: u64,
    now2: i64,
    r2: Result<ClaimView, TaskError>,
    s2: Seq<RowRecord>,
)
    requires
        task.state == FangTaskState::New,
        task.updated_at < i64::MAX,
        claim_post(seq![RowRecord { task: task, lock: None }], tx1, now1, r1, s1),
        tx1 != tx2,
        claim_post(s1, tx2, now2, r2, s2),
    ensures
        r1 matches Ok(ClaimView::Claimed(t)) && t.id == task.id,
        r2 == Ok::<ClaimView, TaskError>(ClaimView::Blocked(tx1)),
        s2 == s1,
{
    let s0 = seq![RowRecord { task: task, lock: None }];
    assert(s0[0] == RowRecord { task: task, lock: None });
    assert(is_next(s0, tx1, 0));
    lemma_claim_succeeds(s0, tx1, now1, r1, s1, 0);
    let t = r1->Ok_0->Claimed_0;
    assert(s1 == s0.update(0, RowRecord { task: t, lock: Some((tx1, task)) }));
    assert(s1[0] == RowRecord { task: t, lock: Some((tx1, task)) });
    assert(eligible(s1[0], tx2));
    assert(is_next(s1, tx2, 0));
    match r2 {
        Ok(ClaimView::Blocked(h)) => {
            let i = choose|i: int| is_next(s1, tx2, i) && #[trigger] held_by(s1[i], h);
            lemma_next_unique(s1, tx2, i, 0);
        },
        Ok(ClaimView::Claimed(_)) => {},
        Ok(ClaimView::Empty) => {},
        Err(_) => {},
    }
}

/// With no lock held, a claim never returns a task while an older one is
/// pending: it returns the oldest, or fails only because the clock is spent.
pub proof fn lemma_oldest_first(
    s: Seq<RowRecord>,
    tx: u64,
    now: i64,
    r: Result<ClaimView, TaskError>,
    s2: Seq<RowRecord>,
    i: int,
    j: int,
)
    requires
        store_wf(s),
        forall|k: int| 0 <= k < s.len() ==> (#[trigger] s[k]).lock is None,
        0 <= i < s.len(),
        0 <= j < s.len(),
        s[i].task.state == FangTaskState::New,
        s[j].task.state == FangTaskState::New,
        s[i].task.created_at < s[j].task.created_at,
        claim_post(s, tx, now, r, s2),
    ensures
        r is Ok ==> r matches Ok(ClaimView::Claimed(_)),
        r matches Ok(ClaimView::Claimed(t)) ==> t.id != s[j].task.id && t.created_at
            <= s[i].task.created_at,
{
    assert(eligible(s[i], tx));
    match r {
        Ok(ClaimView::Empty) => {},
        Ok(ClaimView::Blocked(h)) => {
            let k = choose|k: int| is_next(s, tx, k) && #[trigger] held_by(s[k], h);
        },
        Ok(ClaimView::Claimed(t)) => {
            let k = choose|k: int|
                #![trigger s[k]]
                is_next(s, tx, k) && s[k].lock is None && refreshed_is(s, k, now, t) && s2
                    == s.update(k, RowRecord { task: t, lock: Some((tx, s[k].task)) });
            if k != i {
                assert(comes_before(s[k].task, s[i].task));
            }
            if k == j {
                assert(comes_before(s[j].task, s[i].task));
            }
        },
        Err(_) => {},
    }
}

/// While another transaction holds the lock on a pending task, a claim does
/// not pass it over for a newer one: it never returns a newer task, and where
/// the locked task is the oldest pending one it blocks on its holder and
/// changes nothing.
pub proof fn lemma_blocked_not_skipped(
    s: Seq<RowRecord>,
    tx: u64,
    now: i64,
    r: Result<ClaimView, TaskError>,
    s2: Seq<RowRecord>,
    i: int,
    j: int,
    h: u64,
)
    requires
        store_wf(s),
        0 <= i < s.len(),
        0 <= j < s.len(),
        held_by(s[i], h),
        h != tx,
        eligible(s[j], tx),
        s[i].task.created_at < s[j].task.created_at,
        claim_post(s, tx, now, r, s2),
    ensures
        !(r matches Ok(ClaimView::Claimed(t)) && t.id == s[j].task.id),
        (forall|k: int|
            0 <= k < s.len() && k != i && eligible(#[trigger] s[k], tx) ==> comes_before(
                s[i].task,
                s[k].task,
            )) ==> r == Ok::<ClaimView, TaskError>(ClaimView::Blocked(h)) && s2 == s,
{
    assert(eligible(s[i], tx));
    if forall|k: int|
        0 <= k < s.len() && k != i && eligible(#[trigger] s[k], tx) ==> comes_before(
            s[i].task,
            s[k].task,
        ) {
        assert(is_next(s, tx, i));
    }
    match r {
        Ok(ClaimView::Empty) => {},
        Ok(ClaimView::Blocked(g)) => {
            let k = choose|k: int| is_next(s, tx, k) && #[trigger] held_by(s[k], g);
            if is_next(s, tx, i) {
                lemma_next_unique(s, tx, i, k);
            }
        },
        Ok(ClaimView::Claimed(t)) => {
            let k = choose|k: int|
                #![trigger s[k]]
                is_next(s, tx, k) && s[k].lock is None && refreshed_is(s, k, now, t) && s2
                    == s.update(k, RowRecord { task: t, lock: Some((tx, s[k].task)) });
            assert(k != i);
            assert(comes_before(s[k].task, s[i].task));
            if t.id == s[j].task.id {
                assert(k == j);
            }
        },
        Err(_) => {},
    }
}

/// No update leaves a finished or failed task, and none moves a pending task
/// straight to `Finished`: such a call fails with `InvalidTransition` and
/// changes nothing.
pub proof fn lemma_illegal_transition_rejected(
    s: Seq<RowRecord>,
    tx: u64,
    i: int,
    target: FangTaskState,
    msg: Option<Seq<char>>,
    now: i64,
    r: Result<TaskRecord, TaskError>,
    s2: Seq<RowRecord>,
)
    requires
        store_wf(s),
        0 <= i < s.len(),
        visible(s[i], tx).state.is_terminal() || (visible(s[i], tx).state == FangTaskState::New
            && target == FangTaskState::Finished),
        update_post(s, tx, s[i].task.id, target, msg, now, r, s2),
    ensures
        r == Err::<TaskRecord, TaskError>(TaskError::InvalidTransition),
        s2 == s,
{
    assert(!transition_allowed(visible(s[i], tx).state, target));
    let k = choose|k: int|
        #![trigger s[k]]
        0 <= k < s.len() && s[k].task.id == s[i].task.id && update_branch(
            s,
            tx,
            k,
            target,
            msg,
            now,
            r,
            s2,
        );
    assert(k == i);
}

/// A task claimed and then failed with a message within the same transaction
/// ends `Failed`, carrying that message, with `updated_at` strictly later than
/// at the claim.
pub proof fn lemma_failure_recorded(
    s0: Seq<RowRecord>,
    tx: u64,
    now1: i64,
    t: TaskRecord,
    s1: Seq<RowRecord>,
    msg: Seq<char>,
    now2: i64,
    r: Result<TaskRecord, TaskError>,
    s2: Seq<RowRecord>,
)
    requires
        store_wf(s0),
        claim_post(s0, tx, now1, Ok(ClaimView::Claimed(t)), s1),
        t.updated_at < i64::MAX,
        update_post(s1, tx, t.id, FangTaskState::Failed, Some(msg), now2, r, s2),
    ensures
        r matches Ok(f) && f.state == FangTaskState::Failed && f.error_message == Some(msg)
            && f.updated_at > t.updated_at && f.id == t.id && f.metadata == t.metadata,
{
    let i = choose|i: int|
        #![trigger s0[i]]
        is_next(s0, tx, i) && s0[i].lock is None && refreshed_is(s0, i, now1, t) && s1
            == s0.update(i, RowRecord { task: t, lock: Some((tx, s0[i].task)) });
    assert(s1[i].task == t);
    assert(held_by(s1[i], tx));
    let k = choose|k: int|
        #![trigger s1[k]]
        0 <= k < s1.len() && s1[k].task.id == t.id && update_branch(
            s1,
            tx,
            k,
            FangTaskState::Failed,
            Some(msg),
            now2,
            r,
            s2,
        );
    if k != i {
        assert(s1[k] == s0[k]);
        assert(s0[k].task.id != s0[i].task.id);
    }
}

/// A claim whose transaction rolls back leaves the table exactly as it was:
/// the task is pending again and unlocked.
pub proof fn lemma_rollback_undoes_claim(
    s0: Seq<RowRecord>,
    tx: u64,
    now: i64,
    t: TaskRecord,
    s1: Seq<RowRecord>,
    s2: Seq<RowRecord>,
)
    requires
        store_wf(s0),
        forall|k: int| 0 <= k < s0.len() ==> !held_by(#[trigger] s0[k], tx),
        claim_post(s0, tx, now, Ok(ClaimView::Claimed(t)), s1),
        s2.len() == s1.len(),
        forall|k: int| 0 <= k < s1.len() ==> #[trigger] s2[k] == rolled_back(s1[k], tx),
    ensures
        s2 == s0,
{
    let i = choose|i: int|
        #![trigger s0[i]]
        is_next(s0, tx, i) && s0[i].lock is None && refreshed_is(s0, i, now, t) && s1
            == s0.update(i, RowRecord { task: t, lock: Some((tx, s0[i].task)) });
    assert forall|k: int| 0 <= k < s0.len() implies #[trigger] s2[k] == s0[k] by {
        assert(s2[k] == rolled_back(s1[k], tx));
        if k != i {
            assert(s1[k] == s0[k]);
        }
    }
    assert(s2 =~= s0);
}

/// Blocking, not skipping, end to end: with no lock held, a first transaction
/// claims the oldest pending task; a second transaction's claim then blocks on
/// the first rather than returning a newer task; once the first rolls back,
/// the table is as before and the second transaction's claim gets the oldest
/// task.
pub proof fn lemma_blocked_until_rollback(
    s0: Seq<RowRecord>,
    i: int,
    tx1: u64,
    now1: i64,
    r1: Result<ClaimView, TaskError>,
    s1: Seq<RowRecord>,
    tx2: u64,
    now2: i64,
    r2: Result<ClaimView, TaskError>,
    s2: Seq<RowRecord>,
    s3: Seq<RowRecord>,
    now4: i64,
    r4: Result<ClaimView, TaskError>,
    s4: Seq<RowRecord>,
)
    requires
        store_wf(s0),
        forall|k: int| 0 <= k < s0.len() ==> (#[trigger] s0[k]).lock is None,
        is_next(s0, tx1, i),
        s0[i].task.updated_at < i64::MAX,
        tx1 != tx2,
        claim_post(s0, tx1, now1, r1, s1),
        claim_post(s1, tx2, now2, r2, s2),
        s3.len() == s2.len(),
        forall|k: int| 0 <= k < s2.len() ==> #[trigger] s3[k] == rolled_back(s2[k], tx1),
        claim_post(s3, tx2, now4, r4, s4),
    ensures
        r1 matches Ok(ClaimView::Claimed(t)) && t.id == s0[i].task.id,
        r2 == Ok::<ClaimView, TaskError>(ClaimView::Blocked(tx1)),
        s3 == s0,
        r4 matches Ok(ClaimView::Claimed(t)) && t.id == s0[i].task.id,
{
    lemma_claim_succeeds(s0, tx1, now1, r1, s1, i);
    let t = r1->Ok_0->Claimed_0;
    let i1 = choose|i1: int|
        #![trigger s0[i1]]
        is_next(s0, tx1, i1) && s0[i1].lock is None && refreshed_is(s0, i1, now1, t) && s1
            == s0.update(i1, RowRecord { task: t, lock: Some((tx1, s0[i1].task)) });
    lemma_next_unique(s0, tx1, i, i1);
    assert(held_by(s1[i], tx1));
    assert forall|k: int| 0 <= k < s1.len() && k != i && eligible(#[trigger] s1[k], tx2) implies comes_before(
        s1[i].task,
        s1[k].task,
    ) by {
        assert(s1[k] == s0[k]);
        assert(eligible(s0[k], tx1));
    }
    assert(eligible(s1[i], tx2));
    lemma_blocked_not_skipped_oldest(s1, tx2, now2, r2, s2, i, tx1);
    assert(forall|k: int| 0 <= k < s0.len() ==> !held_by(#[trigger] s0[k], tx1));
    lemma_rollback_undoes_claim(s0, tx1, now1, t, s1, s3);
    assert forall|k: int| 0 <= k < s0.len() && k != i && eligible(#[trigger] s0[k], tx2) implies comes_before(
        s0[i].task,
        s0[k].task,
    ) by {
        assert(eligible(s0[k], tx1));
    }
    assert(is_next(s0, tx2, i));
    lemma_claim_succeeds(s0, tx2, now4, r4, s4, i);
}

/// Where another transaction holds the lock on the oldest task `tx` sees
/// pending, a claim by `tx` blocks on that holder and changes nothing.
pub proof fn lemma_blocked_not_skipped_oldest(
    s: Seq<RowRecord>,
    tx: u64,
    now: i64,
    r: Result<ClaimView, TaskError>,
    s2: Seq<RowRecord>,
    i: int,
    h: u64,
)
    requires
        0 <= i < s.len(),
        held_by(s[i], h),
        h != tx,
        eligible(s[i], tx),
        forall|k: int|
            0 <= k < s.len() && k != i && eligible(#[trigger] s[k], tx) ==> comes_before(
                s[i].task,
                s[k].task,
            ),
        claim_post(s, tx, now, r, s2),
    ensures
        r == Ok::<ClaimView, TaskError>(ClaimView::Blocked(h)),
        s2 == s,
{
    assert(is_next(s, tx, i));
    match r {
        Ok(ClaimView::Empty) => {
            assert(!eligible(s[i], tx));
        },
        Ok(ClaimView::Blocked(g)) => {
            let k = choose|k: int| is_next(s, tx, k) && #[trigger] held_by(s[k], g);
            lemma_next_unique(s, tx, i, k);
        },
        Ok(ClaimView::Claimed(t)) => {
            let k = choose|k: int|
                #![trigger s[k]]
                is_next(s, tx, k) && s[k].lock is None && refreshed_is(s, k, now, t) && s2
                    == s.update(k, RowRecord { task: t, lock: Some((tx, s[k].task)) });
            lemma_next_unique(s, tx, i, k);
        },
        Err(_) => {
            let k = choose|k: int|
                #![trigger s[k]]
                is_next(s, tx, k) && s[k].lock is None && crate::state::refreshed(
                    s[k].task.updated_at,
                    now,
                ) is None;
            lemma_next_unique(s, tx, i, k);
        },
    }
}

/// An attempt to move a pending task straight to `Finished` is rejected with
/// `InvalidTransition` and leaves the task pending: the next claim that sees it
/// as the oldest pending task still gets it.
pub proof fn lemma_rejected_finish_keeps_task_claimable(
    s0: Seq<RowRecord>,
    i: int,
    tx: u64,
    msg: Option<Seq<char>>,
    now: i64,
    r: Result<TaskRecord, TaskError>,
    s1: Seq<RowRecord>,
    tx2: u64,
    now2: i64,
    r2: Result<ClaimView, TaskError>,
    s2: Seq<RowRecord>,
)
    requires
        store_wf(s0),
        0 <= i < s0.len(),
        s0[i].lock is None,
        s0[i].task.state == FangTaskState::New,
        s0[i].task.updated_at < i64::MAX,
        is_next(s0, tx2, i),
        update_post(s0, tx, s0[i].task.id, FangTaskState::Finished, msg, now, r, s1),
        claim_post(s1, tx2, now2, r2, s2),
    ensures
        r == Err::<TaskRecord, TaskError>(TaskError::InvalidTransition),
        s1 == s0,
        r2 matches Ok(ClaimView::Claimed(t)) && t.id == s0[i].task.id,
{
    lemma_illegal_transition_rejected(s0, tx, i, FangTaskState::Finished, msg, now, r, s1);
    lemma_claim_succeeds(s0, tx2, now2, r2, s2, i);
}

} // verus!
