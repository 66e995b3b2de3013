use fang::config::{resolve_config, ConfigError};
use fang::state::{check_transition, refresh_stamp, FangTaskState, StorageError, TaskError};
use fang::store::{message_after, ClaimOutcome, TaskStore};
use fang::task::{NewTask, Task};

const HOUR_MICROS: i64 = 3_600_000_000;

fn now_micros() -> i64 {
    chrono::Utc::now().timestamp_micros()
}

fn claimed(r: Result<ClaimOutcome, TaskError>) -> Task {
    match r {
        Ok(ClaimOutcome::Claimed(t)) => t,
        other => panic!("expected a claimed task, got {:?}", other),
    }
}

#[test]
fn insert_inserts_task() {
    let mut store = TaskStore::empty();
    let new_task = NewTask {
        metadata: serde_json::Value::Bool(true).to_string(),
    };

    let result = store.insert(&new_task).unwrap();

    assert_eq!(result.state, FangTaskState::New);
    assert_eq!(result.error_message, None);
}

#[test]
fn fetch_task_fetches_the_oldest_task() {
    let mut store = TaskStore::empty();
    let timestamp1 = now_micros() - 40 * HOUR_MICROS;
    let task1 = store.insert_with(1, "true".to_string(), timestamp1).unwrap();
    let timestamp2 = now_micros() - 20 * HOUR_MICROS;
    store.insert_with(2, "false".to_string(), timestamp2).unwrap();

    let found_task = claimed(store.fetch_task(7));

    assert_eq!(found_task.id, task1.id);
}

#[test]
fn fetch_task_locks_the_record() {
    let mut store = TaskStore::empty();
    let timestamp1 = now_micros() - 40 * HOUR_MICROS;
    let task1 = store.insert_with(10, "true".to_string(), timestamp1).unwrap();
    let timestamp2 = now_micros() - 20 * HOUR_MICROS;
    store.insert_with(20, "false".to_string(), timestamp2).unwrap();

    let first = claimed(store.fetch_task(1));
    assert_eq!(first.id, task1.id);

    match store.fetch_task(2) {
        Ok(ClaimOutcome::Blocked(holder)) => assert_eq!(holder, 1),
        other => panic!("expected the second claim to block, got {:?}", other),
    }
}

#[test]
fn inserted_tasks_get_distinct_ids_and_a_current_time() {
    let mut store = TaskStore::empty();
    let before = now_micros();
    let a = store.insert(&NewTask { metadata: "1".to_string() }).unwrap();
    let b = store.insert(&NewTask { metadata: "2".to_string() }).unwrap();
    assert_ne!(a.id, b.id);
    assert!(a.created_at >= before);
    assert_eq!(a.created_at, a.updated_at);
    assert_eq!(store.len(), 2);
}

#[test]
fn insert_rejects_a_taken_id() {
    let mut store = TaskStore::empty();
    store.insert_with(5, "a".to_string(), 100).unwrap();
    let r = store.insert_with(5, "b".to_string(), 200);
    assert_eq!(r, Err(TaskError::Storage(StorageError::DuplicateId)));
    assert_eq!(store.len(), 1);
}

#[test]
fn claim_on_empty_store_is_empty() {
    let mut store = TaskStore::empty();
    assert!(matches!(store.claim_next_at(1, 100), Ok(ClaimOutcome::Empty)));
}

#[test]
fn single_pending_task_goes_to_one_claimant() {
    let mut store = TaskStore::empty();
    store.insert_with(1, "x".to_string(), 100).unwrap();
    let t = claimed(store.claim_next_at(1, 200));
    assert_eq!(t.id, 1);
    assert!(matches!(store.claim_next_at(2, 201), Ok(ClaimOutcome::Blocked(1))));
    assert!(matches!(store.claim_next_at(3, 202), Ok(ClaimOutcome::Blocked(1))));
    store.commit(1);
    assert!(matches!(store.claim_next_at(2, 203), Ok(ClaimOutcome::Empty)));
}

#[test]
fn oldest_task_is_claimed_first() {
    let mut store = TaskStore::empty();
    store.insert_with(9, "newer".to_string(), 2_000).unwrap();
    store.insert_with(8, "older".to_string(), 1_000).unwrap();
    let t = claimed(store.claim_next_at(1, 3_000));
    assert_eq!(t.id, 8);
    assert_eq!(t.metadata, "older");
    assert_eq!(t.state, FangTaskState::InProgress);
    assert_eq!(t.updated_at, 3_000);
}

#[test]
fn equal_creation_times_break_ties_by_id() {
    let mut store = TaskStore::empty();
    store.insert_with(30, "c".to_string(), 500).unwrap();
    store.insert_with(10, "a".to_string(), 500).unwrap();
    store.insert_with(20, "b".to_string(), 500).unwrap();
    assert_eq!(claimed(store.claim_next_at(1, 600)).id, 10);
    store.commit(1);
    assert_eq!(claimed(store.claim_next_at(1, 601)).id, 20);
}

#[test]
fn claim_blocks_rather_than_skipping_a_locked_task() {
    let mut store = TaskStore::empty();
    store.insert_with(1, "t1".to_string(), 100).unwrap();
    store.insert_with(2, "t2".to_string(), 200).unwrap();
    assert_eq!(claimed(store.claim_next_at(1, 300)).id, 1);
    assert!(matches!(store.claim_next_at(2, 301), Ok(ClaimOutcome::Blocked(1))));
    store.rollback(1);
    assert_eq!(claimed(store.claim_next_at(2, 302)).id, 1);
}

#[test]
fn rollback_leaves_the_task_pending() {
    let mut store = TaskStore::empty();
    store.insert_with(1, "t".to_string(), 100).unwrap();
    claimed(store.claim_next_at(1, 300));
    store.rollback(1);
    let again = claimed(store.claim_next_at(2, 400));
    assert_eq!(again.id, 1);
    assert_eq!(again.updated_at, 400);
}

#[test]
fn transitions_follow_the_lifecycle() {
    let (n, p, d, f) = (
        FangTaskState::New,
        FangTaskState::InProgress,
        FangTaskState::Finished,
        FangTaskState::Failed,
    );
    assert_eq!(check_transition(n, p), Ok(()));
    assert_eq!(check_transition(p, d), Ok(()));
    assert_eq!(check_transition(p, f), Ok(()));
    assert_eq!(check_transition(n, d), Err(TaskError::InvalidTransition));
    assert_eq!(check_transition(p, n), Err(TaskError::InvalidTransition));
    for to in [n, p, d, f] {
        assert_eq!(check_transition(d, to), Err(TaskError::InvalidTransition));
        assert_eq!(check_transition(f, to), Err(TaskError::InvalidTransition));
    }
}

#[test]
fn update_from_terminal_state_is_rejected() {
    let mut store = TaskStore::empty();
    store.insert_with(1, "t".to_string(), 100).unwrap();
    claimed(store.claim_next_at(1, 200));
    let done = store.update_state_at(1, 1, FangTaskState::Finished, None, 300).unwrap();
    assert_eq!(done.state, FangTaskState::Finished);
    assert_eq!(
        store.update_state_at(1, 1, FangTaskState::Failed, Some("late".to_string()), 400),
        Err(TaskError::InvalidTransition)
    );
    store.commit(1);
    assert_eq!(
        store.update_state_at(2, 1, FangTaskState::InProgress, None, 500),
        Err(TaskError::InvalidTransition)
    );
}

#[test]
fn pending_task_cannot_jump_to_finished() {
    let mut store = TaskStore::empty();
    store.insert_with(1, "t".to_string(), 100).unwrap();
    assert_eq!(
        store.update_state_at(1, 1, FangTaskState::Finished, None, 200),
        Err(TaskError::InvalidTransition)
    );
}

#[test]
fn update_errors_for_unknown_and_unclaimed_tasks() {
    let mut store = TaskStore::empty();
    store.insert_with(1, "t".to_string(), 100).unwrap();
    assert_eq!(
        store.update_state_at(1, 99, FangTaskState::Finished, None, 200),
        Err(TaskError::Storage(StorageError::UnknownTask))
    );
    claimed(store.claim_next_at(1, 200));
    store.commit(1);
    assert_eq!(
        store.update_state_at(2, 1, FangTaskState::Finished, None, 300),
        Err(TaskError::Storage(StorageError::NotClaimed))
    );
}

#[test]
fn exhausted_clock_is_reported() {
    let mut store = TaskStore::empty();
    store.insert_with(1, "t".to_string(), i64::MAX).unwrap();
    assert_eq!(
        store.claim_next_at(1, 0).unwrap_err(),
        TaskError::Storage(StorageError::ClockExhausted)
    );
    assert_eq!(refresh_stamp(i64::MAX, 5), None);
    assert_eq!(refresh_stamp(10, 20), Some(20));
    assert_eq!(refresh_stamp(10, 3), Some(11));
}

#[test]
fn metadata_round_trips_through_a_claim() {
    let value: serde_json::Value = serde_json::from_str("{\"x\":1}").unwrap();
    let mut store = TaskStore::empty();
    let inserted = store.insert(&NewTask { metadata: value.to_string() }).unwrap();
    let t = claimed(store.fetch_task(1));
    assert_eq!(t.id, inserted.id);
    let back: serde_json::Value = serde_json::from_str(&t.metadata).unwrap();
    assert_eq!(back, value);
    assert_eq!(t.state, FangTaskState::InProgress);
    assert_eq!(t.error_message, None);
}

#[test]
fn failure_records_message_and_refreshes_stamp() {
    let mut store = TaskStore::empty();
    store.insert_with(1, "t".to_string(), 100).unwrap();
    let t = claimed(store.claim_next_at(1, 200));
    let failed = store
        .update_state_at(1, 1, FangTaskState::Failed, Some("boom".to_string()), 150)
        .unwrap();
    assert_eq!(failed.state, FangTaskState::Failed);
    assert_eq!(failed.error_message, Some("boom".to_string()));
    assert_eq!(failed.updated_at, 201);
    assert!(failed.updated_at > t.updated_at);
}

#[test]
fn failure_with_the_clock_records_message() {
    let mut store = TaskStore::empty();
    let inserted = store.insert(&NewTask { metadata: "m".to_string() }).unwrap();
    let t = claimed(store.fetch_task(4));
    let failed = store
        .update_state(4, inserted.id, FangTaskState::Failed, Some("boom".to_string()))
        .unwrap();
    assert_eq!(failed.error_message, Some("boom".to_string()));
    assert!(failed.updated_at > t.updated_at);
    store.commit(4);
    assert!(matches!(store.fetch_task(5), Ok(ClaimOutcome::Empty)));
}

#[test]
fn finishing_keeps_no_message() {
    let mut store = TaskStore::empty();
    store.insert_with(1, "t".to_string(), 100).unwrap();
    claimed(store.claim_next_at(1, 200));
    let done = store
        .update_state_at(1, 1, FangTaskState::Finished, Some("ignored".to_string()), 300)
        .unwrap();
    assert_eq!(done.error_message, None);
    assert_eq!(done.updated_at, 300);
}

#[test]
fn config_prefers_the_given_url() {
    let c = resolve_config(Some("postgres://a".to_string()), Some("postgres://b".to_string()));
    assert_eq!(c.unwrap().database_url, "postgres://a");
    let c = resolve_config(None, Some("postgres://b".to_string()));
    assert_eq!(c.unwrap().database_url, "postgres://b");
    assert_eq!(resolve_config(None, None).unwrap_err(), ConfigError::MissingDatabaseUrl);
}

#[test]
fn only_a_failure_replaces_the_message() {
    let current = Some("old".to_string());
    assert_eq!(
        message_after(&current, FangTaskState::Failed, Some("boom".to_string())),
        Some("boom".to_string())
    );
    assert_eq!(
        message_after(&current, FangTaskState::Finished, Some("boom".to_string())),
        Some("old".to_string())
    );
    assert_eq!(message_after(&None, FangTaskState::InProgress, Some("x".to_string())), None);
}

#[test]
fn rejected_finish_leaves_the_task_claimable() {
    let mut store = TaskStore::empty();
    let t = store.insert(&NewTask { metadata: "true".to_string() }).unwrap();
    assert_eq!(
        store.update_state(1, t.id, FangTaskState::Finished, None),
        Err(TaskError::InvalidTransition)
    );
    assert_eq!(claimed(store.fetch_task(2)).id, t.id);
}
