use raft_task_queue::error::TaskQueueError;
use raft_task_queue::queue::TaskQueue;
use raft_task_queue::task::{TaskResult, TaskStatus, Timestamp};

fn at(secs: i64) -> Timestamp {
    Timestamp { secs, nanos: 0 }
}

fn result(id: u128, success: bool) -> TaskResult {
    TaskResult { task_id: id, success, output: None, error: None }
}

#[test]
fn submit_then_get_returns_pending_task() {
    let mut q = TaskQueue::new(10);
    let id = q.submit_task_with(7, at(1000), "compute".to_string(), vec![1, 2, 3], 3).unwrap();
    assert_eq!(id, 7);
    let t = q.get_task(7).unwrap();
    assert_eq!(t.id, 7);
    assert_eq!(t.name, "compute");
    assert_eq!(t.payload, vec![1, 2, 3]);
    assert_eq!(t.status, TaskStatus::Pending);
    assert_eq!(t.created_at, at(1000));
    assert_eq!(t.scheduled_at, None);
    assert_eq!(t.completed_at, None);
    assert_eq!(t.retries, 0);
    assert_eq!(t.max_retries, 3);
}

#[test]
fn submit_with_random_id_is_version_four() {
    let mut q = TaskQueue::new(10);
    let id = q.submit_task("io".to_string(), vec![], 1).unwrap();
    assert_eq!(uuid::Uuid::from_u128(id).get_version_num(), 4);
    let t = q.get_task(id).unwrap();
    assert_eq!(t.name, "io");
    assert_eq!(t.status, TaskStatus::Pending);
}

#[test]
fn full_queue_rejects_submission() {
    let mut q = TaskQueue::new(1);
    q.submit_task_with(1, at(0), "a".to_string(), vec![], 0).unwrap();
    let r = q.submit_task_with(2, at(0), "b".to_string(), vec![], 0);
    assert!(matches!(r, Err(TaskQueueError::QueueFull)));
    assert!(q.get_task(2).is_err());
    let r2 = q.submit_task("c".to_string(), vec![], 0);
    assert!(matches!(r2, Err(TaskQueueError::QueueFull)));
}

#[test]
fn zero_capacity_rejects_everything() {
    let mut q = TaskQueue::new(0);
    assert!(matches!(q.submit_task_with(1, at(0), "a".to_string(), vec![], 0), Err(TaskQueueError::QueueFull)));
}

#[test]
fn unknown_task_error_names_id_in_uuid_form() {
    let q = TaskQueue::new(10);
    let id: u128 = 0xa1a2a3a4b1b2c1c2d1d2d3d4d5d6d7d8;
    match q.get_task(id) {
        Err(TaskQueueError::TaskNotFound(s)) => assert_eq!(s, "a1a2a3a4-b1b2-c1c2-d1d2-d3d4d5d6d7d8"),
        other => panic!("unexpected {:?}", other),
    }
    match q.get_task(0) {
        Err(TaskQueueError::TaskNotFound(s)) => assert_eq!(s, "00000000-0000-0000-0000-000000000000"),
        other => panic!("unexpected {:?}", other),
    }
}

#[test]
fn pending_tasks_are_dispatched_oldest_first() {
    let mut q = TaskQueue::new(10);
    q.submit_task_with(1, at(0), "a".to_string(), vec![], 0).unwrap();
    q.submit_task_with(2, at(0), "b".to_string(), vec![], 0).unwrap();
    assert_eq!(q.get_pending_task().unwrap().id, 1);
    q.submit_task_with(3, at(0), "c".to_string(), vec![], 0).unwrap();
    assert_eq!(q.get_pending_task().unwrap().id, 2);
    assert_eq!(q.get_pending_task().unwrap().id, 3);
    assert!(q.get_pending_task().is_none());
}

#[test]
fn random_ids_are_dispatched_in_submission_order() {
    let mut q = TaskQueue::new(10);
    let a = q.submit_task("a".to_string(), vec![], 0).unwrap();
    let b = q.submit_task("b".to_string(), vec![], 0).unwrap();
    assert_eq!(q.get_pending_task().unwrap().id, a);
    assert_eq!(q.get_pending_task().unwrap().id, b);
}

#[test]
fn dispatch_skips_cancelled_tasks() {
    let mut q = TaskQueue::new(10);
    q.submit_task_with(1, at(0), "a".to_string(), vec![], 0).unwrap();
    q.submit_task_with(2, at(0), "b".to_string(), vec![], 0).unwrap();
    q.cancel_task_at(1, at(5)).unwrap();
    let t = q.get_pending_task().unwrap();
    assert_eq!(t.id, 2);
    assert!(q.get_pending_task().is_none());
    let c = q.get_task(1).unwrap();
    assert_eq!(c.status, TaskStatus::Cancelled);
    assert_eq!(c.completed_at, Some(at(5)));
}

#[test]
fn dispatch_leaves_task_status_unchanged() {
    let mut q = TaskQueue::new(10);
    q.submit_task_with(1, at(0), "a".to_string(), vec![], 0).unwrap();
    q.get_pending_task().unwrap();
    assert_eq!(q.get_task(1).unwrap().status, TaskStatus::Pending);
}

#[test]
fn mark_running_records_start() {
    let mut q = TaskQueue::new(10);
    q.submit_task_with(1, at(0), "a".to_string(), vec![], 0).unwrap();
    q.mark_running_at(1, at(42)).unwrap();
    let t = q.get_task(1).unwrap();
    assert_eq!(t.status, TaskStatus::Running);
    assert_eq!(t.scheduled_at, Some(at(42)));
    assert!(matches!(q.mark_running_at(9, at(1)), Err(TaskQueueError::TaskNotFound(_))));
}

#[test]
fn mark_running_with_clock_sets_a_start_time() {
    let mut q = TaskQueue::new(10);
    q.submit_task_with(1, at(0), "a".to_string(), vec![], 0).unwrap();
    q.mark_running(1).unwrap();
    let t = q.get_task(1).unwrap();
    assert_eq!(t.status, TaskStatus::Running);
    assert!(t.scheduled_at.unwrap().secs > 0);
}

#[test]
fn successful_run_completes_task() {
    let mut q = TaskQueue::new(10);
    q.submit_task_with(1, at(0), "a".to_string(), vec![], 2).unwrap();
    q.complete_task_at(&result(1, true), at(77)).unwrap();
    let t = q.get_task(1).unwrap();
    assert_eq!(t.status, TaskStatus::Completed);
    assert_eq!(t.completed_at, Some(at(77)));
    assert_eq!(t.retries, 0);
}

#[test]
fn failed_run_retries_until_budget_is_spent() {
    let mut q = TaskQueue::new(10);
    q.submit_task_with(1, at(0), "fail".to_string(), vec![], 2).unwrap();
    assert_eq!(q.get_pending_task().unwrap().id, 1);
    q.complete_task_at(&result(1, false), at(10)).unwrap();
    let t = q.get_task(1).unwrap();
    assert_eq!(t.status, TaskStatus::Pending);
    assert_eq!(t.retries, 1);
    assert_eq!(t.completed_at, None);
    assert_eq!(q.get_pending_task().unwrap().id, 1);
    q.complete_task_at(&result(1, false), at(11)).unwrap();
    assert_eq!(q.get_task(1).unwrap().retries, 2);
    assert_eq!(q.get_pending_task().unwrap().id, 1);
    q.complete_task_at(&result(1, false), at(12)).unwrap();
    let t = q.get_task(1).unwrap();
    assert_eq!(t.status, TaskStatus::Failed);
    assert_eq!(t.retries, 2);
    assert_eq!(t.completed_at, Some(at(12)));
    assert!(q.get_pending_task().is_none());
}

#[test]
fn complete_unknown_task_fails() {
    let mut q = TaskQueue::new(10);
    assert!(matches!(q.complete_task(result(3, true)), Err(TaskQueueError::TaskNotFound(_))));
}

#[test]
fn complete_with_clock() {
    let mut q = TaskQueue::new(10);
    q.submit_task_with(1, at(0), "a".to_string(), vec![], 0).unwrap();
    q.complete_task(result(1, true)).unwrap();
    let t = q.get_task(1).unwrap();
    assert_eq!(t.status, TaskStatus::Completed);
    assert!(t.completed_at.is_some());
}

#[test]
fn cancel_only_pending_or_running() {
    let mut q = TaskQueue::new(10);
    q.submit_task_with(1, at(0), "a".to_string(), vec![], 0).unwrap();
    q.submit_task_with(2, at(0), "b".to_string(), vec![], 0).unwrap();
    q.mark_running_at(2, at(1)).unwrap();
    q.cancel_task(1).unwrap();
    q.cancel_task_at(2, at(3)).unwrap();
    assert_eq!(q.get_task(2).unwrap().status, TaskStatus::Cancelled);
    assert!(matches!(q.cancel_task(1), Err(TaskQueueError::TaskNotFound(_))));
    q.submit_task_with(3, at(0), "c".to_string(), vec![], 0).unwrap();
    q.complete_task_at(&result(3, true), at(4)).unwrap();
    assert!(matches!(q.cancel_task_at(3, at(5)), Err(TaskQueueError::TaskNotFound(_))));
    assert_eq!(q.get_task(3).unwrap().status, TaskStatus::Completed);
    assert!(matches!(q.cancel_task(99), Err(TaskQueueError::TaskNotFound(_))));
}

#[test]
fn list_tasks_filters_by_status_in_submission_order() {
    let mut q = TaskQueue::new(10);
    q.submit_task_with(5, at(0), "a".to_string(), vec![], 0).unwrap();
    q.submit_task_with(3, at(0), "b".to_string(), vec![], 0).unwrap();
    q.submit_task_with(9, at(0), "c".to_string(), vec![], 0).unwrap();
    q.mark_running_at(3, at(1)).unwrap();
    let all: Vec<u128> = q.list_tasks(None).iter().map(|t| t.id).collect();
    assert_eq!(all, vec![5, 3, 9]);
    let pending: Vec<u128> = q.list_tasks(Some(TaskStatus::Pending)).iter().map(|t| t.id).collect();
    assert_eq!(pending, vec![5, 9]);
    let running: Vec<u128> = q.list_tasks(Some(TaskStatus::Running)).iter().map(|t| t.id).collect();
    assert_eq!(running, vec![3]);
    assert!(q.list_tasks(Some(TaskStatus::Failed)).is_empty());
}

#[test]
fn resubmitting_an_id_replaces_the_task() {
    let mut q = TaskQueue::new(10);
    q.submit_task_with(1, at(0), "a".to_string(), vec![], 0).unwrap();
    q.mark_running_at(1, at(1)).unwrap();
    q.submit_task_with(1, at(2), "b".to_string(), vec![], 0).unwrap();
    let all = q.list_tasks(None);
    assert_eq!(all.len(), 1);
    assert_eq!(all[0].name, "b");
    assert_eq!(all[0].status, TaskStatus::Pending);
}

#[test]
fn stats_count_each_status_and_add_up() {
    let mut q = TaskQueue::new(10);
    for id in 1..=4u128 {
        q.submit_task_with(id, at(0), "t".to_string(), vec![], 0).unwrap();
    }
    q.mark_running_at(2, at(0)).unwrap();
    q.complete_task_at(&result(3, true), at(0)).unwrap();
    q.complete_task_at(&result(4, true), at(0)).unwrap();
    let stats = q.get_stats();
    assert_eq!(
        stats,
        vec![(TaskStatus::Pending, 1), (TaskStatus::Running, 1), (TaskStatus::Completed, 2)]
    );
    let total: usize = stats.iter().map(|p| p.1).sum();
    assert_eq!(total, q.list_tasks(None).len());
}

#[test]
fn empty_queue_has_no_stats() {
    let q = TaskQueue::new(10);
    assert!(q.get_stats().is_empty());
}

#[test]
fn clear_all_forgets_everything() {
    let mut q = TaskQueue::new(2);
    q.submit_task_with(1, at(0), "a".to_string(), vec![], 0).unwrap();
    q.submit_task_with(2, at(0), "b".to_string(), vec![], 0).unwrap();
    q.clear_all();
    assert!(q.list_tasks(None).is_empty());
    assert!(q.get_stats().is_empty());
    assert!(q.get_pending_task().is_none());
    assert!(q.get_task(1).is_err());
    q.submit_task_with(3, at(0), "c".to_string(), vec![], 0).unwrap();
    q.submit_task_with(4, at(0), "d".to_string(), vec![], 0).unwrap();
}

#[test]
fn completing_a_cancelled_task_changes_nothing() {
    let mut q = TaskQueue::new(10);
    q.submit_task_with(1, at(0), "a".to_string(), vec![], 2).unwrap();
    q.mark_running_at(1, at(1)).unwrap();
    q.cancel_task_at(1, at(2)).unwrap();
    q.complete_task_at(&result(1, false), at(3)).unwrap();
    let t = q.get_task(1).unwrap();
    assert_eq!(t.status, TaskStatus::Cancelled);
    assert_eq!(t.retries, 0);
    assert_eq!(t.completed_at, Some(at(2)));
    assert!(q.get_pending_task().is_none());
    q.complete_task(result(1, true)).unwrap();
    assert_eq!(q.get_task(1).unwrap().status, TaskStatus::Cancelled);
}

#[test]
fn retried_task_goes_to_the_end_of_the_line() {
    let mut q = TaskQueue::new(10);
    q.submit_task_with(1, at(0), "a".to_string(), vec![], 1).unwrap();
    q.submit_task_with(2, at(0), "b".to_string(), vec![], 0).unwrap();
    assert_eq!(q.get_pending_task().unwrap().id, 1);
    q.complete_task_at(&result(1, false), at(1)).unwrap();
    assert_eq!(q.get_pending_task().unwrap().id, 2);
    assert_eq!(q.get_pending_task().unwrap().id, 1);
}
