use raft_task_queue::api::{
    parse_status_filter, parse_task_id, stats_total_count, status_name, submission_fields, task_id_text,
    task_response_fields,
};
use raft_task_queue::executor::{RunPlan, TaskExecutor};
use raft_task_queue::task::{Task, TaskStatus, Timestamp};

fn task(name: &str) -> Task {
    Task {
        id: 11,
        name: name.to_string(),
        payload: vec![],
        status: TaskStatus::Running,
        created_at: Timestamp { secs: 1_700_000_000, nanos: 123_456_789 },
        scheduled_at: None,
        completed_at: None,
        retries: 0,
        max_retries: 3,
    }
}

#[test]
fn run_plans_by_name() {
    assert_eq!(TaskExecutor::run_task(&task("compute")), RunPlan { delay_ms: 100, success: true });
    assert_eq!(TaskExecutor::run_task(&task("io")), RunPlan { delay_ms: 50, success: true });
    assert_eq!(TaskExecutor::run_task(&task("fail")), RunPlan { delay_ms: 0, success: false });
    assert_eq!(TaskExecutor::run_task(&task("echo")), RunPlan { delay_ms: 10, success: true });
    assert_eq!(TaskExecutor::run_task(&task("Compute")), RunPlan { delay_ms: 10, success: true });
}

#[test]
fn results_report_outcome() {
    let ok = TaskExecutor::execute_task(&task("compute"), true);
    assert_eq!(ok.task_id, 11);
    assert!(ok.success);
    assert_eq!(ok.output, Some(b"Task compute completed successfully".to_vec()));
    assert_eq!(ok.error, None);
    let bad = TaskExecutor::execute_task(&task("fail"), false);
    assert!(!bad.success);
    assert_eq!(bad.output, None);
    assert_eq!(bad.error, Some("Task execution failed".to_string()));
}

#[test]
fn executor_keeps_its_limit() {
    assert_eq!(TaskExecutor::new(10).concurrency_limit(), 10);
}

#[test]
fn status_names_round_trip() {
    for s in [
        TaskStatus::Pending,
        TaskStatus::Running,
        TaskStatus::Completed,
        TaskStatus::Failed,
        TaskStatus::Cancelled,
    ] {
        let name = status_name(s);
        assert_eq!(name, format!("{:?}", s));
        assert_eq!(parse_status_filter(&name), Some(s));
    }
    assert_eq!(parse_status_filter(&"pending".to_string()), None);
    assert_eq!(parse_status_filter(&"".to_string()), None);
}

#[test]
fn submission_defaults() {
    let (p, r) = submission_fields(None, None);
    assert!(p.is_empty());
    assert_eq!(r, 3);
    let (p, r) = submission_fields(Some("data".to_string()), Some(0));
    assert_eq!(p, b"data".to_vec());
    assert_eq!(r, 0);
}

#[test]
fn stats_totals() {
    assert_eq!(stats_total_count(&vec![]), Some(0));
    assert_eq!(stats_total_count(&vec![(TaskStatus::Pending, 2), (TaskStatus::Failed, 5)]), Some(7));
    assert_eq!(stats_total_count(&vec![(TaskStatus::Pending, usize::MAX), (TaskStatus::Failed, 1)]), None);
}

#[test]
fn task_ids_print_and_parse() {
    let id: u128 = 0xa1a2a3a4b1b2c1c2d1d2d3d4d5d6d7d8;
    let text = task_id_text(id);
    assert_eq!(text, "a1a2a3a4-b1b2-c1c2-d1d2-d3d4d5d6d7d8");
    assert_eq!(parse_task_id(&text), Some(id));
    assert_eq!(parse_task_id("A1A2A3A4-B1B2-C1C2-D1D2-D3D4D5D6D7D8"), Some(id));
    assert_eq!(parse_task_id("not-a-uuid"), None);
    assert_eq!(parse_task_id(""), None);
}

#[test]
fn task_response_texts() {
    let (id, status, created) = task_response_fields(&task("compute"));
    assert_eq!(id, "00000000-0000-0000-0000-00000000000b");
    assert_eq!(status, "Running");
    assert_eq!(created, Some("2023-11-14T22:13:20.123456789+00:00".to_string()));
    let mut far = task("x");
    far.created_at = Timestamp { secs: i64::MAX, nanos: 0 };
    assert_eq!(task_response_fields(&far).2, None);
}
