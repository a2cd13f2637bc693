use vstd::prelude::*;
use vstd::slice::slice_to_vec;
use vstd::string::StringExecFns;
use vstd::utf8::encode_utf8;
use crate::task::{Task, TaskResult};

verus! {

/// How long an executor waits before looking again when no task is pending,
/// in milliseconds.
pub const IDLE_POLL_MS: u64 = 100;

/// How a run of a task goes: how long it works, and whether it succeeds.
#[derive(Debug, Clone, Copy, PartialEq, Eq, Structural)]
pub struct RunPlan {
    pub delay_ms: u64,
    pub success: bool,
}

/// The run plan for a task of the given name: "compute" works 100 ms,
/// "io" 50 ms, "fail" fails at once, any other name works 10 ms.
pub open spec fn run_plan_for(name: Seq<char>) -> RunPlan {
    if name == "compute"@ {
        RunPlan { delay_ms: 100, success: true }
    } else if name == "io"@ {
        RunPlan { delay_ms: 50, success: true }
    } else if name == "fail"@ {
        RunPlan { delay_ms: 0, success: false }
    } else {
        RunPlan { delay_ms: 10, success: true }
    }
}

/// The text a successful run reports for a task named `name`.
pub open spec fn success_message(name: Seq<char>) -> Seq<char> {
    "Task "@ + name + " completed successfully"@
}

/// The text a failed run reports.
pub open spec fn failure_message() -> Seq<char> {
    "Task execution failed"@
}

/// Runs tasks from a queue, at most `concurrency_limit` at a time.
pub struct TaskExecutor {
    concurrency_limit: usize,
}

impl TaskExecutor {
    pub fn new(concurrency_limit: usize) -> (e: TaskExecutor)
        ensures
            e.limit() == concurrency_limit,
    {
        TaskExecutor { concurrency_limit }
    }

    pub closed spec fn limit(&self) -> usize {
        self.concurrency_limit
    }

    pub fn concurrency_limit(&self) -> (n: usize)
        ensures
            n == self.limit(),
    {
        self.concurrency_limit
    }

    /// Decides how a run of `task` goes, by its name.
    pub fn run_task(task: &Task) -> (p: RunPlan)
        ensures
            p == run_plan_for(task.name@),
    {
        if task.name == "compute".to_string() {
            RunPlan { delay_ms: 100, success: true }
        } else if task.name == "io".to_string() {
            RunPlan { delay_ms: 50, success: true }
        } else if task.name == "fail".to_string() {
            RunPlan { delay_ms: 0, success: false }
        } else {
            RunPlan { delay_ms: 10, success: true }
        }
    }

    /// The result reported for a run of `task` that ended with `success`:
    /// a success carries the UTF-8 bytes of "Task <name> completed
    /// successfully", a failure the message "Task execution failed".
    pub fn execute_task(task: &Task, success: bool) -> (r: TaskResult)
        ensures
            r.task_id == task.id,
            r.success == success,
            success ==> (r.output matches Some(o) && o@ == encode_utf8(success_message(task.name@))),
            !success ==> r.output is None,
            !success ==> (r.error matches Some(e) && e@ == failure_message()),
            success ==> r.error is None,
    {
        if success {
            let msg = "Task ".to_string().concat(task.name.as_str()).concat(" completed successfully");
            let bytes = slice_to_vec(msg.as_str().as_bytes());
            TaskResult { task_id: task.id, success, output: Some(bytes), error: None }
        } else {
            TaskResult {
                task_id: task.id,
                success,
                output: None,
                error: Some("Task execution failed".to_string()),
            }
        }
    }
}

} // verus!
