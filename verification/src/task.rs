use vstd::prelude::*;

verus! {

/// Identifier of a task: a UUID held as its 128-bit big-endian value.
pub type TaskId = u128;

/// A point in time: whole seconds since the Unix epoch and the nanoseconds
/// past them.
#[derive(Debug, Clone, Copy, PartialEq, Eq, Structural)]
pub struct Timestamp {
    pub secs: i64,
    pub nanos: u32,
}

/// Lifecycle state of a task.
#[derive(Debug, Clone, Copy, PartialEq, Eq, Structural)]
pub enum TaskStatus {
    Pending,
    Running,
    Completed,
    Failed,
    Cancelled,
}

/// A unit of work held by the queue.
#[derive(Debug, Clone)]
pub struct Task {
    pub id: TaskId,
    pub name: String,
    pub payload: Vec<u8>,
    pub status: TaskStatus,
    pub created_at: Timestamp,
    pub scheduled_at: Option<Timestamp>,
    pub completed_at: Option<Timestamp>,
    pub retries: u32,
    pub max_retries: u32,
}

/// The mathematical value of a task.
pub struct TaskView {
    pub id: TaskId,
    pub name: Seq<char>,
    pub payload: Seq<u8>,
    pub status: TaskStatus,
    pub created_at: Timestamp,
    pub scheduled_at: Option<Timestamp>,
    pub completed_at: Option<Timestamp>,
    pub retries: u32,
    pub max_retries: u32,
}

impl View for Task {
    type V = TaskView;

    open spec fn view(&self) -> TaskView {
        TaskView {
            id: self.id,
            name: self.name@,
            payload: self.payload@,
            status: self.status,
            created_at: self.created_at,
            scheduled_at: self.scheduled_at,
            completed_at: self.completed_at,
            retries: self.retries,
            max_retries: self.max_retries,
        }
    }
}

impl Task {
    /// A copy with the same value.
    pub fn copy(&self) -> (t: Task)
        ensures
            t@ == self@,
    {
        let payload = self.payload.clone();
        proof {
            assert(payload@ =~= self.payload@);
        }
        Task {
            id: self.id,
            name: self.name.clone(),
            payload,
            status: self.status,
            created_at: self.created_at,
            scheduled_at: self.scheduled_at,
            completed_at: self.completed_at,
            retries: self.retries,
            max_retries: self.max_retries,
        }
    }
}

/// The outcome of running a task.
#[derive(Debug, Clone)]
pub struct TaskResult {
    pub task_id: TaskId,
    pub success: bool,
    pub output: Option<Vec<u8>>,
    pub error: Option<String>,
}

} // verus!
