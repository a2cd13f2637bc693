use vstd::prelude::*;

verus! {

/// Errors of the Raft node.
#[derive(Debug)]
pub enum RaftError {
    InvalidTerm(u64),
    NotLeader,
    Storage(String),
    Network(String),
    Configuration(String),
}

/// Errors of the task queue.
#[derive(Debug)]
pub enum TaskQueueError {
    TaskNotFound(String),
    QueueFull,
    ExecutionFailed(String),
    RaftError(String),
}

} // verus!
