//! A task queue with retry bookkeeping and the decision core of a Raft
//! consensus node, both specified over mathematical models and verified.

pub mod error;
pub mod types;
pub mod ids;
pub mod task;
pub mod queue;
pub mod queue_laws;
pub mod raft_state;
pub mod storage;
pub mod raft_node;
pub mod executor;
pub mod api;
pub mod raft_laws;
