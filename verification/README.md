# raft_task_queue

A task queue with retry bookkeeping and the decision core of a Raft node,
written in Verus.

- `src/` is the verified library:
  - `task`, `queue`, `queue_laws`: tasks, the bounded queue over an abstract
    `QueueModel`, and the laws proved about it;
  - `executor`: how a task run goes and what it reports;
  - `api`: status names, filters and request defaults used by the HTTP layer;
  - `types`, `raft_state`, `raft_node`, `raft_laws`: log entries and
    messages, a node's state, the handlers that decide each step, and the
    laws about votes, appends, commits and heartbeats;
  - `storage`: in-memory Raft storage and its read-after-write laws;
  - `ids`: the calls into `uuid` and `chrono`.
- `app/` runs it: the REST API (axum), the dashboard, the executor loop and the
  asynchronous Raft node with its storage and network traits.
- `tests/` exercises the library on concrete values.
