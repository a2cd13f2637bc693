use std::collections::{HashMap, VecDeque};
use vstd::prelude::*;
use crate::error::TaskQueueError;
use crate::ids::{rfc3339_of, uuid_text, uuid_variant, uuid_version, uuid_to_string, new_task_id};
use crate::task::{Task, TaskId, TaskStatus, TaskView, TaskResult, Timestamp};

verus! {

broadcast use vstd::std_specs::hash::group_hash_axioms;

/// A task freshly submitted at time `now`.
pub open spec fn fresh_task(
    id: TaskId,
    name: Seq<char>,
    payload: Seq<u8>,
    max_retries: u32,
    now: Timestamp,
) -> TaskView {
    TaskView {
        id,
        name,
        payload,
        status: TaskStatus::Pending,
        created_at: now,
        scheduled_at: None,
        completed_at: None,
        retries: 0,
        max_retries,
    }
}

/// A task once an executor has picked it up at time `now`.
pub open spec fn running_task(t: TaskView, now: Timestamp) -> TaskView {
    TaskView { status: TaskStatus::Running, scheduled_at: Some(now), ..t }
}

/// Whether a failed run puts the task back in line.
pub open spec fn requeues(t: TaskView, success: bool) -> bool {
    !success && t.retries < t.max_retries
}

/// A task after a run that ended at time `now` with outcome `success`.
pub open spec fn finished_task(t: TaskView, success: bool, now: Timestamp) -> TaskView {
    if success {
        TaskView { status: TaskStatus::Completed, completed_at: Some(now), ..t }
    } else if t.retries < t.max_retries {
        TaskView { status: TaskStatus::Pending, retries: (t.retries + 1) as u32, ..t }
    } else {
        TaskView { status: TaskStatus::Failed, completed_at: Some(now), ..t }
    }
}

/// Whether a task in this state may be cancelled.
pub open spec fn cancellable(t: TaskView) -> bool {
    t.status == TaskStatus::Pending || t.status == TaskStatus::Running
}

/// A task cancelled at time `now`.
pub open spec fn cancelled_task(t: TaskView, now: Timestamp) -> TaskView {
    TaskView { status: TaskStatus::Cancelled, completed_at: Some(now), ..t }
}

/// Whether a task passes an optional status filter.
pub open spec fn matches_filter(t: TaskView, filter: Option<TaskStatus>) -> bool {
    match filter {
        None => true,
        Some(s) => t.status == s,
    }
}

/// The predicate of an optional status filter.
pub open spec fn filter_pred(filter: Option<TaskStatus>) -> spec_fn(TaskView) -> bool {
    |t: TaskView| matches_filter(t, filter)
}

/// How many of the tasks in `ts` have status `s`.
pub open spec fn status_count(ts: Seq<TaskView>, s: TaskStatus) -> nat {
    ts.filter(filter_pred(Some(s))).len()
}

/// The statistics line for status `s`: present only when some task has it.
pub open spec fn stat_entry(s: TaskStatus, c: nat) -> Seq<(TaskStatus, nat)> {
    if c > 0 {
        seq![(s, c)]
    } else {
        Seq::empty()
    }
}

/// Per-status counts of `ts`, in the order Pending, Running, Completed,
/// Failed, Cancelled, leaving out the statuses that no task has.
pub open spec fn stats_of(ts: Seq<TaskView>) -> Seq<(TaskStatus, nat)> {
    stat_entry(TaskStatus::Pending, status_count(ts, TaskStatus::Pending))
        + stat_entry(TaskStatus::Running, status_count(ts, TaskStatus::Running))
        + stat_entry(TaskStatus::Completed, status_count(ts, TaskStatus::Completed))
        + stat_entry(TaskStatus::Failed, status_count(ts, TaskStatus::Failed))
        + stat_entry(TaskStatus::Cancelled, status_count(ts, TaskStatus::Cancelled))
}

/// The sum of the counts of a statistics table.
pub open spec fn stats_total(s: Seq<(TaskStatus, nat)>) -> nat
    decreases s.len(),
{
    if s.len() == 0 {
        0
    } else {
        stats_total(s.drop_last()) + s.last().1
    }
}

/// The abstract state of a task queue.
#[verifier::ext_equal]
pub struct QueueModel {
    /// Every task the queue knows, by id.
    pub tasks: Map<TaskId, TaskView>,
    /// The ids of the known tasks, each once, in the order they were first submitted.
    pub order: Seq<TaskId>,
    /// Ids waiting for dispatch, oldest first.
    pub pending: Seq<TaskId>,
    /// The most tasks the queue accepts.
    pub capacity: nat,
}

impl QueueModel {
    /// The invariant every reachable queue state has.
    pub open spec fn inv(self) -> bool {
        &&& self.tasks.dom().finite()
        &&& self.order.no_duplicates()
        &&& forall|i: int| 0 <= i < self.order.len() ==> #[trigger] self.tasks.contains_key(self.order[i])
        &&& forall|k: TaskId| #[trigger] self.tasks.contains_key(k) ==> self.order.contains(k)
        &&& forall|k: TaskId| #[trigger] self.tasks.contains_key(k) ==> {
            &&& self.tasks[k].id == k
            &&& self.tasks[k].retries <= self.tasks[k].max_retries
        }
    }

    pub open spec fn is_full(self) -> bool {
        self.tasks.len() >= self.capacity
    }

    /// The queue after accepting a new task under `id`.
    pub open spec fn submit(
        self,
        id: TaskId,
        name: Seq<char>,
        payload: Seq<u8>,
        max_retries: u32,
        now: Timestamp,
    ) -> QueueModel {
        QueueModel {
            tasks: self.tasks.insert(id, fresh_task(id, name, payload, max_retries, now)),
            order: if self.tasks.contains_key(id) { self.order } else { self.order.push(id) },
            pending: self.pending.push(id),
            capacity: self.capacity,
        }
    }

    /// The task stored under `id`, if any.
    pub open spec fn lookup(self, id: TaskId) -> Option<TaskView> {
        if self.tasks.contains_key(id) {
            Some(self.tasks[id])
        } else {
            None
        }
    }

    /// The queue with the task under `id` replaced by `t`.
    pub open spec fn with_task(self, id: TaskId, t: TaskView) -> QueueModel {
        QueueModel { tasks: self.tasks.insert(id, t), ..self }
    }

    /// The queue after the task under `id` started running at `now`.
    pub open spec fn mark_running(self, id: TaskId, now: Timestamp) -> QueueModel {
        self.with_task(id, running_task(self.tasks[id], now))
    }

    /// The queue after a run of the task under `id` finished at `now`; a
    /// task cancelled meanwhile stays cancelled and out of line.
    pub open spec fn complete(self, id: TaskId, success: bool, now: Timestamp) -> QueueModel {
        if self.tasks[id].status == TaskStatus::Cancelled {
            self
        } else {
            self.complete_run(id, success, now)
        }
    }

    /// The queue after a run of the task under `id`, not cancelled, finished at `now`.
    pub open spec fn complete_run(self, id: TaskId, success: bool, now: Timestamp) -> QueueModel {
        QueueModel {
            tasks: self.tasks.insert(id, finished_task(self.tasks[id], success, now)),
            order: self.order,
            pending: if requeues(self.tasks[id], success) {
                self.pending.push(id)
            } else {
                self.pending
            },
            capacity: self.capacity,
        }
    }

    /// Whether the task under `id` exists and may be cancelled.
    pub open spec fn can_cancel(self, id: TaskId) -> bool {
        self.tasks.contains_key(id) && cancellable(self.tasks[id])
    }

    /// The queue after the task under `id` was cancelled at `now`.
    pub open spec fn cancel(self, id: TaskId, now: Timestamp) -> QueueModel {
        self.with_task(id, cancelled_task(self.tasks[id], now))
    }

    /// Taking ids from the front of the pending line until one names a task
    /// still pending: the line that is left, and the id found.
    pub open spec fn scan_pending(self, pending: Seq<TaskId>) -> (Seq<TaskId>, Option<TaskId>)
        decreases pending.len(),
    {
        if pending.len() == 0 {
            (pending, None)
        } else {
            let id = pending[0];
            if self.tasks.contains_key(id) && self.tasks[id].status == TaskStatus::Pending {
                (pending.drop_first(), Some(id))
            } else {
                self.scan_pending(pending.drop_first())
            }
        }
    }

    /// The queue after looking for the next task to dispatch, and that task.
    pub open spec fn next_pending(self) -> (QueueModel, Option<TaskView>) {
        let (rest, found) = self.scan_pending(self.pending);
        (
            QueueModel { pending: rest, ..self },
            match found {
                Some(id) => Some(self.tasks[id]),
                None => None,
            },
        )
    }

    /// The known tasks in submission order.
    pub open spec fn task_seq(self) -> Seq<TaskView> {
        self.order.map_values(|k: TaskId| self.tasks[k])
    }

    /// The tasks that pass `filter`, in submission order.
    pub open spec fn list(self, filter: Option<TaskStatus>) -> Seq<TaskView> {
        self.task_seq().filter(filter_pred(filter))
    }

    /// The per-status counts of the known tasks.
    pub open spec fn stats(self) -> Seq<(TaskStatus, nat)> {
        stats_of(self.task_seq())
    }

    /// The queue with every task and every pending id removed.
    pub open spec fn cleared(self) -> QueueModel {
        QueueModel {
            tasks: Map::empty(),
            order: Seq::empty(),
            pending: Seq::empty(),
            capacity: self.capacity,
        }
    }
}

/// A bounded queue of tasks with retry bookkeeping.
pub struct TaskQueue {
    tasks: HashMap<TaskId, Task>,
    order: Vec<TaskId>,
    pending_tasks: VecDeque<TaskId>,
    max_queue_size: usize,
}

impl TaskQueue {
    /// The abstract state of this queue.
    pub closed spec fn model(&self) -> QueueModel {
        QueueModel {
            tasks: self.tasks@.map_values(|t: Task| t@),
            order: self.order@,
            pending: self.pending_tasks@,
            capacity: self.max_queue_size as nat,
        }
    }

    /// Well-formedness: the abstract state satisfies the queue invariant.
    pub open spec fn wf(&self) -> bool {
        self.model().inv()
    }

    pub fn new(max_queue_size: usize) -> (q: TaskQueue)
        ensures
            q.wf(),
            q.model().tasks == Map::<TaskId, TaskView>::empty(),
            q.model().order == Seq::<TaskId>::empty(),
            q.model().pending == Seq::<TaskId>::empty(),
            q.model().capacity == max_queue_size,
    {
        let q = TaskQueue {
            tasks: HashMap::new(),
            order: Vec::new(),
            pending_tasks: VecDeque::new(),
            max_queue_size,
        };
        proof {
            assert(q.model().tasks =~= Map::<TaskId, TaskView>::empty());
        }
        q
    }

    /// The number of known tasks.
    fn task_count(&self) -> (n: usize)
        ensures
            n == self.model().tasks.len(),
    {
        proof {
            assert(self.model().tasks.dom() =~= self.tasks@.dom());
        }
        self.tasks.len()
    }

    /// Accepts a new task under the given id at time `now`, unless the queue
    /// is full.
    pub fn submit_task_with(
        &mut self,
        id: TaskId,
        now: Timestamp,
        name: String,
        payload: Vec<u8>,
        max_retries: u32,
    ) -> (r: Result<TaskId, TaskQueueError>)
        requires
            old(self).wf(),
        ensures
            final(self).wf(),
            old(self).model().is_full() ==> (r matches Err(TaskQueueError::QueueFull)
                && final(self).model() == old(self).model()),
            !old(self).model().is_full() ==> r == Ok::<TaskId, TaskQueueError>(id)
                && final(self).model() == old(self).model().submit(id, name@, payload@, max_retries, now),
    {
        if self.task_count() >= self.max_queue_size {
            return Err(TaskQueueError::QueueFull);
        }
        let ghost m = self.model();
        let task = Task {
            id,
            name,
            payload,
            status: TaskStatus::Pending,
            created_at: now,
            scheduled_at: None,
            completed_at: None,
            retries: 0,
            max_retries,
        };
        let known = self.tasks.contains_key(&id);
        if !known {
            self.order.push(id);
        }
        self.pending_tasks.push_back(id);
        self.tasks.insert(id, task);
        proof {
            let m2 = m.submit(id, task.name@, task.payload@, max_retries, now);
            assert(self.model().tasks =~= m2.tasks);
            assert(self.model().order =~= m2.order);
            assert(self.model() == m2);
            assert forall|i: int| 0 <= i < m2.order.len() implies #[trigger] m2.tasks.contains_key(m2.order[i]) by {
                if i < m.order.len() {
                    assert(m.tasks.contains_key(m.order[i]));
                }
            }
            assert forall|k: TaskId| #[trigger] m2.tasks.contains_key(k) implies m2.order.contains(k) by {
                if k != id {
                    assert(m.order.contains(k));
                    let j = choose|j: int| 0 <= j < m.order.len() && m.order[j] == k;
                    assert(m2.order[j] == k);
                } else if !known {
                    assert(m2.order[m2.order.len() - 1] == k);
                } else {
                    assert(m.order.contains(k));
                }
            }
        }
        Ok(id)
    }

    /// Accepts a new task under a fresh random id, stamped with the current
    /// time, unless the queue is full.
    pub fn submit_task(&mut self, name: String, payload: Vec<u8>, max_retries: u32) -> (r: Result<TaskId, TaskQueueError>)
        requires
            old(self).wf(),
        ensures
            final(self).wf(),
            old(self).model().is_full() ==> (r matches Err(TaskQueueError::QueueFull)
                && final(self).model() == old(self).model()),
            !old(self).model().is_full() ==> (r matches Ok(id) && uuid_version(id) == 4 && uuid_variant(id) == 2
                && final(self).model() == old(self).model().submit(
                    id, name@, payload@, max_retries, final(self).model().tasks[id].created_at)
                && final(self).model().tasks[id].created_at.nanos < 1_000_000_000
                && rfc3339_of(
                    final(self).model().tasks[id].created_at.secs,
                    final(self).model().tasks[id].created_at.nanos,
                ) is Some),
    {
        if self.task_count() >= self.max_queue_size {
            return Err(TaskQueueError::QueueFull);
        }
        let id = new_task_id();
        let now = crate::ids::now();
        self.submit_task_with(id, now, name, payload, max_retries)
    }

    /// The task stored under `task_id`.
    pub fn get_task(&self, task_id: TaskId) -> (r: Result<Task, TaskQueueError>)
        requires
            self.wf(),
        ensures
            self.model().tasks.contains_key(task_id) ==> (r matches Ok(t) && t@ == self.model().tasks[task_id]),
            !self.model().tasks.contains_key(task_id) ==> (r matches Err(TaskQueueError::TaskNotFound(s))
                && s@ == uuid_text(task_id)),
    {
        match self.tasks.get(&task_id) {
            Some(t) => Ok(t.copy()),
            None => Err(TaskQueueError::TaskNotFound(uuid_to_string(task_id))),
        }
    }

    /// Replaces the stored task under `id`, which exists, by `t`.
    fn replace_task(&mut self, id: TaskId, t: Task)
        requires
            old(self).wf(),
            old(self).model().tasks.contains_key(id),
            t@.id == id,
            t@.retries <= t@.max_retries,
        ensures
            final(self).wf(),
            final(self).model() == old(self).model().with_task(id, t@),
    {
        let ghost m = self.model();
        let ghost tv = t@;
        self.tasks.insert(id, t);
        proof {
            assert(self.model().tasks =~= m.tasks.insert(id, tv));
            assert(self.model() == m.with_task(id, tv));
            let m2 = self.model();
            assert forall|i: int| 0 <= i < m2.order.len() implies #[trigger] m2.tasks.contains_key(m2.order[i]) by {
                assert(m.tasks.contains_key(m.order[i]));
            }
            assert forall|k: TaskId| #[trigger] m2.tasks.contains_key(k) implies m2.order.contains(k) by {
                assert(m.tasks.contains_key(k));
            }
        }
    }

    /// Takes ids from the front of the pending line until one names a task
    /// that is still pending, and returns that task; the task itself is left
    /// as it is.
    pub fn get_pending_task(&mut self) -> (r: Option<Task>)
        requires
            old(self).wf(),
        ensures
            final(self).wf(),
            final(self).model() == old(self).model().next_pending().0,
            match (r, old(self).model().next_pending().1) {
                (None, None) => true,
                (Some(t), Some(tv)) => t@ == tv,
                _ => false,
            },
    {
        let ghost m = self.model();
        loop
            invariant
                self.wf(),
                self.model().tasks == m.tasks,
                self.model().order == m.order,
                self.model().capacity == m.capacity,
                m.scan_pending(self.model().pending) == m.scan_pending(m.pending),
                m == old(self).model(),
            decreases self.pending_tasks@.len(),
        {
            let ghost before = self.pending_tasks@;
            match self.pending_tasks.pop_front() {
                None => {
                    proof {
                        assert(m.scan_pending(self.model().pending) == (self.model().pending, None::<TaskId>));
                        assert(self.model() =~= m.next_pending().0);
                    }
                    return None;
                },
                Some(id) => {
                    proof {
                        assert(before.drop_first() =~= self.pending_tasks@);
                        assert(before[0] == id);
                    }
                    match self.tasks.get(&id) {
                        Some(task) => {
                            if task.status == TaskStatus::Pending {
                                let t = task.copy();
                                proof {
                                    assert(self.model().tasks.contains_key(id));
                                    assert(m.tasks[id].status == TaskStatus::Pending);
                                    assert(m.scan_pending(before) == (self.model().pending, Some(id)));
                                    assert(self.model() =~= m.next_pending().0);
                                }
                                return Some(t);
                            }
                        },
                        None => {},
                    }
                },
            }
        }
    }

    /// Marks the task under `task_id` as running since `now`.
    pub fn mark_running_at(&mut self, task_id: TaskId, now: Timestamp) -> (r: Result<(), TaskQueueError>)
        requires
            old(self).wf(),
        ensures
            final(self).wf(),
            old(self).model().tasks.contains_key(task_id) ==> (r is Ok
                && final(self).model() == old(self).model().mark_running(task_id, now)),
            !old(self).model().tasks.contains_key(task_id) ==> (r matches Err(TaskQueueError::TaskNotFound(s))
                && s@ == uuid_text(task_id) && final(self).model() == old(self).model()),
    {
        match self.tasks.get(&task_id) {
            Some(task) => {
                let mut t = task.copy();
                t.status = TaskStatus::Running;
                t.scheduled_at = Some(now);
                self.replace_task(task_id, t);
                Ok(())
            },
            None => Err(TaskQueueError::TaskNotFound(uuid_to_string(task_id))),
        }
    }

    /// Marks the task under `task_id` as running since the current time.
    pub fn mark_running(&mut self, task_id: TaskId) -> (r: Result<(), TaskQueueError>)
        requires
            old(self).wf(),
        ensures
            final(self).wf(),
            old(self).model().tasks.contains_key(task_id) ==> (r is Ok
                && final(self).model() == old(self).model().mark_running(
                    task_id, final(self).model().tasks[task_id].scheduled_at->0)
                && final(self).model().tasks[task_id].scheduled_at->0.nanos < 1_000_000_000),
            !old(self).model().tasks.contains_key(task_id) ==> (r matches Err(TaskQueueError::TaskNotFound(s))
                && s@ == uuid_text(task_id) && final(self).model() == old(self).model()),
    {
        if self.tasks.contains_key(&task_id) {
            let now = crate::ids::now();
            self.mark_running_at(task_id, now)
        } else {
            Err(TaskQueueError::TaskNotFound(uuid_to_string(task_id)))
        }
    }

    /// Records the outcome of a run that ended at `now`: success completes
    /// the task; a failure puts it back at the end of the line while retries
    /// are left, and fails it for good otherwise. A task cancelled meanwhile
    /// stays cancelled.
    pub fn complete_task_at(&mut self, result: &TaskResult, now: Timestamp) -> (r: Result<(), TaskQueueError>)
        requires
            old(self).wf(),
        ensures
            final(self).wf(),
            old(self).model().tasks.contains_key(result.task_id) ==> (r is Ok
                && final(self).model() == old(self).model().complete(result.task_id, result.success, now)),
            !old(self).model().tasks.contains_key(result.task_id) ==> (r matches Err(TaskQueueError::TaskNotFound(s))
                && s@ == uuid_text(result.task_id) && final(self).model() == old(self).model()),
    {
        let id = result.task_id;
        match self.tasks.get(&id) {
            Some(task) => {
                if task.status == TaskStatus::Cancelled {
                    return Ok(());
                }
                let mut t = task.copy();
                let ghost m = self.model();
                if result.success {
                    t.status = TaskStatus::Completed;
                    t.completed_at = Some(now);
                    self.replace_task(id, t);
                } else if t.retries < t.max_retries {
                    t.retries = t.retries + 1;
                    t.status = TaskStatus::Pending;
                    let tid = t.id;
                    self.replace_task(id, t);
                    let ghost m1 = self.model();
                    self.pending_tasks.push_back(tid);
                    proof {
                        assert(self.model() =~= m.complete(id, false, now));
                        let m2 = self.model();
                        assert forall|i: int| 0 <= i < m2.order.len() implies #[trigger] m2.tasks.contains_key(m2.order[i]) by {
                            assert(m1.tasks.contains_key(m1.order[i]));
                        }
                        assert forall|k: TaskId| #[trigger] m2.tasks.contains_key(k) implies m2.order.contains(k) by {
                            assert(m1.tasks.contains_key(k));
                        }
                    }
                } else {
                    t.status = TaskStatus::Failed;
                    t.completed_at = Some(now);
                    self.replace_task(id, t);
                }
                Ok(())
            },
            None => Err(TaskQueueError::TaskNotFound(uuid_to_string(id))),
        }
    }

    /// Records the outcome of a run that ended now.
    pub fn complete_task(&mut self, result: TaskResult) -> (r: Result<(), TaskQueueError>)
        requires
            old(self).wf(),
        ensures
            final(self).wf(),
            old(self).model().tasks.contains_key(result.task_id) ==> (r is Ok
                && exists|now: Timestamp| now.nanos < 1_000_000_000
                    && final(self).model() == old(self).model().complete(result.task_id, result.success, now)),
            !old(self).model().tasks.contains_key(result.task_id) ==> (r matches Err(TaskQueueError::TaskNotFound(s))
                && s@ == uuid_text(result.task_id) && final(self).model() == old(self).model()),
    {
        if self.tasks.contains_key(&result.task_id) {
            let now = crate::ids::now();
            self.complete_task_at(&result, now)
        } else {
            Err(TaskQueueError::TaskNotFound(uuid_to_string(result.task_id)))
        }
    }

    /// Cancels the task under `task_id` at `now`, if it is pending or running.
    pub fn cancel_task_at(&mut self, task_id: TaskId, now: Timestamp) -> (r: Result<(), TaskQueueError>)
        requires
            old(self).wf(),
        ensures
            final(self).wf(),
            old(self).model().can_cancel(task_id) ==> (r is Ok
                && final(self).model() == old(self).model().cancel(task_id, now)),
            !old(self).model().can_cancel(task_id) ==> (r matches Err(TaskQueueError::TaskNotFound(s))
                && s@ == uuid_text(task_id) && final(self).model() == old(self).model()),
    {
        match self.tasks.get(&task_id) {
            Some(task) => {
                if task.status == TaskStatus::Pending || task.status == TaskStatus::Running {
                    let mut t = task.copy();
                    t.status = TaskStatus::Cancelled;
                    t.completed_at = Some(now);
                    self.replace_task(task_id, t);
                    Ok(())
                } else {
                    Err(TaskQueueError::TaskNotFound(uuid_to_string(task_id)))
                }
            },
            None => Err(TaskQueueError::TaskNotFound(uuid_to_string(task_id))),
        }
    }

    /// Cancels the task under `task_id` now, if it is pending or running.
    pub fn cancel_task(&mut self, task_id: TaskId) -> (r: Result<(), TaskQueueError>)
        requires
            old(self).wf(),
        ensures
            final(self).wf(),
            old(self).model().can_cancel(task_id) ==> (r is Ok
                && final(self).model() == old(self).model().cancel(
                    task_id, final(self).model().tasks[task_id].completed_at->0)
                && final(self).model().tasks[task_id].completed_at->0.nanos < 1_000_000_000),
            !old(self).model().can_cancel(task_id) ==> (r matches Err(TaskQueueError::TaskNotFound(s))
                && s@ == uuid_text(task_id) && final(self).model() == old(self).model()),
    {
        match self.tasks.get(&task_id) {
            Some(task) => {
                if task.status == TaskStatus::Pending || task.status == TaskStatus::Running {
                    let now = crate::ids::now();
                    self.cancel_task_at(task_id, now)
                } else {
                    Err(TaskQueueError::TaskNotFound(uuid_to_string(task_id)))
                }
            },
            None => Err(TaskQueueError::TaskNotFound(uuid_to_string(task_id))),
        }
    }

    /// The tasks that pass `status_filter`, in submission order.
    pub fn list_tasks(&self, status_filter: Option<TaskStatus>) -> (r: Vec<Task>)
        requires
            self.wf(),
        ensures
            r@.map_values(|t: Task| t@) == self.model().list(status_filter),
    {
        let mut out: Vec<Task> = Vec::new();
        let n = self.order.len();
        let ghost ts = self.model().task_seq();
        let ghost pred = filter_pred(status_filter);
        for i in 0..n
            invariant
                n == self.order@.len(),
                self.wf(),
                ts == self.model().task_seq(),
                pred == filter_pred(status_filter),
                out@.map_values(|t: Task| t@) == ts.take(i as int).filter(pred),
        {
            let id = self.order[i];
            proof {
                assert(self.model().tasks.contains_key(self.model().order[i as int]));
                ts.lemma_take_succ_push(i as int);
                ts.take(i as int).lemma_filter_push(ts[i as int], pred);
            }
            let ghost before = out@;
            match self.tasks.get(&id) {
                Some(task) => {
                    let keep = match status_filter {
                        None => true,
                        Some(s) => task.status == s,
                    };
                    if keep {
                        out.push(task.copy());
                    }
                    proof {
                        assert(ts[i as int] == task@);
                        if keep {
                            assert(out@.map_values(|t: Task| t@) =~= before.map_values(|t: Task| t@).push(task@));
                        }
                    }
                },
                None => {},
            }
        }
        proof {
            assert(ts.take(n as int) =~= ts);
        }
        out
    }

    /// How many known tasks have each status, in the order Pending, Running,
    /// Completed, Failed, Cancelled, leaving out statuses no task has.
    pub fn get_stats(&self) -> (r: Vec<(TaskStatus, usize)>)
        requires
            self.wf(),
        ensures
            r@.map_values(|p: (TaskStatus, usize)| (p.0, p.1 as nat)) == self.model().stats(),
    {
        let n = self.order.len();
        let ghost ts = self.model().task_seq();
        let mut pending: usize = 0;
        let mut running: usize = 0;
        let mut completed: usize = 0;
        let mut failed: usize = 0;
        let mut cancelled: usize = 0;
        for i in 0..n
            invariant
                n == self.order@.len(),
                self.wf(),
                ts == self.model().task_seq(),
                pending == status_count(ts.take(i as int), TaskStatus::Pending),
                running == status_count(ts.take(i as int), TaskStatus::Running),
                completed == status_count(ts.take(i as int), TaskStatus::Completed),
                failed == status_count(ts.take(i as int), TaskStatus::Failed),
                cancelled == status_count(ts.take(i as int), TaskStatus::Cancelled),
                pending + running + completed + failed + cancelled == i,
        {
            let id = self.order[i];
            proof {
                assert(self.model().tasks.contains_key(self.model().order[i as int]));
                ts.lemma_take_succ_push(i as int);
                ts.take(i as int).lemma_filter_push(ts[i as int], filter_pred(Some(TaskStatus::Pending)));
                ts.take(i as int).lemma_filter_push(ts[i as int], filter_pred(Some(TaskStatus::Running)));
                ts.take(i as int).lemma_filter_push(ts[i as int], filter_pred(Some(TaskStatus::Completed)));
                ts.take(i as int).lemma_filter_push(ts[i as int], filter_pred(Some(TaskStatus::Failed)));
                ts.take(i as int).lemma_filter_push(ts[i as int], filter_pred(Some(TaskStatus::Cancelled)));
            }
            match self.tasks.get(&id) {
                Some(task) => {
                    proof {
                        assert(ts[i as int] == task@);
                    }
                    match task.status {
                        TaskStatus::Pending => pending = pending + 1,
                        TaskStatus::Running => running = running + 1,
                        TaskStatus::Completed => completed = completed + 1,
                        TaskStatus::Failed => failed = failed + 1,
                        TaskStatus::Cancelled => cancelled = cancelled + 1,
                    }
                },
                None => {},
            }
        }
        proof {
            assert(ts.take(n as int) =~= ts);
        }
        let mut out: Vec<(TaskStatus, usize)> = Vec::new();
        if pending > 0 {
            out.push((TaskStatus::Pending, pending));
        }
        if running > 0 {
            out.push((TaskStatus::Running, running));
        }
        if completed > 0 {
            out.push((TaskStatus::Completed, completed));
        }
        if failed > 0 {
            out.push((TaskStatus::Failed, failed));
        }
        if cancelled > 0 {
            out.push((TaskStatus::Cancelled, cancelled));
        }
        proof {
            assert(out@.map_values(|p: (TaskStatus, usize)| (p.0, p.1 as nat)) =~= self.model().stats());
        }
        out
    }

    /// Removes every task and every pending id.
    pub fn clear_all(&mut self)
        requires
            old(self).wf(),
        ensures
            final(self).wf(),
            final(self).model() == old(self).model().cleared(),
    {
        self.tasks.clear();
        self.pending_tasks.clear();
        self.order.clear();
        proof {
            assert(self.model().tasks =~= Map::<TaskId, TaskView>::empty());
            assert(self.model().order =~= Seq::<TaskId>::empty());
            assert(self.model().pending =~= Seq::<TaskId>::empty());
        }
    }
}

} // verus!
