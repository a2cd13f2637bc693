use vstd::prelude::*;
use crate::queue::{
    QueueModel, fresh_task, finished_task, filter_pred, status_count, stat_entry, stats_of,
    stats_total, cancellable,
};
use crate::task::{TaskId, TaskStatus, TaskView, Timestamp};

verus! {

/// Each task has exactly one status: the per-status counts of a sequence of
/// tasks add up to its length.
pub proof fn lemma_status_counts_sum(ts: Seq<TaskView>)
    ensures
        status_count(ts, TaskStatus::Pending) + status_count(ts, TaskStatus::Running)
            + status_count(ts, TaskStatus::Completed) + status_count(ts, TaskStatus::Failed)
            + status_count(ts, TaskStatus::Cancelled) == ts.len(),
    decreases ts.len(),
{
    if ts.len() > 0 {
        let rest = ts.drop_last();
        lemma_status_counts_sum(rest);
        assert(rest.push(ts.last()) =~= ts);
        rest.lemma_filter_push(ts.last(), filter_pred(Some(TaskStatus::Pending)));
        rest.lemma_filter_push(ts.last(), filter_pred(Some(TaskStatus::Running)));
        rest.lemma_filter_push(ts.last(), filter_pred(Some(TaskStatus::Completed)));
        rest.lemma_filter_push(ts.last(), filter_pred(Some(TaskStatus::Failed)));
        rest.lemma_filter_push(ts.last(), filter_pred(Some(TaskStatus::Cancelled)));
    } else {
        assert(ts.filter(filter_pred(Some(TaskStatus::Pending))).len() == 0);
        assert(ts.filter(filter_pred(Some(TaskStatus::Running))).len() == 0);
        assert(ts.filter(filter_pred(Some(TaskStatus::Completed))).len() == 0);
        assert(ts.filter(filter_pred(Some(TaskStatus::Failed))).len() == 0);
        assert(ts.filter(filter_pred(Some(TaskStatus::Cancelled))).len() == 0);
    }
}

/// The total of a concatenation of statistics tables is the sum of the totals.
pub proof fn lemma_stats_total_concat(a: Seq<(TaskStatus, nat)>, b: Seq<(TaskStatus, nat)>)
    ensures
        stats_total(a + b) == stats_total(a) + stats_total(b),
    decreases b.len(),
{
    if b.len() == 0 {
        assert(a + b =~= a);
    } else {
        lemma_stats_total_concat(a, b.drop_last());
        assert((a + b).drop_last() =~= a + b.drop_last());
    }
}

/// A statistics line totals the count it reports.
pub proof fn lemma_stat_entry_total(s: TaskStatus, c: nat)
    ensures
        stats_total(stat_entry(s, c)) == c,
{
    assert(stats_total(Seq::<(TaskStatus, nat)>::empty()) == 0);
    if c > 0 {
        assert(stat_entry(s, c).drop_last() =~= Seq::<(TaskStatus, nat)>::empty());
        assert(stat_entry(s, c).last().1 == c);
    }
}

/// Under the invariant, the submission order lists exactly the known tasks,
/// so it is as long as the task map is large.
pub proof fn lemma_order_len(m: QueueModel)
    requires
        m.inv(),
    ensures
        m.order.len() == m.tasks.len(),
        m.task_seq().len() == m.tasks.len(),
{
    m.order.unique_seq_to_set();
    assert forall|k: TaskId| m.order.to_set().contains(k) <==> m.tasks.dom().contains(k) by {
        if m.order.to_set().contains(k) {
            let i = choose|i: int| 0 <= i < m.order.len() && m.order[i] == k;
            assert(m.tasks.contains_key(m.order[i]));
        }
    }
    assert(m.order.to_set() =~= m.tasks.dom());
}

/// The statistics account for every task exactly once: their counts add up
/// to the number of known tasks.
pub proof fn lemma_stats_total(m: QueueModel)
    requires
        m.inv(),
    ensures
        stats_total(m.stats()) == m.tasks.len(),
{
    let ts = m.task_seq();
    lemma_order_len(m);
    lemma_status_counts_sum(ts);
    let e1 = stat_entry(TaskStatus::Pending, status_count(ts, TaskStatus::Pending));
    let e2 = stat_entry(TaskStatus::Running, status_count(ts, TaskStatus::Running));
    let e3 = stat_entry(TaskStatus::Completed, status_count(ts, TaskStatus::Completed));
    let e4 = stat_entry(TaskStatus::Failed, status_count(ts, TaskStatus::Failed));
    let e5 = stat_entry(TaskStatus::Cancelled, status_count(ts, TaskStatus::Cancelled));
    lemma_stat_entry_total(TaskStatus::Pending, status_count(ts, TaskStatus::Pending));
    lemma_stat_entry_total(TaskStatus::Running, status_count(ts, TaskStatus::Running));
    lemma_stat_entry_total(TaskStatus::Completed, status_count(ts, TaskStatus::Completed));
    lemma_stat_entry_total(TaskStatus::Failed, status_count(ts, TaskStatus::Failed));
    lemma_stat_entry_total(TaskStatus::Cancelled, status_count(ts, TaskStatus::Cancelled));
    lemma_stats_total_concat(e1, e2);
    lemma_stats_total_concat(e1 + e2, e3);
    lemma_stats_total_concat(e1 + e2 + e3, e4);
    lemma_stats_total_concat(e1 + e2 + e3 + e4, e5);
    assert(stats_of(ts) == e1 + e2 + e3 + e4 + e5);
}

/// Listing without a filter yields every known task, each once; listing
/// with a status yields exactly the tasks that have it.
pub proof fn lemma_list_complete(m: QueueModel, s: TaskStatus)
    requires
        m.inv(),
    ensures
        m.list(None).len() == m.tasks.len(),
        forall|k: TaskId| #[trigger] m.tasks.contains_key(k) ==> m.list(None).contains(m.tasks[k]),
        forall|i: int| 0 <= i < m.list(Some(s)).len() ==> (#[trigger] m.list(Some(s))[i]).status == s,
        m.list(Some(s)).len() == status_count(m.task_seq(), s),
{
    let ts = m.task_seq();
    lemma_order_len(m);
    assert(ts.filter(filter_pred(None)) =~= ts) by {
        assert forall|i: int| 0 <= i < ts.len() implies filter_pred(None)(ts[i]) by {}
        lemma_filter_all_true(ts, filter_pred(None));
    }
    assert forall|k: TaskId| #[trigger] m.tasks.contains_key(k) implies m.list(None).contains(m.tasks[k]) by {
        let i = choose|i: int| 0 <= i < m.order.len() && m.order[i] == k;
        assert(ts[i] == m.tasks[k]);
    }
    assert forall|i: int| 0 <= i < m.list(Some(s)).len() implies (#[trigger] m.list(Some(s))[i]).status == s by {
        ts.lemma_filter_pred(filter_pred(Some(s)), i);
    }
}

/// Filtering by a predicate that every element satisfies keeps the sequence.
proof fn lemma_filter_all_true(ts: Seq<TaskView>, p: spec_fn(TaskView) -> bool)
    requires
        forall|i: int| 0 <= i < ts.len() ==> p(ts[i]),
    ensures
        ts.filter(p) == ts,
    decreases ts.len(),
{
    if ts.len() > 0 {
        let rest = ts.drop_last();
        lemma_filter_all_true(rest, p);
        assert(rest.push(ts.last()) =~= ts);
        rest.lemma_filter_push(ts.last(), p);
    } else {
        assert(ts.filter(p).len() == 0);
        assert(ts.filter(p) =~= ts);
    }
}

/// Reading a task right after submitting it gives back the submitted task,
/// pending, with no retries spent.
pub proof fn lemma_lookup_after_submit(
    m: QueueModel,
    id: TaskId,
    name: Seq<char>,
    payload: Seq<u8>,
    max_retries: u32,
    now: Timestamp,
)
    ensures
        m.submit(id, name, payload, max_retries, now).lookup(id) == Some(
            fresh_task(id, name, payload, max_retries, now),
        ),
{
}

/// Scanning a line with a fresh id appended: the scan finds what it found
/// before, with the fresh id left at the end of the line; where it found
/// nothing before, it finds the fresh id.
proof fn lemma_scan_with_fresh_id(
    m: QueueModel,
    id: TaskId,
    name: Seq<char>,
    payload: Seq<u8>,
    max_retries: u32,
    now: Timestamp,
    p: Seq<TaskId>,
)
    requires
        !m.tasks.contains_key(id),
        !p.contains(id),
    ensures
        ({
            let q = m.submit(id, name, payload, max_retries, now);
            match m.scan_pending(p) {
                (rest, Some(found)) => q.scan_pending(p.push(id)) == (rest.push(id), Some(found)),
                (_, None) => q.scan_pending(p.push(id)) == (Seq::<TaskId>::empty(), Some(id)),
            }
        }),
    decreases p.len(),
{
    let q = m.submit(id, name, payload, max_retries, now);
    if p.len() == 0 {
        assert(p.push(id).drop_first() =~= Seq::<TaskId>::empty());
        assert(p.push(id)[0] == id);
    } else {
        let x = p[0];
        assert(p.push(id).drop_first() =~= p.drop_first().push(id));
        assert(p.push(id)[0] == x);
        assert(x != id);
        assert(!p.drop_first().contains(id)) by {
            if p.drop_first().contains(id) {
                let j = choose|j: int| 0 <= j < p.drop_first().len() && p.drop_first()[j] == id;
                assert(p[j + 1] == id);
            }
        }
        lemma_scan_with_fresh_id(m, id, name, payload, max_retries, now, p.drop_first());
    }
}

/// Dispatch is first in, first out: submitting a task under a fresh id does
/// not change which task is dispatched next, unless no task was waiting, in
/// which case the new task is the one dispatched.
pub proof fn lemma_dispatch_oldest_first(
    m: QueueModel,
    id: TaskId,
    name: Seq<char>,
    payload: Seq<u8>,
    max_retries: u32,
    now: Timestamp,
)
    requires
        m.inv(),
        !m.tasks.contains_key(id),
        !m.pending.contains(id),
    ensures
        ({
            let q = m.submit(id, name, payload, max_retries, now);
            &&& m.next_pending().1 is Some ==> q.next_pending().1 == m.next_pending().1
                && q.next_pending().0.pending == m.next_pending().0.pending.push(id)
            &&& m.next_pending().1 is None ==> q.next_pending().1 == Some(
                fresh_task(id, name, payload, max_retries, now),
            )
        }),
{
    lemma_scan_with_fresh_id(m, id, name, payload, max_retries, now, m.pending);
    lemma_scan_finds_pending(m, m.pending);
    let q = m.submit(id, name, payload, max_retries, now);
    match m.scan_pending(m.pending).1 {
        Some(found) => {
            assert(found != id);
            assert(q.tasks[found] == m.tasks[found]);
        },
        None => {},
    }
}

/// What the scan of a pending line finds is a known task that is still
/// pending, and the line left is a suffix of the line scanned.
pub proof fn lemma_scan_finds_pending(m: QueueModel, pending: Seq<TaskId>)
    ensures
        m.scan_pending(pending).0.len() <= pending.len(),
        m.scan_pending(pending).0 =~= pending.skip(pending.len() - m.scan_pending(pending).0.len()),
        m.scan_pending(pending).1 matches Some(id) ==> m.tasks.contains_key(id) && m.tasks[id].status
            == TaskStatus::Pending,
    decreases pending.len(),
{
    if pending.len() > 0 {
        let id = pending[0];
        if !(m.tasks.contains_key(id) && m.tasks[id].status == TaskStatus::Pending) {
            lemma_scan_finds_pending(m, pending.drop_first());
        }
    }
}

/// Dispatch hands out only known tasks that are still pending: a task that
/// was cancelled, completed or failed is never dispatched again.
pub proof fn lemma_dispatch_only_pending(m: QueueModel)
    requires
        m.inv(),
    ensures
        m.next_pending().1 matches Some(t) ==> t.status == TaskStatus::Pending && m.tasks.contains_key(
            t.id,
        ) && m.tasks[t.id] == t,
        m.next_pending().0.inv(),
        m.next_pending().0.tasks == m.tasks,
{
    lemma_scan_finds_pending(m, m.pending);
}

/// A failed run with retries left spends one retry, makes the task pending
/// again, and puts it at the end of the line.
pub proof fn lemma_failed_run_retries(m: QueueModel, id: TaskId, now: Timestamp)
    requires
        m.inv(),
        m.tasks.contains_key(id),
        m.tasks[id].status != TaskStatus::Cancelled,
        m.tasks[id].retries < m.tasks[id].max_retries,
    ensures
        ({
            let m2 = m.complete(id, false, now);
            &&& m2.inv()
            &&& m2.tasks[id].status == TaskStatus::Pending
            &&& m2.tasks[id].retries == m.tasks[id].retries + 1
            &&& m2.pending == m.pending.push(id)
        }),
{
    let m2 = m.complete(id, false, now);
    assert forall|i: int| 0 <= i < m2.order.len() implies #[trigger] m2.tasks.contains_key(m2.order[i]) by {
        assert(m.tasks.contains_key(m.order[i]));
    }
    assert forall|k: TaskId| #[trigger] m2.tasks.contains_key(k) implies m2.order.contains(k) by {
        assert(m.tasks.contains_key(k));
    }
}

/// A failed run with no retries left fails the task for good: it is not put
/// back in line, and its retry count never passes its budget.
pub proof fn lemma_failed_run_exhausted(m: QueueModel, id: TaskId, now: Timestamp)
    requires
        m.inv(),
        m.tasks.contains_key(id),
        m.tasks[id].status != TaskStatus::Cancelled,
        m.tasks[id].retries == m.tasks[id].max_retries,
    ensures
        ({
            let m2 = m.complete(id, false, now);
            &&& m2.inv()
            &&& m2.tasks[id] == finished_task(m.tasks[id], false, now)
            &&& m2.tasks[id].status == TaskStatus::Failed
            &&& m2.tasks[id].completed_at == Some(now)
            &&& m2.pending == m.pending
        }),
{
    let m2 = m.complete(id, false, now);
    assert forall|i: int| 0 <= i < m2.order.len() implies #[trigger] m2.tasks.contains_key(m2.order[i]) by {
        assert(m.tasks.contains_key(m.order[i]));
    }
    assert forall|k: TaskId| #[trigger] m2.tasks.contains_key(k) implies m2.order.contains(k) by {
        assert(m.tasks.contains_key(k));
    }
}

/// Cancelling is final: a cancelled task cannot be cancelled again, a run
/// that ends afterwards changes nothing, and it is never dispatched.
pub proof fn lemma_cancel_is_final(m: QueueModel, id: TaskId, now: Timestamp, later: Timestamp, success: bool)
    requires
        m.inv(),
        m.can_cancel(id),
    ensures
        !m.cancel(id, now).can_cancel(id),
        !cancellable(m.cancel(id, now).tasks[id]),
        m.cancel(id, now).complete(id, success, later) == m.cancel(id, now),
        m.cancel(id, now).next_pending().1 matches Some(t) ==> t.id != id,
{
    let m2 = m.cancel(id, now);
    assert forall|i: int| 0 <= i < m2.order.len() implies #[trigger] m2.tasks.contains_key(m2.order[i]) by {
        assert(m.tasks.contains_key(m.order[i]));
    }
    assert forall|k: TaskId| #[trigger] m2.tasks.contains_key(k) implies m2.order.contains(k) by {
        assert(m.tasks.contains_key(k));
    }
    lemma_dispatch_only_pending(m2);
}

/// After clearing, nothing is known, listed, counted or dispatched.
pub proof fn lemma_cleared_is_empty(m: QueueModel, id: TaskId, filter: Option<TaskStatus>)
    ensures
        m.cleared().inv(),
        m.cleared().lookup(id) == None::<TaskView>,
        m.cleared().list(filter) == Seq::<TaskView>::empty(),
        m.cleared().stats() == Seq::<(TaskStatus, nat)>::empty(),
        m.cleared().next_pending().1 == None::<TaskView>,
{
    let c = m.cleared();
    assert(c.task_seq() =~= Seq::<TaskView>::empty());
    assert(c.list(filter) =~= Seq::<TaskView>::empty());
    assert(c.task_seq().filter(filter_pred(Some(TaskStatus::Pending))) =~= Seq::<TaskView>::empty());
    assert(c.task_seq().filter(filter_pred(Some(TaskStatus::Running))) =~= Seq::<TaskView>::empty());
    assert(c.task_seq().filter(filter_pred(Some(TaskStatus::Completed))) =~= Seq::<TaskView>::empty());
    assert(c.task_seq().filter(filter_pred(Some(TaskStatus::Failed))) =~= Seq::<TaskView>::empty());
    assert(c.task_seq().filter(filter_pred(Some(TaskStatus::Cancelled))) =~= Seq::<TaskView>::empty());
    assert(c.stats() =~= Seq::<(TaskStatus, nat)>::empty());
}

/// Whether a statistics line reports, for its status, the number of tasks
/// in `ts` that have that status, and that number is positive.
pub open spec fn counts_own_status(ts: Seq<TaskView>, line: (TaskStatus, nat)) -> bool {
    line.1 == status_count(ts, line.0) && line.1 > 0
}

proof fn lemma_lines_concat(ts: Seq<TaskView>, a: Seq<(TaskStatus, nat)>, b: Seq<(TaskStatus, nat)>)
    requires
        forall|i: int| 0 <= i < a.len() ==> counts_own_status(ts, #[trigger] a[i]),
        forall|i: int| 0 <= i < b.len() ==> counts_own_status(ts, #[trigger] b[i]),
    ensures
        forall|i: int| 0 <= i < (a + b).len() ==> counts_own_status(ts, #[trigger] (a + b)[i]),
{
    assert forall|i: int| 0 <= i < (a + b).len() implies counts_own_status(ts, #[trigger] (a + b)[i]) by {
        if i < a.len() {
            assert((a + b)[i] == a[i]);
        } else {
            assert((a + b)[i] == b[i - a.len()]);
        }
    }
}

proof fn lemma_line_of_status(ts: Seq<TaskView>, s: TaskStatus)
    ensures
        forall|i: int| 0 <= i < stat_entry(s, status_count(ts, s)).len() ==> counts_own_status(
            ts,
            #[trigger] stat_entry(s, status_count(ts, s))[i],
        ),
        status_count(ts, s) > 0 ==> stat_entry(s, status_count(ts, s))[0] == (s, status_count(ts, s)),
        status_count(ts, s) > 0 ==> stat_entry(s, status_count(ts, s)).len() == 1,
{
}

proof fn lemma_concat_keeps(a: Seq<(TaskStatus, nat)>, b: Seq<(TaskStatus, nat)>, x: (TaskStatus, nat))
    ensures
        a.contains(x) ==> (a + b).contains(x),
        b.contains(x) ==> (a + b).contains(x),
{
    if a.contains(x) {
        let i = choose|i: int| 0 <= i < a.len() && a[i] == x;
        assert((a + b)[i] == x);
    }
    if b.contains(x) {
        let i = choose|i: int| 0 <= i < b.len() && b[i] == x;
        assert((a + b)[a.len() + i] == x);
    }
}

/// Every statistics line counts the tasks of its own status (and only
/// statuses some task has get a line); every status that some task has gets
/// a line with its count, and a status no task has gets none.
pub proof fn lemma_stats_count_own_status(m: QueueModel, s: TaskStatus)
    ensures
        forall|i: int| 0 <= i < m.stats().len() ==> (#[trigger] m.stats()[i]).1 == status_count(
            m.task_seq(),
            m.stats()[i].0,
        ) && m.stats()[i].1 > 0,
        status_count(m.task_seq(), s) > 0 ==> m.stats().contains((s, status_count(m.task_seq(), s))),
        status_count(m.task_seq(), s) == 0 ==> forall|i: int| 0 <= i < m.stats().len() ==> (
        #[trigger] m.stats()[i]).0 != s,
{
    let ts = m.task_seq();
    let e1 = stat_entry(TaskStatus::Pending, status_count(ts, TaskStatus::Pending));
    let e2 = stat_entry(TaskStatus::Running, status_count(ts, TaskStatus::Running));
    let e3 = stat_entry(TaskStatus::Completed, status_count(ts, TaskStatus::Completed));
    let e4 = stat_entry(TaskStatus::Failed, status_count(ts, TaskStatus::Failed));
    let e5 = stat_entry(TaskStatus::Cancelled, status_count(ts, TaskStatus::Cancelled));
    lemma_line_of_status(ts, TaskStatus::Pending);
    lemma_line_of_status(ts, TaskStatus::Running);
    lemma_line_of_status(ts, TaskStatus::Completed);
    lemma_line_of_status(ts, TaskStatus::Failed);
    lemma_line_of_status(ts, TaskStatus::Cancelled);
    lemma_lines_concat(ts, e1, e2);
    lemma_lines_concat(ts, e1 + e2, e3);
    lemma_lines_concat(ts, e1 + e2 + e3, e4);
    lemma_lines_concat(ts, e1 + e2 + e3 + e4, e5);
    assert(m.stats() == e1 + e2 + e3 + e4 + e5);
    let c = status_count(ts, s);
    let x = (s, c);
    if c > 0 {
        let e = stat_entry(s, c);
        assert(e[0] == x);
        assert(e.contains(x));
        lemma_concat_keeps(e1, e2, x);
        lemma_concat_keeps(e1 + e2, e3, x);
        lemma_concat_keeps(e1 + e2 + e3, e4, x);
        lemma_concat_keeps(e1 + e2 + e3 + e4, e5, x);
    }
    assert forall|i: int| 0 <= i < m.stats().len() implies (#[trigger] m.stats()[i]).1 == status_count(
        ts,
        m.stats()[i].0,
    ) && m.stats()[i].1 > 0 by {
        assert(counts_own_status(ts, m.stats()[i]));
    }
}

/// A queue refuses a submission exactly when it already knows as many tasks
/// as its capacity, whatever the dispatch line holds; so a submission it
/// accepts never takes it past its capacity.
pub proof fn lemma_submit_within_capacity(
    m: QueueModel,
    id: TaskId,
    name: Seq<char>,
    payload: Seq<u8>,
    max_retries: u32,
    now: Timestamp,
)
    requires
        m.inv(),
        m.tasks.len() <= m.capacity,
    ensures
        m.is_full() <==> m.tasks.len() >= m.capacity,
        !m.is_full() ==> m.submit(id, name, payload, max_retries, now).tasks.len() <= m.capacity,
        m.submit(id, name, payload, max_retries, now).capacity == m.capacity,
{
    if !m.is_full() {
        let m2 = m.submit(id, name, payload, max_retries, now);
        assert(m2.tasks.dom() =~= m.tasks.dom().insert(id));
    }
}

/// Running, finishing, cancelling and dispatching never change how many
/// tasks a queue knows, nor its capacity: together with the law on
/// submission, a queue never holds more tasks than its capacity.
pub proof fn lemma_other_operations_keep_task_count(
    m: QueueModel,
    id: TaskId,
    now: Timestamp,
    success: bool,
)
    requires
        m.inv(),
        m.tasks.contains_key(id),
    ensures
        m.mark_running(id, now).tasks.len() == m.tasks.len(),
        m.complete(id, success, now).tasks.len() == m.tasks.len(),
        m.cancel(id, now).tasks.len() == m.tasks.len(),
        m.next_pending().0.tasks.len() == m.tasks.len(),
        m.mark_running(id, now).capacity == m.capacity,
        m.complete(id, success, now).capacity == m.capacity,
        m.cancel(id, now).capacity == m.capacity,
        m.next_pending().0.capacity == m.capacity,
{
    assert(m.tasks.dom().insert(id) =~= m.tasks.dom());
    assert(m.mark_running(id, now).tasks.dom() =~= m.tasks.dom());
    assert(m.complete_run(id, success, now).tasks.dom() =~= m.tasks.dom());
    assert(m.cancel(id, now).tasks.dom() =~= m.tasks.dom());
}

/// Only a pending or running task can be cancelled, and cancelling it marks
/// it cancelled at that time; a completed, failed or already cancelled task
/// is refused.
pub proof fn lemma_cancel_only_unfinished(m: QueueModel, id: TaskId, now: Timestamp)
    requires
        m.tasks.contains_key(id),
    ensures
        m.tasks[id].status == TaskStatus::Completed ==> !m.can_cancel(id),
        m.tasks[id].status == TaskStatus::Failed ==> !m.can_cancel(id),
        m.tasks[id].status == TaskStatus::Cancelled ==> !m.can_cancel(id),
        m.tasks[id].status == TaskStatus::Pending || m.tasks[id].status == TaskStatus::Running
            ==> m.can_cancel(id) && m.cancel(id, now).tasks[id].status == TaskStatus::Cancelled
            && m.cancel(id, now).tasks[id].completed_at == Some(now),
{
}

/// A task whose last run failed with no retries left is failed for good: it
/// can no longer be cancelled, so its failure is kept.
pub proof fn lemma_failed_task_stays_failed(m: QueueModel, id: TaskId, now: Timestamp)
    requires
        m.tasks.contains_key(id),
        m.tasks[id].status != TaskStatus::Cancelled,
        m.tasks[id].retries >= m.tasks[id].max_retries,
    ensures
        m.complete(id, false, now).tasks[id].status == TaskStatus::Failed,
        !m.complete(id, false, now).can_cancel(id),
{
}

} // verus!
