use vstd::prelude::*;
use vstd::slice::slice_to_vec;
use vstd::utf8::encode_utf8;
use crate::queue::stats_total;
use crate::task::{Task, TaskId, TaskStatus};
use crate::ids::{parsed_uuid, rfc3339_of, time_text, uuid_from_text, uuid_text, uuid_to_string};

verus! {

/// The retry budget a task gets when its request names none.
pub const DEFAULT_MAX_RETRIES: u32 = 3;

/// The name under which a status is reported and filtered.
pub open spec fn status_text(s: TaskStatus) -> Seq<char> {
    match s {
        TaskStatus::Pending => "Pending"@,
        TaskStatus::Running => "Running"@,
        TaskStatus::Completed => "Completed"@,
        TaskStatus::Failed => "Failed"@,
        TaskStatus::Cancelled => "Cancelled"@,
    }
}

/// The status a filter text names, if any.
pub open spec fn status_from_text(t: Seq<char>) -> Option<TaskStatus> {
    if t == "Pending"@ {
        Some(TaskStatus::Pending)
    } else if t == "Running"@ {
        Some(TaskStatus::Running)
    } else if t == "Completed"@ {
        Some(TaskStatus::Completed)
    } else if t == "Failed"@ {
        Some(TaskStatus::Failed)
    } else if t == "Cancelled"@ {
        Some(TaskStatus::Cancelled)
    } else {
        None
    }
}

/// The name of a status.
pub fn status_name(s: TaskStatus) -> (r: String)
    ensures
        r@ == status_text(s),
{
    match s {
        TaskStatus::Pending => "Pending".to_string(),
        TaskStatus::Running => "Running".to_string(),
        TaskStatus::Completed => "Completed".to_string(),
        TaskStatus::Failed => "Failed".to_string(),
        TaskStatus::Cancelled => "Cancelled".to_string(),
    }
}

/// The status a listing filter names; any other text filters nothing.
pub fn parse_status_filter(text: &String) -> (r: Option<TaskStatus>)
    ensures
        r == status_from_text(text@),
{
    if *text == "Pending".to_string() {
        Some(TaskStatus::Pending)
    } else if *text == "Running".to_string() {
        Some(TaskStatus::Running)
    } else if *text == "Completed".to_string() {
        Some(TaskStatus::Completed)
    } else if *text == "Failed".to_string() {
        Some(TaskStatus::Failed)
    } else if *text == "Cancelled".to_string() {
        Some(TaskStatus::Cancelled)
    } else {
        None
    }
}

/// The payload bytes and retry budget of a submission request: the UTF-8
/// bytes of the payload text (none when absent) and the named budget
/// (`DEFAULT_MAX_RETRIES` when absent).
pub fn submission_fields(payload: Option<String>, max_retries: Option<u32>) -> (r: (Vec<u8>, u32))
    ensures
        r.0@ == match payload {
            Some(p) => encode_utf8(p@),
            None => Seq::<u8>::empty(),
        },
        r.1 == match max_retries {
            Some(m) => m,
            None => DEFAULT_MAX_RETRIES,
        },
{
    let bytes = match payload {
        Some(p) => slice_to_vec(p.as_str().as_bytes()),
        None => Vec::new(),
    };
    let retries = match max_retries {
        Some(m) => m,
        None => DEFAULT_MAX_RETRIES,
    };
    (bytes, retries)
}

/// The total of a statistics table, or `None` when it does not fit a `usize`.
pub fn stats_total_count(stats: &Vec<(TaskStatus, usize)>) -> (r: Option<usize>)
    ensures
        ({
            let total = stats_total(stats@.map_values(|p: (TaskStatus, usize)| (p.0, p.1 as nat)));
            &&& total <= usize::MAX ==> r == Some(total as usize)
            &&& total > usize::MAX ==> r is None
        }),
{
    let ghost v = stats@.map_values(|p: (TaskStatus, usize)| (p.0, p.1 as nat));
    let mut sum: usize = 0;
    let n = stats.len();
    for i in 0..n
        invariant
            n == stats@.len(),
            v == stats@.map_values(|p: (TaskStatus, usize)| (p.0, p.1 as nat)),
            sum == stats_total(v.take(i as int)),
    {
        proof {
            assert(v.take(i + 1).drop_last() =~= v.take(i as int));
        }
        let c = stats[i].1;
        match sum.checked_add(c) {
            Some(s) => sum = s,
            None => {
                proof {
                    lemma_stats_total_prefix(v, i + 1);
                }
                return None;
            },
        }
    }
    proof {
        assert(v.take(n as int) =~= v);
    }
    Some(sum)
}

/// The total of a table is at least the total of any of its prefixes.
proof fn lemma_stats_total_prefix(v: Seq<(TaskStatus, nat)>, k: int)
    requires
        0 <= k <= v.len(),
    ensures
        stats_total(v.take(k)) <= stats_total(v),
    decreases v.len() - k,
{
    if k < v.len() {
        lemma_stats_total_prefix(v, k + 1);
        assert(v.take(k + 1).drop_last() =~= v.take(k));
    } else {
        assert(v.take(k) =~= v);
    }
}

/// The text of a task id: 32 lowercase hex digits grouped 8-4-4-4-12.
pub fn task_id_text(id: TaskId) -> (s: String)
    ensures
        s@ == uuid_text(id),
{
    uuid_to_string(id)
}

/// The task id a request path names, if it is a UUID; the text of an id
/// always reads back as that id.
pub fn parse_task_id(text: &str) -> (r: Option<TaskId>)
    ensures
        r == parsed_uuid(text@),
        forall|id: TaskId| text@ == uuid_text(id) ==> r == Some(id),
{
    uuid_from_text(text)
}

/// The texts a task is reported with: its id, its status, and its creation
/// time in RFC 3339 (absent when the time is not representable).
pub fn task_response_fields(task: &Task) -> (r: (String, String, Option<String>))
    ensures
        r.0@ == uuid_text(task.id),
        r.1@ == status_text(task.status),
        match r.2 {
            Some(t) => rfc3339_of(task.created_at.secs, task.created_at.nanos) == Some(t@),
            None => rfc3339_of(task.created_at.secs, task.created_at.nanos) is None,
        },
{
    (uuid_to_string(task.id), status_name(task.status), time_text(task.created_at))
}

/// Naming a status and reading the name back gives the status again.
pub proof fn lemma_status_name_round_trip(s: TaskStatus)
    ensures
        status_from_text(status_text(s)) == Some(s),
{
    reveal_strlit("Pending");
    reveal_strlit("Running");
    reveal_strlit("Completed");
    reveal_strlit("Failed");
    reveal_strlit("Cancelled");
    assert("Running"@[0] != "Pending"@[0]);
    assert("Completed"@[0] != "Pending"@[0]);
    assert("Completed"@[0] != "Running"@[0]);
    assert("Failed"@[0] != "Pending"@[0]);
    assert("Failed"@[0] != "Running"@[0]);
    assert("Failed"@[0] != "Completed"@[0]);
    assert("Cancelled"@[0] != "Pending"@[0]);
    assert("Cancelled"@[0] != "Running"@[0]);
    assert("Cancelled"@[1] != "Completed"@[1]);
    assert("Cancelled"@[0] != "Failed"@[0]);
}

} // verus!
