//! Records of the task queue and the flag by which a running task is asked to
//! stop.
use vstd::prelude::*;
use std::sync::Arc;
use std::sync::atomic::AtomicBool;
use crate::gateway::seq_eq;
use crate::text::{chars_of, push_str};

verus! {

/// A flag shared between the task queue and a running pipeline; once set,
/// the pipeline stops at its next check. Every clone shares the same flag.
/// The flag may be set by another thread at any moment, so nothing is known
/// of what `is_cancelled` returns.
#[derive(Clone)]
pub struct CancellationToken {
    cancelled: Arc<AtomicBool>,
}

impl CancellationToken {
    /// A token that is not set.
    pub fn new() -> (t: Self) {
        CancellationToken { cancelled: Arc::new(AtomicBool::new(false)) }
    }

    /// Sets the flag.
    pub fn cancel(&self) {
        self.cancelled.store(true, std::sync::atomic::Ordering::SeqCst);
    }

    /// Whether the flag has been set, by this token or one of its clones.
    pub fn is_cancelled(&self) -> (b: bool) {
        self.cancelled.load(std::sync::atomic::Ordering::SeqCst)
    }
}

/// One task of the queue, as stored in the `tasks` table.
#[derive(Debug, Clone)]
pub struct Task {
    pub id: String,
    pub kb_id: String,
    pub task_type: String,
    pub task_name: String,
    pub status: String,
    pub current_agent: String,
    pub model_profile_id: String,
    pub input_ref: String,
    pub output_ref: String,
    pub review_id: String,
    pub error_message: String,
    pub failure_reason: String,
    pub recoverable: bool,
    pub resume_from_stage: String,
    pub last_success_stage: String,
    pub next_action: String,
    pub retry_count: i32,
    pub cancel_reason: String,
    pub created_at: String,
    pub updated_at: String,
    pub locked_at: Option<String>,
    pub completed_at: Option<String>,
    pub archived_at: Option<String>,
    pub handled_at: Option<String>,
}

/// One event in the history of a task.
#[derive(Debug, Clone)]
pub struct TaskEvent {
    pub id: String,
    pub task_id: String,
    pub event_type: String,
    pub agent_name: String,
    pub message: String,
    pub created_at: String,
}

// ---------------------------------------------------------------------------
// Status changes
// ---------------------------------------------------------------------------

/// The statuses from which a task is not cancelled: it is over.
pub open spec fn is_terminal(status: Seq<char>) -> bool {
    status == "applied"@ || status == "failed"@ || status == "pipeline_failed"@ || status == "cancelled"@
        || status == "cancelled_after_model_return"@ || status == "interrupted"@
}

/// The statuses in which no pipeline runs that would notice a request to
/// stop.
pub open spec fn has_no_runner(status: Seq<char>) -> bool {
    status == "queued"@ || status == "review_pending"@ || status == "review_generating"@
}

/// What cancelling a task does: the status it is given, whether it is then
/// complete (its completion time is set), and the event recorded.
#[derive(Debug, Clone)]
pub struct CancelPlan {
    pub new_status: String,
    pub completes: bool,
    pub event_type: String,
    pub event_message: String,
}

/// What cancelling a task in `status` does: a task that is over is not
/// cancelled; one without a running pipeline is cancelled at once; one with
/// a running pipeline is marked `cancelling` for the pipeline to stop.
pub open spec fn cancel_outcome(status: Seq<char>) -> Result<(Seq<char>, bool, Seq<char>, Seq<char>), Seq<char>> {
    if is_terminal(status) {
        Err("任务已处于终态，无法取消"@)
    } else if has_no_runner(status) {
        Ok(("cancelled"@, true, "task_cancelled"@, "任务已取消（无活跃运行器，直接终止）"@))
    } else {
        Ok(("cancelling"@, false, "cancellation_requested"@, "用户请求取消任务，等待 Pipeline 响应"@))
    }
}

/// Which time stamp a status change sets besides the update time.
#[derive(Debug, Clone, Copy, PartialEq, Eq, Structural)]
pub enum StatusStamp {
    /// The time the task was locked.
    Locked,
    /// The time the task completed.
    Completed,
    /// None.
    Unchanged,
}

/// The stamp that a change to `status` sets.
pub open spec fn status_stamp(status: Seq<char>) -> StatusStamp {
    if status == "locked"@ {
        StatusStamp::Locked
    } else if status == "applied"@ || status == "failed"@ || status == "cancelled"@ {
        StatusStamp::Completed
    } else {
        StatusStamp::Unchanged
    }
}

/// The message of the event recorded when a task changes to `status`.
pub open spec fn status_event_message(status: Seq<char>, agent: Seq<char>, error: Seq<char>) -> Seq<char> {
    if status == "failed"@ {
        "任务失败: "@ + error
    } else {
        "状态更新: "@ + agent + " -> "@ + status
    }
}

/// Whether `s` is the text `lit`.
fn is_str(s: &str, lit: &str) -> (b: bool)
    ensures
        b == (s@ == lit@),
{
    let a = chars_of(s);
    let l = chars_of(lit);
    seq_eq(&a, &l)
}

/// What cancelling a task in `status` does (see `cancel_outcome`).
pub fn cancel_plan(status: &str) -> (r: Result<CancelPlan, String>)
    ensures
        match (r, cancel_outcome(status@)) {
            (Ok(p), Ok((st, c, et, em))) => p.new_status@ == st && p.completes == c && p.event_type@ == et
                && p.event_message@ == em,
            (Err(e), Err(m)) => e@ == m,
            _ => false,
        },
{
    if is_str(status, "applied") || is_str(status, "failed") || is_str(status, "pipeline_failed") || is_str(
        status,
        "cancelled",
    ) || is_str(status, "cancelled_after_model_return") || is_str(status, "interrupted") {
        return Err(String::from_str("任务已处于终态，无法取消"));
    }
    if is_str(status, "queued") || is_str(status, "review_pending") || is_str(status, "review_generating") {
        Ok(
            CancelPlan {
                new_status: String::from_str("cancelled"),
                completes: true,
                event_type: String::from_str("task_cancelled"),
                event_message: String::from_str("任务已取消（无活跃运行器，直接终止）"),
            },
        )
    } else {
        Ok(
            CancelPlan {
                new_status: String::from_str("cancelling"),
                completes: false,
                event_type: String::from_str("cancellation_requested"),
                event_message: String::from_str("用户请求取消任务，等待 Pipeline 响应"),
            },
        )
    }
}

/// The stamp a change to `status` sets and the message of the event
/// recorded for it.
pub fn status_change(status: &str, agent_name: &str, error_message: &str) -> (r: (StatusStamp, String))
    ensures
        r.0 == status_stamp(status@),
        r.1@ == status_event_message(status@, agent_name@, error_message@),
{
    let stamp = if is_str(status, "locked") {
        StatusStamp::Locked
    } else if is_str(status, "applied") || is_str(status, "failed") || is_str(status, "cancelled") {
        StatusStamp::Completed
    } else {
        StatusStamp::Unchanged
    };
    let msg = if is_str(status, "failed") {
        let mut m = String::from_str("任务失败: ");
        push_str(&mut m, error_message);
        m
    } else {
        let mut m = String::from_str("状态更新: ");
        push_str(&mut m, agent_name);
        push_str(&mut m, " -> ");
        push_str(&mut m, status);
        m
    };
    (stamp, msg)
}

/// Where an interrupted task resumes: at review when its review items
/// exist, otherwise back in the queue to run its pipeline again.
#[derive(Debug, Clone, Copy, PartialEq, Eq, Structural)]
pub enum ResumeTarget {
    /// Status `review_pending`, recorded with the message
    /// `审阅项已存在，恢复至待审阅状态`.
    Review,
    /// Status `queued`, its cancellation cleared and its error message set
    /// to `从中断状态恢复`.
    Queue,
}

/// Where an interrupted task resumes.
pub fn resume_target(has_reviews: bool) -> (r: ResumeTarget)
    ensures
        r == if has_reviews {
            ResumeTarget::Review
        } else {
            ResumeTarget::Queue
        },
{
    if has_reviews {
        ResumeTarget::Review
    } else {
        ResumeTarget::Queue
    }
}

/// The statuses that a task list filter selects (the filter's name; `all`
/// and unknown filters select the tasks not archived).
pub open spec fn filter_statuses(filter: Seq<char>) -> Seq<Seq<char>> {
    if filter == "running"@ {
        seq![
            "queued"@,
            "running"@,
            "locked"@,
            "prompt_built"@,
            "sent_to_model"@,
            "model_returned"@,
            "json_validating"@,
            "json_valid"@,
            "json_repaired"@,
            "candidate_searching"@,
            "resolution_running"@,
            "relationship_running"@,
            "update_plan_generating"@,
            "applying"@,
        ]
    } else if filter == "pending_review"@ {
        seq!["review_pending"@, "review_generating"@]
    } else if filter == "failed"@ {
        seq!["failed"@, "pipeline_failed"@]
    } else if filter == "cancelled"@ {
        seq!["cancelled"@, "cancelled_after_model_return"@, "cancelling"@]
    } else {
        seq![]
    }
}

/// Whether a task passes a task list filter: `running`, `pending_review`,
/// `failed` (not yet handled), `cancelled` and the default select tasks not
/// archived, by status; `archived` selects the archived ones.
pub open spec fn passes_filter(filter: Seq<char>, status: Seq<char>, archived: bool, handled: bool) -> bool {
    if filter == "archived"@ {
        archived
    } else if filter == "running"@ || filter == "pending_review"@ || filter == "failed"@ || filter
        == "cancelled"@ {
        !archived && filter_statuses(filter).contains(status) && (filter == "failed"@ ==> !handled)
    } else {
        !archived
    }
}

/// Whether a task passes a task list filter (see `passes_filter`).
pub fn task_passes_filter(filter: &str, task: &Task) -> (b: bool)
    ensures
        b == passes_filter(filter@, task.status@, task.archived_at is Some, task.handled_at is Some),
{
    let archived = task.archived_at.is_some();
    let handled = task.handled_at.is_some();
    let st = task.status.as_str();
    assert(archived == task.archived_at is Some);
    assert(handled == task.handled_at is Some);
    assert(st@ == task.status@);
    proof {
        reveal_strlit("archived");
        reveal_strlit("running");
        reveal_strlit("pending_review");
        reveal_strlit("failed");
        reveal_strlit("cancelled");
    }
    if is_str(filter, "archived") {
        assert(archived == passes_filter(filter@, st@, archived, handled));
        archived
    } else if is_str(filter, "running") {
        let r = is_str(st, "queued") || is_str(st, "running") || is_str(st, "locked") || is_str(st, "prompt_built")
            || is_str(st, "sent_to_model") || is_str(st, "model_returned") || is_str(st, "json_validating")
            || is_str(st, "json_valid") || is_str(st, "json_repaired") || is_str(st, "candidate_searching")
            || is_str(st, "resolution_running") || is_str(st, "relationship_running") || is_str(
            st,
            "update_plan_generating",
        ) || is_str(st, "applying");
        assert(r == filter_statuses(filter@).contains(st@)) by {
            let fs = filter_statuses(filter@);
            if r {
                assert(fs.contains(st@)) by {
                    if st@ == "queued"@ { assert(fs[0] == st@); }
                    else if st@ == "running"@ { assert(fs[1] == st@); }
                    else if st@ == "locked"@ { assert(fs[2] == st@); }
                    else if st@ == "prompt_built"@ { assert(fs[3] == st@); }
                    else if st@ == "sent_to_model"@ { assert(fs[4] == st@); }
                    else if st@ == "model_returned"@ { assert(fs[5] == st@); }
                    else if st@ == "json_validating"@ { assert(fs[6] == st@); }
                    else if st@ == "json_valid"@ { assert(fs[7] == st@); }
                    else if st@ == "json_repaired"@ { assert(fs[8] == st@); }
                    else if st@ == "candidate_searching"@ { assert(fs[9] == st@); }
                    else if st@ == "resolution_running"@ { assert(fs[10] == st@); }
                    else if st@ == "relationship_running"@ { assert(fs[11] == st@); }
                    else if st@ == "update_plan_generating"@ { assert(fs[12] == st@); }
                    else { assert(fs[13] == st@); }
                }
            }
        }
        assert(filter@ != "failed"@ && filter@ != "archived"@) by {
            reveal_strlit("running");
            reveal_strlit("failed");
            reveal_strlit("archived");
            assert(filter@.len() == 7);
        }
        assert((!archived && r) == passes_filter(filter@, st@, archived, handled));
        !archived && r
    } else if is_str(filter, "pending_review") {
        let r = is_str(st, "review_pending") || is_str(st, "review_generating");
        assert(r == filter_statuses(filter@).contains(st@)) by {
            let fs = filter_statuses(filter@);
            if st@ == "review_pending"@ { assert(fs[0] == st@); }
            if st@ == "review_generating"@ { assert(fs[1] == st@); }
        }
        assert(filter@ != "failed"@ && filter@ != "archived"@) by {
            reveal_strlit("pending_review");
            reveal_strlit("failed");
            reveal_strlit("archived");
            assert(filter@.len() == 14);
        }
        assert((!archived && r) == passes_filter(filter@, st@, archived, handled));
        !archived && r
    } else if is_str(filter, "failed") {
        let r = is_str(st, "failed") || is_str(st, "pipeline_failed");
        assert(r == filter_statuses(filter@).contains(st@)) by {
            let fs = filter_statuses(filter@);
            if st@ == "failed"@ { assert(fs[0] == st@); }
            if st@ == "pipeline_failed"@ { assert(fs[1] == st@); }
        }
        assert((!archived && r && !handled) == passes_filter(filter@, st@, archived, handled));
        !archived && r && !handled
    } else if is_str(filter, "cancelled") {
        let r = is_str(st, "cancelled") || is_str(st, "cancelled_after_model_return") || is_str(st, "cancelling");
        assert(r == filter_statuses(filter@).contains(st@)) by {
            let fs = filter_statuses(filter@);
            if st@ == "cancelled"@ { assert(fs[0] == st@); }
            if st@ == "cancelled_after_model_return"@ { assert(fs[1] == st@); }
            if st@ == "cancelling"@ { assert(fs[2] == st@); }
        }
        assert((!archived && r) == passes_filter(filter@, st@, archived, handled));
        !archived && r
    } else {
        assert(!archived == passes_filter(filter@, st@, archived, handled));
        !archived
    }
}

} // verus!
