//! Recovery after a crash or an inconsistent workspace: what is done with
//! tasks that were interrupted, how a page whose file is missing can be
//! restored, and the bookkeeping of applied operations.
use vstd::prelude::*;
use crate::text::{push_str, chars_of};
use crate::gateway::seq_eq;

verus! {

/// Records which write operations were applied, so that a retried task does
/// not apply them twice.
pub struct OperationsService;

impl OperationsService {
    pub fn new() -> (s: Self) {
        OperationsService
    }
}

/// Runs the checks at start-up: orphaned knowledge bases, missing sources,
/// stale indexes, interrupted review items and interrupted tasks.
pub struct RecoveryCheck;

/// Checks the consistency of the database with the workspace files and
/// repairs what can be repaired.
pub struct WorkspaceReconcile;

/// What happens at start-up to a task found in an interrupted state.
#[derive(Debug, Clone)]
pub struct TaskRecovery {
    /// Whether the task is marked as interrupted.
    pub mark_interrupted: bool,
    /// The line reported to the user.
    pub action: String,
}

/// The recovery of a task in `status`: queued or locked tasks are marked as
/// interrupted and may be retried; a task waiting for review keeps waiting;
/// a task interrupted while applying is marked as interrupted and may be
/// resumed; other states are left alone.
pub open spec fn task_recovery(status: Seq<char>, id: Seq<char>, task_type: Seq<char>) -> Option<
    (bool, Seq<char>),
> {
    if status == "queued"@ || status == "locked"@ {
        Some((true, "任务 "@ + id + " ("@ + task_type + ") 标记为中断，可重试"@))
    } else if status == "review_pending"@ {
        Some((false, "任务 "@ + id + " 有待审阅，恢复审阅状态"@))
    } else if status == "applying"@ {
        Some((true, "任务 "@ + id + " 应用中断，标记为可恢复"@))
    } else {
        None
    }
}

/// How a page whose file is missing can be restored: the suggestion shown
/// and the repair action (`recover_from_snapshot`, `reapply_review` or
/// `delete_record`).
pub open spec fn missing_page_remedy(has_snapshot: bool, has_review_item: bool) -> (
    Seq<char>,
    Seq<char>,
) {
    let suggestion = if has_snapshot && has_review_item {
        "可从版本快照恢复 或 可重新应用审阅项"@
    } else if has_snapshot {
        "可从版本快照恢复"@
    } else if has_review_item {
        "可重新应用审阅项"@
    } else {
        "无恢复来源，建议删除数据库记录"@
    };
    let action = if has_snapshot {
        "recover_from_snapshot"@
    } else if has_review_item {
        "reapply_review"@
    } else {
        "delete_record"@
    };
    (suggestion, action)
}

fn status_is(cs: &Vec<char>, lit: &str) -> (b: bool)
    ensures
        b == (cs@ == lit@),
{
    let l = chars_of(lit);
    seq_eq(cs, &l)
}

impl RecoveryCheck {
    /// What is done at start-up with a task found in `status` (see
    /// `task_recovery`).
    pub fn task_recovery(status: &str, id: &str, task_type: &str) -> (r: Option<TaskRecovery>)
        ensures
            match (r, task_recovery(status@, id@, task_type@)) {
                (Some(t), Some((mark, line))) => t.mark_interrupted == mark && t.action@ == line,
                (None, None) => true,
                _ => false,
            },
    {
        let s = chars_of(status);
        let mut line = String::from_str("任务 ");
        push_str(&mut line, id);
        if status_is(&s, "queued") || status_is(&s, "locked") {
            push_str(&mut line, " (");
            push_str(&mut line, task_type);
            push_str(&mut line, ") 标记为中断，可重试");
            Some(TaskRecovery { mark_interrupted: true, action: line })
        } else if status_is(&s, "review_pending") {
            push_str(&mut line, " 有待审阅，恢复审阅状态");
            Some(TaskRecovery { mark_interrupted: false, action: line })
        } else if status_is(&s, "applying") {
            push_str(&mut line, " 应用中断，标记为可恢复");
            Some(TaskRecovery { mark_interrupted: true, action: line })
        } else {
            None
        }
    }
}

impl WorkspaceReconcile {
    /// The suggestion and repair action for a page whose file is missing
    /// (see `missing_page_remedy`).
    pub fn missing_page_remedy(has_snapshot: bool, has_review_item: bool) -> (r: (String, String))
        ensures
            (r.0@, r.1@) == missing_page_remedy(has_snapshot, has_review_item),
    {
        let mut suggestion = if has_snapshot {
            String::from_str("可从版本快照恢复")
        } else {
            String::new()
        };
        if has_review_item {
            if has_snapshot {
                push_str(&mut suggestion, " 或 ");
            }
            push_str(&mut suggestion, "可重新应用审阅项");
        }
        if !has_snapshot && !has_review_item {
            suggestion = String::from_str("无恢复来源，建议删除数据库记录");
        }
        proof {
            reveal_strlit("可从版本快照恢复 或 可重新应用审阅项");
            reveal_strlit("可从版本快照恢复");
            reveal_strlit(" 或 ");
            reveal_strlit("可重新应用审阅项");
        }
        let action = if has_snapshot {
            "recover_from_snapshot"
        } else if has_review_item {
            "reapply_review"
        } else {
            "delete_record"
        };
        assert(suggestion@ =~= missing_page_remedy(has_snapshot, has_review_item).0);
        (suggestion, String::from_str(action))
    }
}

} // verus!
