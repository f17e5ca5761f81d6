//! Tasks of a project, in the order in which they were created.
use vstd::prelude::*;

use crate::error::{error, error_view, unit_view, AppError, ErrorView};
use crate::storage::notes::input_too_large;
use crate::text::{
    blank, byte_len, is_blank, is_less, opt_copy, opt_str_view, opt_view, text_less, utf8_len,
};

verus! {

pub const TASK_MAX_ENTRIES: usize = 500;

pub const TASK_ID_MAX_BYTES: usize = 256;

pub const TASK_TITLE_MAX_BYTES: usize = 512;

pub const TASK_DETAILS_MAX_BYTES: usize = 16_384;

pub const TASK_PARENT_MAX_BYTES: usize = 256;

pub const TASK_LIST_OUTPUT_MAX: usize = 100;

pub const TASK_AUDIT_OUTPUT_MAX: usize = 20;

pub struct TaskRecord {
    pub id: String,
    pub title: String,
    pub status: String,
    pub details: Option<String>,
    pub parent_task: Option<String>,
    pub created_at: String,
    pub updated_at: String,
    pub started_at: Option<String>,
    pub completed_at: Option<String>,
}

pub struct TaskView {
    pub id: Seq<char>,
    pub title: Seq<char>,
    pub status: Seq<char>,
    pub details: Option<Seq<char>>,
    pub parent_task: Option<Seq<char>>,
    pub created_at: Seq<char>,
    pub updated_at: Seq<char>,
    pub started_at: Option<Seq<char>>,
    pub completed_at: Option<Seq<char>>,
}

impl View for TaskRecord {
    type V = TaskView;

    open spec fn view(&self) -> TaskView {
        TaskView {
            id: self.id@,
            title: self.title@,
            status: self.status@,
            details: opt_view(self.details),
            parent_task: opt_view(self.parent_task),
            created_at: self.created_at@,
            updated_at: self.updated_at@,
            started_at: opt_view(self.started_at),
            completed_at: opt_view(self.completed_at),
        }
    }
}

/// How many tasks are in each state.
#[derive(Clone, Copy, Debug, PartialEq, Eq, Structural)]
pub struct TaskSummary {
    pub pending: usize,
    pub in_progress: usize,
    pub completed: usize,
    pub failed: usize,
    pub cancelled: usize,
    pub total: usize,
}

pub open spec fn tasks_view(tasks: Seq<TaskRecord>) -> Seq<TaskView> {
    tasks.map_values(|task: TaskRecord| task@)
}

pub open spec fn task_status(status: Seq<char>) -> bool {
    status == "pending"@ || status == "in_progress"@ || status == "completed"@ || status
        == "failed"@ || status == "cancelled"@
}

pub fn is_task_status(status: &str) -> (r: bool)
    ensures
        r == task_status(status@),
{
    status.eq("pending") || status.eq("in_progress") || status.eq("completed") || status.eq(
        "failed",
    ) || status.eq("cancelled")
}

pub open spec fn task_id_refusal(id: Seq<char>) -> Option<ErrorView> {
    if id.len() == 0 {
        Some(error_view("INVALID_INPUT", "task id must not be empty"))
    } else if utf8_len(id) > TASK_ID_MAX_BYTES {
        Some(error_view("INPUT_TOO_LARGE", "task id exceeds 256 bytes"))
    } else {
        None
    }
}

pub open spec fn title_refusal(title: Seq<char>) -> Option<ErrorView> {
    if blank(title) {
        Some(error_view("INVALID_INPUT", "task title must not be empty"))
    } else if utf8_len(title) > TASK_TITLE_MAX_BYTES {
        Some(error_view("INPUT_TOO_LARGE", "task title exceeds 512 bytes"))
    } else {
        None
    }
}

pub open spec fn details_refusal(details: Option<Seq<char>>) -> Option<ErrorView> {
    match details {
        Some(text) if utf8_len(text) > TASK_DETAILS_MAX_BYTES => Some(
            error_view("INPUT_TOO_LARGE", "task details exceed 16384 bytes"),
        ),
        _ => None,
    }
}

/// Why a task is not accepted.
pub open spec fn task_refusal(task: TaskView) -> Option<ErrorView> {
    if !task_status(task.status) {
        Some(error_view("INVALID_INPUT", "invalid task status"))
    } else if task_id_refusal(task.id) is Some {
        task_id_refusal(task.id)
    } else if title_refusal(task.title) is Some {
        title_refusal(task.title)
    } else if details_refusal(task.details) is Some {
        details_refusal(task.details)
    } else if task.parent_task is Some && utf8_len(task.parent_task->0) > TASK_PARENT_MAX_BYTES {
        Some(error_view("INPUT_TOO_LARGE", "parent task id exceeds 256 bytes"))
    } else {
        None
    }
}

pub fn validate_task_id(id: &str) -> (result: Result<(), AppError>)
    ensures
        unit_view(result) == match task_id_refusal(id@) {
            Some(e) => Err(e),
            None => Ok(()),
        },
{
    if id.is_empty() {
        return Err(error("INVALID_INPUT", "task id must not be empty"));
    }
    if byte_len(id) > TASK_ID_MAX_BYTES {
        return Err(input_too_large("task id exceeds 256 bytes"));
    }
    Ok(())
}

fn validate_title(title: &str) -> (result: Result<(), AppError>)
    ensures
        unit_view(result) == match title_refusal(title@) {
            Some(e) => Err(e),
            None => Ok(()),
        },
{
    if is_blank(title) {
        return Err(error("INVALID_INPUT", "task title must not be empty"));
    }
    if byte_len(title) > TASK_TITLE_MAX_BYTES {
        return Err(input_too_large("task title exceeds 512 bytes"));
    }
    Ok(())
}

fn validate_details(details: Option<&str>) -> (result: Result<(), AppError>)
    ensures
        unit_view(result) == match details_refusal(opt_str_view(details)) {
            Some(e) => Err(e),
            None => Ok(()),
        },
{
    if let Some(text) = details {
        if byte_len(text) > TASK_DETAILS_MAX_BYTES {
            return Err(input_too_large("task details exceed 16384 bytes"));
        }
    }
    Ok(())
}

pub fn validate_task_text(task: &TaskRecord) -> (result: Result<(), AppError>)
    ensures
        unit_view(result) == match task_refusal(task@) {
            Some(e) => Err(e),
            None => Ok(()),
        },
{
    if !is_task_status(task.status.as_str()) {
        return Err(error("INVALID_INPUT", "invalid task status"));
    }
    if let Err(e) = validate_task_id(task.id.as_str()) {
        return Err(e);
    }
    if let Err(e) = validate_title(task.title.as_str()) {
        return Err(e);
    }
    if let Err(e) = validate_details(crate::text::opt_str(&task.details)) {
        return Err(e);
    }
    if let Some(parent) = &task.parent_task {
        if byte_len(parent.as_str()) > TASK_PARENT_MAX_BYTES {
            return Err(input_too_large("parent task id exceeds 256 bytes"));
        }
    }
    Ok(())
}

/// Where the task with this id stands.
pub open spec fn task_index(tasks: Seq<TaskView>, id: Seq<char>) -> Option<int>
    decreases tasks.len(),
{
    if tasks.len() == 0 {
        None
    } else {
        match task_index(tasks.drop_last(), id) {
            Some(i) => Some(i),
            None => if tasks.last().id == id {
                Some(tasks.len() - 1)
            } else {
                None
            },
        }
    }
}

/// Created earlier or, at the same time, with the lesser id.
pub open spec fn task_before(a: TaskView, b: TaskView) -> bool {
    text_less(a.created_at, b.created_at) || (a.created_at == b.created_at && text_less(a.id, b.id))
}

/// How many tasks stand before the place of a task.
pub open spec fn task_place(tasks: Seq<TaskView>, task: TaskView) -> int
    decreases tasks.len(),
{
    if tasks.len() == 0 || !task_before(tasks[0], task) {
        0
    } else {
        1 + task_place(tasks.skip(1), task)
    }
}

/// Why a task may not be added.
pub open spec fn add_refusal(tasks: Seq<TaskView>, task: TaskView) -> Option<ErrorView> {
    if task_refusal(task) is Some {
        task_refusal(task)
    } else if tasks.len() >= TASK_MAX_ENTRIES {
        Some(
            error_view(
                "RESOURCE_LIMIT_EXCEEDED",
                "project task list is limited to 500 entries",
            ),
        )
    } else if task_index(tasks, task.id) is Some {
        Some(
            error_view(
                "STORAGE_ERROR",
                "UNIQUE constraint failed: tasks.project_key, tasks.id",
            ),
        )
    } else {
        None
    }
}

pub open spec fn add_task(tasks: Seq<TaskView>, task: TaskView) -> Seq<TaskView> {
    tasks.insert(task_place(tasks, task), task)
}

/// Why a change of a task is not accepted.
pub open spec fn update_refusal(
    id: Seq<char>,
    status: Seq<char>,
    title: Option<Seq<char>>,
    details: Option<Seq<char>>,
) -> Option<ErrorView> {
    if task_id_refusal(id) is Some {
        task_id_refusal(id)
    } else if !task_status(status) {
        Some(error_view("INVALID_INPUT", "invalid task status"))
    } else if title is Some && title_refusal(title->0) is Some {
        title_refusal(title->0)
    } else {
        details_refusal(details)
    }
}

pub open spec fn finished_status(status: Seq<char>) -> bool {
    status == "completed"@ || status == "failed"@ || status == "cancelled"@
}

/// A task after a change. It keeps the time at which it was first in progress;
/// the time of its completion is that of the change, or none.
pub open spec fn updated_task(
    task: TaskView,
    status: Seq<char>,
    title: Option<Seq<char>>,
    details: Option<Seq<char>>,
    now: Seq<char>,
) -> TaskView {
    TaskView {
        status,
        title: match title {
            Some(text) => text,
            None => task.title,
        },
        details: match details {
            Some(text) => Some(text),
            None => task.details,
        },
        updated_at: now,
        started_at: match task.started_at {
            Some(at) => Some(at),
            None => if status == "in_progress"@ {
                Some(now)
            } else {
                None
            },
        },
        completed_at: if finished_status(status) {
            Some(now)
        } else {
            None
        },
        ..task
    }
}

/// A task as it is listed: texts over their limits are left out.
pub open spec fn listed_task(task: TaskView) -> TaskView {
    TaskView {
        title: if utf8_len(task.title) <= TASK_TITLE_MAX_BYTES {
            task.title
        } else {
            "[oversized legacy title]"@
        },
        details: match task.details {
            Some(text) if utf8_len(text) > TASK_DETAILS_MAX_BYTES => Some(
                "[oversized legacy details omitted]"@,
            ),
            _ => task.details,
        },
        parent_task: match task.parent_task {
            Some(text) if utf8_len(text) > TASK_PARENT_MAX_BYTES => None,
            _ => task.parent_task,
        },
        ..task
    }
}

pub open spec fn listed_tasks(tasks: Seq<TaskView>, limit: int) -> Seq<TaskView> {
    let shown = if limit < TASK_MAX_ENTRIES {
        limit
    } else {
        TASK_MAX_ENTRIES as int
    };
    let kept = if tasks.len() <= shown {
        tasks
    } else {
        tasks.take(shown)
    };
    kept.map_values(|task: TaskView| listed_task(task))
}

pub open spec fn status_count(tasks: Seq<TaskView>, status: Seq<char>) -> nat
    decreases tasks.len(),
{
    if tasks.len() == 0 {
        0
    } else {
        status_count(tasks.drop_last(), status) + if tasks.last().status == status {
            1nat
        } else {
            0nat
        }
    }
}

pub(crate) fn find_task(tasks: &Vec<TaskRecord>, id: &str) -> (found: Option<usize>)
    ensures
        match found {
            Some(i) => task_index(tasks_view(tasks@), id@) == Some(i as int) && i < tasks@.len(),
            None => task_index(tasks_view(tasks@), id@) is None,
        },
{
    let ghost rows = tasks_view(tasks@);
    let mut i: usize = 0;
    while i < tasks.len()
        invariant
            i <= tasks@.len(),
            rows == tasks_view(tasks@),
            task_index(rows.take(i as int), id@) is None,
        decreases tasks.len() - i,
    {
        proof {
            assert(rows.take(i + 1).drop_last() =~= rows.take(i as int));
        }
        if tasks[i].id.as_str().eq(id) {
            proof {
                lemma_task_index_prefix(rows, i + 1, id@);
            }
            return Some(i);
        }
        i += 1;
    }
    proof {
        assert(rows.take(i as int) =~= rows);
    }
    None
}

proof fn lemma_task_index_prefix(tasks: Seq<TaskView>, n: int, id: Seq<char>)
    requires
        0 <= n <= tasks.len(),
        task_index(tasks.take(n), id) is Some,
    ensures
        task_index(tasks, id) == task_index(tasks.take(n), id),
    decreases tasks.len() - n,
{
    if n == tasks.len() {
        assert(tasks.take(n) =~= tasks);
    } else {
        assert(tasks.take(n + 1).drop_last() =~= tasks.take(n));
        lemma_task_index_prefix(tasks, n + 1, id);
    }
}

fn is_before(a: &TaskRecord, b: &TaskRecord) -> (r: bool)
    ensures
        r == task_before(a@, b@),
{
    is_less(a.created_at.as_str(), b.created_at.as_str()) || (a.created_at == b.created_at
        && is_less(a.id.as_str(), b.id.as_str()))
}

pub(crate) fn find_task_place(tasks: &Vec<TaskRecord>, task: &TaskRecord) -> (place: usize)
    ensures
        place == task_place(tasks_view(tasks@), task@),
        place <= tasks@.len(),
{
    let ghost rows = tasks_view(tasks@);
    let mut i: usize = 0;
    proof {
        assert(rows.skip(0) =~= rows);
    }
    while i < tasks.len() && is_before(&tasks[i], task)
        invariant
            i <= tasks@.len(),
            rows == tasks_view(tasks@),
            task_place(rows, task@) == i + task_place(rows.skip(i as int), task@),
        decreases tasks.len() - i,
    {
        proof {
            assert(rows.skip(i as int).skip(1) =~= rows.skip(i + 1));
        }
        i += 1;
    }
    i
}

pub(crate) fn copy_task(task: &TaskRecord) -> (copied: TaskRecord)
    ensures
        copied@ == task@,
{
    TaskRecord {
        id: task.id.clone(),
        title: task.title.clone(),
        status: task.status.clone(),
        details: opt_copy(&task.details),
        parent_task: opt_copy(&task.parent_task),
        created_at: task.created_at.clone(),
        updated_at: task.updated_at.clone(),
        started_at: opt_copy(&task.started_at),
        completed_at: opt_copy(&task.completed_at),
    }
}

pub(crate) fn validate_update(
    id: &str,
    status: &str,
    title: Option<&str>,
    details: Option<&str>,
) -> (result: Result<(), AppError>)
    ensures
        unit_view(result) == match update_refusal(
            id@,
            status@,
            opt_str_view(title),
            opt_str_view(details),
        ) {
            Some(e) => Err(e),
            None => Ok(()),
        },
{
    if let Err(e) = validate_task_id(id) {
        return Err(e);
    }
    if !is_task_status(status) {
        return Err(error("INVALID_INPUT", "invalid task status"));
    }
    if let Some(title) = title {
        if let Err(e) = validate_title(title) {
            return Err(e);
        }
    }
    validate_details(details)
}

pub(crate) fn change_task(
    task: &TaskRecord,
    status: &str,
    title: Option<&str>,
    details: Option<&str>,
    now: &str,
) -> (changed: TaskRecord)
    ensures
        changed@ == updated_task(
            task@,
            status@,
            opt_str_view(title),
            opt_str_view(details),
            now@,
        ),
{
    TaskRecord {
        id: task.id.clone(),
        title: match title {
            Some(text) => text.to_owned(),
            None => task.title.clone(),
        },
        status: status.to_owned(),
        details: match details {
            Some(text) => Some(text.to_owned()),
            None => opt_copy(&task.details),
        },
        parent_task: opt_copy(&task.parent_task),
        created_at: task.created_at.clone(),
        updated_at: now.to_owned(),
        started_at: match &task.started_at {
            Some(at) => Some(at.clone()),
            None => if status.eq("in_progress") {
                Some(now.to_owned())
            } else {
                None
            },
        },
        completed_at: if status.eq("completed") || status.eq("failed") || status.eq("cancelled") {
            Some(now.to_owned())
        } else {
            None
        },
    }
}

fn list_task(task: &TaskRecord) -> (listed: TaskRecord)
    ensures
        listed@ == listed_task(task@),
{
    let mut listed = copy_task(task);
    if byte_len(task.title.as_str()) > TASK_TITLE_MAX_BYTES {
        listed.title = "[oversized legacy title]".to_owned();
    }
    if let Some(text) = &task.details {
        if byte_len(text.as_str()) > TASK_DETAILS_MAX_BYTES {
            listed.details = Some("[oversized legacy details omitted]".to_owned());
        }
    }
    if let Some(text) = &task.parent_task {
        if byte_len(text.as_str()) > TASK_PARENT_MAX_BYTES {
            listed.parent_task = None;
        }
    }
    listed
}

pub(crate) fn list_tasks(tasks: &Vec<TaskRecord>, limit: usize) -> (listed: Vec<TaskRecord>)
    ensures
        tasks_view(listed@) == listed_tasks(tasks_view(tasks@), limit as int),
{
    let shown = if limit < TASK_MAX_ENTRIES {
        limit
    } else {
        TASK_MAX_ENTRIES
    };
    let count = if tasks.len() <= shown {
        tasks.len()
    } else {
        shown
    };
    let mut listed: Vec<TaskRecord> = Vec::new();
    let mut i: usize = 0;
    while i < count
        invariant
            i <= count <= tasks@.len(),
            listed@.len() == i,
            forall|j: int| 0 <= j < i ==> (#[trigger] listed@[j])@ == listed_task(tasks@[j]@),
        decreases count - i,
    {
        listed.push(list_task(&tasks[i]));
        i += 1;
    }
    proof {
        assert(tasks_view(listed@) =~= listed_tasks(tasks_view(tasks@), limit as int));
    }
    listed
}

/// The counts of a summary are those of the tasks.
pub open spec fn summarizes(summary: TaskSummary, tasks: Seq<TaskView>) -> bool {
    &&& summary.pending == status_count(tasks, "pending"@)
    &&& summary.in_progress == status_count(tasks, "in_progress"@)
    &&& summary.completed == status_count(tasks, "completed"@)
    &&& summary.failed == status_count(tasks, "failed"@)
    &&& summary.cancelled == status_count(tasks, "cancelled"@)
    &&& summary.total == tasks.len()
}

pub(crate) fn summarize_tasks(tasks: &Vec<TaskRecord>) -> (summary: TaskSummary)
    ensures
        summarizes(summary, tasks_view(tasks@)),
{
    let ghost rows = tasks_view(tasks@);
    let mut summary = TaskSummary {
        pending: 0,
        in_progress: 0,
        completed: 0,
        failed: 0,
        cancelled: 0,
        total: 0,
    };
    let mut i: usize = 0;
    while i < tasks.len()
        invariant
            i <= tasks@.len(),
            rows == tasks_view(tasks@),
            summarizes(summary, rows.take(i as int)),
            summary.pending <= i,
            summary.in_progress <= i,
            summary.completed <= i,
            summary.failed <= i,
            summary.cancelled <= i,
        decreases tasks.len() - i,
    {
        let status = tasks[i].status.as_str();
        proof {
            assert(rows.take(i + 1).drop_last() =~= rows.take(i as int));
            lemma_statuses_differ();
        }
        summary.total += 1;
        if status.eq("pending") {
            summary.pending += 1;
        } else if status.eq("in_progress") {
            summary.in_progress += 1;
        } else if status.eq("completed") {
            summary.completed += 1;
        } else if status.eq("failed") {
            summary.failed += 1;
        } else if status.eq("cancelled") {
            summary.cancelled += 1;
        }
        i += 1;
    }
    proof {
        assert(rows.take(i as int) =~= rows);
    }
    summary
}

pub proof fn lemma_statuses_differ()
    ensures
        "pending"@ != "in_progress"@,
        "pending"@ != "completed"@,
        "pending"@ != "failed"@,
        "pending"@ != "cancelled"@,
        "in_progress"@ != "completed"@,
        "in_progress"@ != "failed"@,
        "in_progress"@ != "cancelled"@,
        "completed"@ != "failed"@,
        "completed"@ != "cancelled"@,
        "failed"@ != "cancelled"@,
{
    reveal_strlit("pending");
    reveal_strlit("in_progress");
    reveal_strlit("completed");
    reveal_strlit("failed");
    reveal_strlit("cancelled");
    assert("completed"@[1] != "cancelled"@[1]);
    assert("pending"@.len() == 7 && "in_progress"@.len() == 11 && "completed"@.len() == 9
        && "failed"@.len() == 6 && "cancelled"@.len() == 9);
}

}
