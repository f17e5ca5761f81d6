//! What always holds of tasks.
use vstd::prelude::*;

use crate::storage::tasks::{
    add_refusal, add_task, finished_status, listed_tasks, status_count, summarizes, task_before,
    task_id_refusal, task_index, task_place, update_refusal, updated_task, TaskSummary, TaskView,
    TASK_MAX_ENTRIES,
};
use crate::text::{blank, lemma_less_total, lemma_less_transitive, text_less, utf8_len};

verus! {

/// In the order of creation, ids distinct, and no more than may be stored.
pub open spec fn tasks_valid(tasks: Seq<TaskView>) -> bool {
    &&& tasks.len() <= TASK_MAX_ENTRIES
    &&& forall|i: int, j: int|
        0 <= i < j < tasks.len() ==> task_before(#[trigger] tasks[i], #[trigger] tasks[j])
            && tasks[i].id != tasks[j].id
}

proof fn lemma_task_index(tasks: Seq<TaskView>, id: Seq<char>)
    ensures
        match task_index(tasks, id) {
            Some(i) => 0 <= i < tasks.len() && tasks[i].id == id && forall|j: int|
                0 <= j < i ==> (#[trigger] tasks[j]).id != id,
            None => forall|j: int| 0 <= j < tasks.len() ==> (#[trigger] tasks[j]).id != id,
        },
    decreases tasks.len(),
{
    if tasks.len() > 0 {
        let rest = tasks.drop_last();
        lemma_task_index(rest, id);
        assert forall|j: int| 0 <= j < rest.len() implies #[trigger] tasks[j] == rest[j] by {}
    }
}

proof fn lemma_task_place(tasks: Seq<TaskView>, task: TaskView)
    ensures
        0 <= task_place(tasks, task) <= tasks.len(),
        forall|j: int|
            0 <= j < task_place(tasks, task) ==> task_before(#[trigger] tasks[j], task),
        task_place(tasks, task) < tasks.len() ==> !task_before(
            tasks[task_place(tasks, task)],
            task,
        ),
    decreases tasks.len(),
{
    if tasks.len() > 0 && task_before(tasks[0], task) {
        let rest = tasks.skip(1);
        lemma_task_place(rest, task);
        assert forall|j: int| 0 <= j < task_place(tasks, task) implies task_before(
            #[trigger] tasks[j],
            task,
        ) by {
            if j > 0 {
                assert(rest[j - 1] == tasks[j]);
            }
        }
    }
}

proof fn lemma_before_transitive(a: TaskView, b: TaskView, c: TaskView)
    requires
        task_before(a, b),
        task_before(b, c),
    ensures
        task_before(a, c),
{
    if text_less(a.created_at, b.created_at) && text_less(b.created_at, c.created_at) {
        lemma_less_transitive(a.created_at, b.created_at, c.created_at);
    } else if a.created_at == b.created_at && b.created_at == c.created_at {
        lemma_less_transitive(a.id, b.id, c.id);
    }
}

/// A task that is added is found under its id, every other task where it was,
/// and the tasks stay in order, distinct and within their limit.
pub proof fn added_task_is_found(tasks: Seq<TaskView>, task: TaskView, other: Seq<char>)
    requires
        tasks_valid(tasks),
        add_refusal(tasks, task) is None,
    ensures
        tasks_valid(add_task(tasks, task)),
        task_at(add_task(tasks, task), task.id) == Some(task),
        other != task.id ==> task_at(add_task(tasks, task), other) == task_at(tasks, other),
{
    let after = add_task(tasks, task);
    let p = task_place(tasks, task);
    lemma_task_place(tasks, task);
    lemma_task_index(tasks, task.id);
    assert forall|i: int, j: int| 0 <= i < j < after.len() implies task_before(
        #[trigger] after[i],
        #[trigger] after[j],
    ) && after[i].id != after[j].id by {
        if j == p {
            assert(after[i] == tasks[i]);
        } else if i == p {
            assert(after[j] == tasks[j - 1]);
            lemma_less_total(task.created_at, tasks[p].created_at);
            lemma_less_total(task.id, tasks[p].id);
            assert(tasks[p].id != task.id);
            assert(task_before(task, tasks[p]));
            if j - 1 > p {
                lemma_before_transitive(task, tasks[p], tasks[j - 1]);
            }
        } else {
            let x = if i < p {
                i
            } else {
                i - 1
            };
            let y = if j < p {
                j
            } else {
                j - 1
            };
            assert(after[i] == tasks[x] && after[j] == tasks[y]);
        }
    }
    lemma_task_index(after, task.id);
    assert(after[p] == task);
    let found = task_index(after, task.id)->0;
    if found < p {
        assert(after[found] == tasks[found]);
    }
    lemma_task_index(tasks, other);
    lemma_task_index(after, other);
    if other != task.id {
        if let Some(q) = task_index(tasks, other) {
            let moved = if q < p {
                q
            } else {
                q + 1
            };
            assert(after[moved] == tasks[q]);
            let r = task_index(after, other)->0;
            if r < moved {
                assert(after[r].id != after[moved].id);
            }
        }
        if let Some(r) = task_index(after, other) {
            if r < p {
                assert(after[r] == tasks[r]);
            } else {
                assert(r != p);
                assert(after[r] == tasks[r - 1]);
            }
        }
    }
}

/// The task with this id.
pub open spec fn task_at(tasks: Seq<TaskView>, id: Seq<char>) -> Option<TaskView> {
    match task_index(tasks, id) {
        Some(i) => Some(tasks[i]),
        None => None,
    }
}

/// A change of a task leaves it in its place and its id, parent and time of
/// creation as they are; the tasks stay in order.
pub proof fn changed_task_keeps_its_place(
    tasks: Seq<TaskView>,
    i: int,
    status: Seq<char>,
    title: Option<Seq<char>>,
    details: Option<Seq<char>>,
    now: Seq<char>,
)
    requires
        tasks_valid(tasks),
        0 <= i < tasks.len(),
    ensures
        tasks_valid(tasks.update(i, updated_task(tasks[i], status, title, details, now))),
        updated_task(tasks[i], status, title, details, now).parent_task == tasks[i].parent_task,
        tasks[i].started_at is Some ==> updated_task(
            tasks[i],
            status,
            title,
            details,
            now,
        ).started_at == tasks[i].started_at,
        (updated_task(tasks[i], status, title, details, now).completed_at is Some)
            == finished_status(status),
{
}

/// Taking a task out keeps the others in order.
pub proof fn removed_task_leaves_the_rest(tasks: Seq<TaskView>, i: int)
    requires
        tasks_valid(tasks),
        0 <= i < tasks.len(),
    ensures
        tasks_valid(tasks.remove(i)),
        task_index(tasks.remove(i), tasks[i].id) is None,
{
    let after = tasks.remove(i);
    assert forall|a: int, b: int| 0 <= a < b < after.len() implies task_before(
        #[trigger] after[a],
        #[trigger] after[b],
    ) && after[a].id != after[b].id by {
        let x = if a < i {
            a
        } else {
            a + 1
        };
        let y = if b < i {
            b
        } else {
            b + 1
        };
        assert(after[a] == tasks[x] && after[b] == tasks[y]);
    }
    lemma_task_index(after, tasks[i].id);
    if let Some(r) = task_index(after, tasks[i].id) {
        let x = if r < i {
            r
        } else {
            r + 1
        };
        assert(after[r] == tasks[x]);
        if x < i {
            assert(tasks[x].id != tasks[i].id);
        } else {
            assert(tasks[i].id != tasks[x].id);
        }
    }
}

/// Where every status is one of the five, the counts of a summary add up to the
/// number of tasks.
pub proof fn summary_adds_up(tasks: Seq<TaskView>)
    requires
        forall|i: int|
            0 <= i < tasks.len() ==> crate::storage::tasks::task_status(
                (#[trigger] tasks[i]).status,
            ),
    ensures
        status_count(tasks, "pending"@) + status_count(tasks, "in_progress"@) + status_count(
            tasks,
            "completed"@,
        ) + status_count(tasks, "failed"@) + status_count(tasks, "cancelled"@) == tasks.len(),
    decreases tasks.len(),
{
    if tasks.len() > 0 {
        let rest = tasks.drop_last();
        assert forall|i: int| 0 <= i < rest.len() implies crate::storage::tasks::task_status(
            (#[trigger] rest[i]).status,
        ) by {
            assert(rest[i] == tasks[i]);
        }
        summary_adds_up(rest);
        crate::storage::tasks::lemma_statuses_differ();
        assert(crate::storage::tasks::task_status(tasks[tasks.len() - 1].status));
    }
}

/// After an accepted change the task is listed with the status that was asked
/// for, and with the title and the details that were given or, where none were,
/// those it had. It starts when it is first in progress, and it is over since
/// the change where its status says that it is over. Every other task is listed
/// as before.
pub proof fn change_keeps_what_is_not_given(
    tasks: Seq<TaskView>,
    i: int,
    status: Seq<char>,
    title: Option<Seq<char>>,
    details: Option<Seq<char>>,
    now: Seq<char>,
)
    requires
        0 <= i < tasks.len() <= 500,
        utf8_len(tasks[i].title) <= 512,
        tasks[i].details is Some ==> utf8_len(tasks[i].details->0) <= 16_384,
        tasks[i].parent_task is Some ==> utf8_len(tasks[i].parent_task->0) <= 256,
        update_refusal(tasks[i].id, status, title, details) is None,
    ensures
        ({
            let old_task = tasks[i];
            let before = listed_tasks(tasks, 500);
            let after = listed_tasks(
                tasks.update(i, updated_task(tasks[i], status, title, details, now)),
                500,
            );
            let task = after[i];
            &&& after.len() == tasks.len()
            &&& task.id == old_task.id
            &&& task.parent_task == old_task.parent_task
            &&& task.created_at == old_task.created_at
            &&& task.updated_at == now
            &&& task.status == status
            &&& title is Some ==> task.title == title->0
            &&& title is None ==> task.title == old_task.title
            &&& details is Some ==> task.details == details
            &&& details is None ==> task.details == old_task.details
            &&& old_task.started_at is Some ==> task.started_at == old_task.started_at
            &&& old_task.started_at is None && status == "in_progress"@ ==> task.started_at == Some(
                now,
            )
            &&& old_task.started_at is None && status != "in_progress"@ ==> task.started_at is None
            &&& (status == "completed"@ || status == "failed"@ || status == "cancelled"@)
                ==> task.completed_at == Some(now)
            &&& (status == "pending"@ || status == "in_progress"@) ==> task.completed_at is None
            &&& forall|j: int|
                0 <= j < tasks.len() && j != i ==> #[trigger] after[j] == before[j]
        }),
{
    crate::storage::tasks::lemma_statuses_differ();
}

/// A stored task is listed as it is: id, texts, status and times.
pub proof fn stored_tasks_are_listed(tasks: Seq<TaskView>, limit: int, i: int)
    requires
        0 <= limit,
        0 <= i < tasks.len() <= 500,
        utf8_len(tasks[i].title) <= 512,
        tasks[i].details is Some ==> utf8_len(tasks[i].details->0) <= 16_384,
        tasks[i].parent_task is Some ==> utf8_len(tasks[i].parent_task->0) <= 256,
    ensures
        listed_tasks(tasks, limit).len() == if limit < tasks.len() {
            limit
        } else {
            tasks.len() as int
        },
        i < limit ==> listed_tasks(tasks, limit)[i] == tasks[i],
{
}

/// A task is taken exactly if it says one of the five statuses, has an id, a
/// title with something in it, texts within their limits, no id that another
/// task has, and fewer than five hundred tasks beside it.
pub proof fn acceptable_task_is_added(tasks: Seq<TaskView>, task: TaskView)
    ensures
        (add_refusal(tasks, task) is None) == {
            &&& task.status == "pending"@ || task.status == "in_progress"@ || task.status
                == "completed"@ || task.status == "failed"@ || task.status == "cancelled"@
            &&& task.id.len() > 0
            &&& utf8_len(task.id) <= 256
            &&& !blank(task.title)
            &&& utf8_len(task.title) <= 512
            &&& task.details is Some ==> utf8_len(task.details->0) <= 16_384
            &&& task.parent_task is Some ==> utf8_len(task.parent_task->0) <= 256
            &&& tasks.len() < 500
            &&& forall|j: int| 0 <= j < tasks.len() ==> (#[trigger] tasks[j]).id != task.id
        },
{
    lemma_task_index(tasks, task.id);
}

/// A change is taken exactly if the id could be that of a task, the status is
/// one of the five, and what is given of title and details could be stored.
pub proof fn acceptable_change_is_taken(
    id: Seq<char>,
    status: Seq<char>,
    title: Option<Seq<char>>,
    details: Option<Seq<char>>,
)
    ensures
        (update_refusal(id, status, title, details) is None) == {
            &&& id.len() > 0
            &&& utf8_len(id) <= 256
            &&& status == "pending"@ || status == "in_progress"@ || status == "completed"@ || status
                == "failed"@ || status == "cancelled"@
            &&& title is Some ==> !blank(title->0) && utf8_len(title->0) <= 512
            &&& details is Some ==> utf8_len(details->0) <= 16_384
        },
        (task_id_refusal(id) is None) == (0 < id.len() && utf8_len(id) <= 256),
{
}

/// A task is found by its id, and by no other.
pub proof fn task_is_found_by_its_id(tasks: Seq<TaskView>, i: int, id: Seq<char>)
    requires
        tasks_valid(tasks),
        0 <= i < tasks.len(),
    ensures
        task_index(tasks, tasks[i].id) == Some(i),
        task_index(tasks, id) == Some(i) ==> tasks[i].id == id,
{
    lemma_task_index(tasks, tasks[i].id);
    lemma_task_index(tasks, id);
    let r = task_index(tasks, tasks[i].id)->0;
    if r < i {
        assert(tasks[r].id != tasks[i].id);
    } else if i < r {
        assert(tasks[i].id != tasks[r].id);
    }
}

/// A count of a summary is the number of the tasks that have the status.
pub proof fn count_is_of_that_status(tasks: Seq<TaskView>, status: Seq<char>)
    ensures
        status_count(tasks, status) == tasks.filter(|task: TaskView| task.status == status).len(),
        status_count(tasks, status) == tasks.len() <==> forall|i: int|
            0 <= i < tasks.len() ==> (#[trigger] tasks[i]).status == status,
        status_count(tasks, status) == 0 <==> forall|i: int|
            0 <= i < tasks.len() ==> (#[trigger] tasks[i]).status != status,
    decreases tasks.len(),
{
    reveal(Seq::filter);
    if tasks.len() > 0 {
        let rest = tasks.drop_last();
        count_is_of_that_status(rest, status);
        assert forall|i: int| 0 <= i < rest.len() implies #[trigger] tasks[i] == rest[i] by {}
        assert forall|i: int| 0 <= i < rest.len() implies #[trigger] rest[i] == tasks[i] by {}
        lemma_count_within(rest, status);
    }
}

proof fn lemma_count_within(tasks: Seq<TaskView>, status: Seq<char>)
    ensures
        status_count(tasks, status) <= tasks.len(),
    decreases tasks.len(),
{
    if tasks.len() > 0 {
        lemma_count_within(tasks.drop_last(), status);
    }
}

/// Texts over their limits, which only an older version can have stored, are not listed:
/// title and details are said to be too long, and a parent is left out.
pub proof fn oversized_texts_are_not_listed(tasks: Seq<TaskView>, i: int)
    requires
        0 <= i < tasks.len() <= 500,
    ensures
        ({
            let task = listed_tasks(tasks, 500)[i];
            &&& task.id == tasks[i].id && task.status == tasks[i].status
            &&& task.created_at == tasks[i].created_at && task.updated_at == tasks[i].updated_at
            &&& task.started_at == tasks[i].started_at && task.completed_at
                == tasks[i].completed_at
            &&& utf8_len(tasks[i].title) > 512 ==> task.title == "[oversized legacy title]"@
            &&& tasks[i].details is Some && utf8_len(tasks[i].details->0) > 16_384 ==> task.details
                == Some("[oversized legacy details omitted]"@)
            &&& tasks[i].parent_task is Some && utf8_len(tasks[i].parent_task->0) > 256
                ==> task.parent_task is None
        }),
{
}

/// An added task stands where its time puts it: behind every task that was created before
/// it, and before every other. No task is changed.
pub proof fn added_task_stands_by_its_time(tasks: Seq<TaskView>, task: TaskView)
    requires
        tasks_valid(tasks),
        add_refusal(tasks, task) is None,
    ensures
        ({
            let after = add_task(tasks, task);
            exists|at: int|
                {
                    &&& 0 <= at < after.len() == tasks.len() + 1
                    &&& #[trigger] after[at] == task
                    &&& forall|i: int|
                        0 <= i < at ==> #[trigger] after[i] == tasks[i] && (text_less(
                            tasks[i].created_at,
                            task.created_at,
                        ) || (tasks[i].created_at == task.created_at && text_less(
                            tasks[i].id,
                            task.id,
                        )))
                    &&& forall|i: int|
                        at < i < after.len() ==> #[trigger] after[i] == tasks[i - 1]
                            && !text_less(tasks[i - 1].created_at, task.created_at)
                }
        }),
{
    let after = add_task(tasks, task);
    let at = task_place(tasks, task);
    lemma_task_place(tasks, task);
    assert(after[at] == task);
    assert forall|i: int| at < i < after.len() implies #[trigger] after[i] == tasks[i - 1]
        && !text_less(tasks[i - 1].created_at, task.created_at) by {
        assert(after[i] == tasks[i - 1]);
        assert(!task_before(tasks[at], task));
        if text_less(tasks[i - 1].created_at, task.created_at) {
            if i - 1 > at {
                assert(task_before(tasks[at], tasks[i - 1]));
                if text_less(tasks[at].created_at, tasks[i - 1].created_at) {
                    lemma_less_transitive(
                        tasks[at].created_at,
                        tasks[i - 1].created_at,
                        task.created_at,
                    );
                }
            }
        }
    }
}

/// The stored task after a change, whatever it was before: what is given, and of the rest
/// what it had.
pub proof fn changed_task_has_what_is_given(
    task: TaskView,
    status: Seq<char>,
    title: Option<Seq<char>>,
    details: Option<Seq<char>>,
    now: Seq<char>,
)
    ensures
        ({
            let after = updated_task(task, status, title, details, now);
            &&& after.status == status
            &&& title is Some ==> after.title == title->0
            &&& title is None ==> after.title == task.title
            &&& details is Some ==> after.details == details
            &&& details is None ==> after.details == task.details
            &&& after.id == task.id
            &&& after.parent_task == task.parent_task
            &&& after.created_at == task.created_at
            &&& after.updated_at == now
        }),
{
}

/// A summary counts the tasks of each status, and all of them.
pub proof fn summary_counts_the_tasks(summary: TaskSummary, tasks: Seq<TaskView>)
    requires
        summarizes(summary, tasks),
    ensures
        summary.total == tasks.len(),
        summary.pending == tasks.filter(|task: TaskView| task.status == "pending"@).len(),
        summary.in_progress == tasks.filter(|task: TaskView| task.status == "in_progress"@).len(),
        summary.completed == tasks.filter(|task: TaskView| task.status == "completed"@).len(),
        summary.failed == tasks.filter(|task: TaskView| task.status == "failed"@).len(),
        summary.cancelled == tasks.filter(|task: TaskView| task.status == "cancelled"@).len(),
{
    count_is_of_that_status(tasks, "pending"@);
    count_is_of_that_status(tasks, "in_progress"@);
    count_is_of_that_status(tasks, "completed"@);
    count_is_of_that_status(tasks, "failed"@);
    count_is_of_that_status(tasks, "cancelled"@);
}

}
