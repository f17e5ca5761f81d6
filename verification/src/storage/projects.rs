//! What is read and written for one project.
use vstd::prelude::*;

use crate::error::{error, error_view, AppError, ErrorView};
use crate::storage::notes::{
    archive_refusal, bytes_after_put, drop_note, erase_note, find_note, input_too_large,
    key_refusal, note_index, note_value, notes_view, put_note, resource_limit, set_refusal,
    stored_prefix, take_stored_prefix, validate_archive_value, validate_memory_key, write_note,
    MemoryPage, MemoryRecord, Note, NoteView, PageView, RecordView, MEMORY_ARCHIVE_MAX_ENTRIES,
    MEMORY_ARCHIVE_MAX_TOTAL_BYTES, MEMORY_ARCHIVE_VALUE_MAX_BYTES, MEMORY_KEY_MAX_BYTES,
    MEMORY_MAX_ENTRIES, MEMORY_MAX_TOTAL_BYTES, MEMORY_RECALL_MAX_ENTRIES, MEMORY_VALUE_MAX_BYTES,
};
use crate::storage::plans::{
    decode_plan, encode_plan, items_view, plan_answer, plan_json, plan_json_decodes, plan_of_text,
    plan_refusal, validate_plan, PlanItemRecord, PlanRecord, PlanRow, PlanRowView, PlanView,
    PLAN_STORAGE_MAX_BYTES,
};
use crate::storage::recall::{
    check_hashable, hash_answer, hash_notes, hash_refusal, page_answer, recall, recall_page,
    snapshot_hash, text_answer, unhashable, Shelf,
};
use crate::storage::tasks::{
    add_refusal, add_task, change_task, copy_task, find_task, find_task_place, list_tasks,
    listed_tasks, summarize_tasks, summarizes, task_id_refusal, task_index, tasks_view,
    update_refusal, updated_task, validate_task_id, validate_task_text, validate_update, TaskRecord,
    TaskSummary, TaskView, TASK_MAX_ENTRIES,
};
use crate::storage::{
    empty_project, rows_index, rows_of, ProjectRows, ProjectView, Storage, StorageView,
};
use crate::text::{byte_len, opt_str, opt_str_view, opt_view, utf8_len};

verus! {

proof fn lemma_rows_index(projects: Seq<ProjectRows>, project: Seq<char>)
    ensures
        match rows_index(projects, project) {
            Some(i) => 0 <= i < projects.len() && projects[i].project_key@ == project,
            None => true,
        },
    decreases projects.len(),
{
    if projects.len() > 0 {
        lemma_rows_index(projects.drop_last(), project);
    }
}

/// Where rows stand depends on the keys alone.
proof fn lemma_rows_index_same(a: Seq<ProjectRows>, b: Seq<ProjectRows>, project: Seq<char>)
    requires
        a.len() == b.len(),
        forall|i: int| 0 <= i < a.len() ==> (#[trigger] a[i]).project_key@ == b[i].project_key@,
    ensures
        rows_index(a, project) == rows_index(b, project),
    decreases a.len(),
{
    if a.len() > 0 {
        lemma_rows_index_same(a.drop_last(), b.drop_last(), project);
        assert(a[a.len() - 1].project_key@ == b[b.len() - 1].project_key@);
    }
}

proof fn lemma_rows_index_prefix(projects: Seq<ProjectRows>, n: int, project: Seq<char>)
    requires
        0 <= n <= projects.len(),
        rows_index(projects.take(n), project) is Some,
    ensures
        rows_index(projects, project) == rows_index(projects.take(n), project),
    decreases projects.len() - n,
{
    if n == projects.len() {
        assert(projects.take(n) =~= projects);
    } else {
        assert(projects.take(n + 1).drop_last() =~= projects.take(n));
        lemma_rows_index_prefix(projects, n + 1, project);
    }
}

/// Changing the rows of one project changes what is stored for it, and for no
/// other.
proof fn lemma_rows_changed(
    before: Storage,
    after: Storage,
    i: int,
    project: Seq<char>,
    rows: ProjectView,
)
    requires
        rows_index(before.projects@, project) == Some(i),
        after.aliases == before.aliases,
        after.bindings == before.bindings,
        after.turns == before.turns,
        after.projects@.len() == before.projects@.len(),
        forall|k: int|
            0 <= k < before.projects@.len() && k != i ==> #[trigger] after.projects@[k]
                == before.projects@[k],
        after.projects@[i].project_key == before.projects@[i].project_key,
        after.projects@[i]@ == rows,
    ensures
        after@ == (StorageView { projects: before@.projects.insert(project, rows), ..before@ }),
{
    assert forall|k: Seq<char>| true implies #[trigger] rows_of(after.projects@, k) == if k
        == project {
        rows
    } else {
        rows_of(before.projects@, k)
    } by {
        lemma_rows_index(before.projects@, k);
        lemma_rows_index(before.projects@, project);
        lemma_rows_index_same(after.projects@, before.projects@, k);
    }
    assert(after@.projects =~= before@.projects.insert(project, rows));
}

impl Storage {
    /// The rows of a project, if there are any.
    fn find_rows(&self, project: &str) -> (found: Option<usize>)
        ensures
            match found {
                Some(i) => rows_index(self.projects@, project@) == Some(i as int) && i
                    < self.projects@.len() && self@.projects[project@] == self.projects@[i as int]@,
                None => rows_index(self.projects@, project@) is None && self@.projects[project@]
                    == empty_project(),
            },
    {
        let mut i: usize = 0;
        while i < self.projects.len()
            invariant
                i <= self.projects@.len(),
                rows_index(self.projects@.take(i as int), project@) is None,
            decreases self.projects.len() - i,
        {
            proof {
                assert(self.projects@.take(i + 1).drop_last() =~= self.projects@.take(i as int));
            }
            if self.projects[i].project_key.as_str().eq(project) {
                proof {
                    lemma_rows_index_prefix(self.projects@, i + 1, project@);
                }
                return Some(i);
            }
            i += 1;
        }
        proof {
            assert(self.projects@.take(i as int) =~= self.projects@);
        }
        None
    }

    /// The place of a project's rows, which are made if there are none.
    fn slot(&mut self, project: &str) -> (i: usize)
        ensures
            final(self)@ == old(self)@,
            rows_index(final(self).projects@, project@) == Some(i as int),
            i < final(self).projects@.len(),
            final(self)@.projects[project@] == final(self).projects@[i as int]@,
    {
        if let Some(i) = self.find_rows(project) {
            return i;
        }
        let ghost before = *self;
        let i = self.projects.len();
        self.projects.push(
            ProjectRows {
                project_key: project.to_owned(),
                memories: Vec::new(),
                archive: Vec::new(),
                plan: None,
                tasks: Vec::new(),
            },
        );
        proof {
            let rows = self.projects@[i as int];
            assert(rows@.memories =~= Seq::<NoteView>::empty());
            assert(rows@.archive =~= Seq::<NoteView>::empty());
            assert(rows@.tasks =~= Seq::<TaskView>::empty());
            assert(rows@ == empty_project());
            assert(self.projects@.drop_last() =~= before.projects@);
            assert forall|k: Seq<char>| true implies #[trigger] rows_of(self.projects@, k)
                == rows_of(before.projects@, k) by {
                lemma_rows_index(before.projects@, k);
            }
            assert(self@.projects =~= before@.projects);
        }
        i
    }

    /// Write a note to the active memory.
    pub fn memory_set(&mut self, project: &str, key: &str, value: &str, now: &str) -> (result:
        Result<(), AppError>)
        ensures
            ({
                let rows = old(self)@.projects[project@];
                let note = NoteView { key: key@, value: value@, updated_at: now@ };
                match set_refusal(rows.memories, note) {
                    Some(refused) => result is Err && result->Err_0@ == refused && final(self)@
                        == old(self)@,
                    None => result is Ok && final(self)@ == (StorageView {
                        projects: old(self)@.projects.insert(
                            project@,
                            ProjectView { memories: put_note(rows.memories, note), ..rows },
                        ),
                        ..old(self)@
                    }),
                }
            }),
    {
        if let Err(e) = validate_memory_key(key) {
            return Err(e);
        }
        if byte_len(value) > MEMORY_VALUE_MAX_BYTES {
            return Err(input_too_large("memory value exceeds 65536 bytes"));
        }
        let i = self.slot(project);
        let at = find_note(&self.projects[i].memories, key);
        if at.is_none() && self.projects[i].memories.len() >= MEMORY_MAX_ENTRIES {
            return Err(
                resource_limit(
                    "active project memory is limited to 64 entries; archive durable history with remember scope=archive",
                ),
            );
        }
        if bytes_after_put(&self.projects[i].memories, at, key, value, Ghost(now@))
            > MEMORY_MAX_TOTAL_BYTES {
            return Err(
                resource_limit(
                    "active project memory exceeds the 65536-byte aggregate limit; archive durable history with remember scope=archive",
                ),
            );
        }
        let ghost before = *self;
        let rows = &mut self.projects[i];
        write_note(&mut rows.memories, at, key, value, now);
        proof {
            let ghost changed = self.projects@[i as int]@;
            lemma_rows_changed(before, *self, i as int, project@, changed);
        }
        Ok(())
    }

    /// The keys of the active memory, as many as it may hold.
    pub fn memory_list(&self, project: &str) -> (keys: Vec<String>)
        ensures
            keys@.map_values(|key: String| key@) == listed_keys(
                self@.projects[project@].memories,
            ),
    {
        let mut keys: Vec<String> = Vec::new();
        if let Some(r) = self.find_rows(project) {
            let notes = &self.projects[r].memories;
            let count = if notes.len() <= MEMORY_MAX_ENTRIES {
                notes.len()
            } else {
                MEMORY_MAX_ENTRIES
            };
            let mut i: usize = 0;
            while i < count
                invariant
                    i <= count <= notes@.len(),
                    keys@.len() == i,
                    forall|j: int|
                        0 <= j < i ==> (#[trigger] keys@[j])@ == stored_prefix(
                            notes@[j].key@,
                            MEMORY_KEY_MAX_BYTES + 1,
                        ),
                decreases count - i,
            {
                keys.push(take_stored_prefix(notes[i].key.as_str(), MEMORY_KEY_MAX_BYTES + 1));
                i += 1;
            }
        }
        proof {
            assert(keys@.map_values(|key: String| key@) =~= listed_keys(
                self@.projects[project@].memories,
            ));
        }
        keys
    }

    pub fn memory_count(&self, project: &str) -> (count: usize)
        ensures
            count == self@.projects[project@].memories.len(),
    {
        match self.find_rows(project) {
            Some(i) => self.projects[i].memories.len(),
            None => 0,
        }
    }

    /// The active note with this key.
    pub fn memory_get(&self, project: &str, key: &str) -> (result: Result<Option<String>, AppError>)
        ensures
            note_answer(result) == read_note(
                self@.projects[project@].memories,
                key@,
                Shelf::Active,
            ),
    {
        if let Err(e) = validate_memory_key(key) {
            return Err(e);
        }
        if let Some(r) = self.find_rows(project) {
            let notes = &self.projects[r].memories;
            if let Some(i) = find_note(notes, key) {
                if byte_len(notes[i].value.as_str()) > MEMORY_VALUE_MAX_BYTES {
                    return Err(
                        resource_limit(
                            "stored memory value exceeds the current safe retrieval limit",
                        ),
                    );
                }
                return Ok(Some(notes[i].value.clone()));
            }
        }
        Ok(None)
    }

    /// Take a note out of the active memory; whether there was one.
    pub fn memory_delete(&mut self, project: &str, key: &str) -> (result: Result<bool, AppError>)
        ensures
            ({
                let rows = old(self)@.projects[project@];
                match key_refusal(key@) {
                    Some(refused) => result is Err && result->Err_0@ == refused && final(self)@
                        == old(self)@,
                    None => result is Ok && result->Ok_0 == (note_index(rows.memories, key@)
                        is Some) && final(self)@ == (StorageView {
                        projects: old(self)@.projects.insert(
                            project@,
                            ProjectView { memories: drop_note(rows.memories, key@), ..rows },
                        ),
                        ..old(self)@
                    }),
                }
            }),
    {
        if let Err(e) = validate_memory_key(key) {
            return Err(e);
        }
        let i = self.slot(project);
        let ghost before = *self;
        let rows = &mut self.projects[i];
        let found = erase_note(&mut rows.memories, key);
        proof {
            let ghost changed = self.projects@[i as int]@;
            lemma_rows_changed(before, *self, i as int, project@, changed);
        }
        Ok(found)
    }

    /// The archived note with this key.
    pub fn memory_archive_get(&self, project: &str, key: &str) -> (result: Result<
        Option<String>,
        AppError,
    >)
        ensures
            note_answer(result) == read_note(
                self@.projects[project@].archive,
                key@,
                Shelf::Archive,
            ),
    {
        if let Err(e) = validate_memory_key(key) {
            return Err(e);
        }
        if let Some(r) = self.find_rows(project) {
            let notes = &self.projects[r].archive;
            if let Some(i) = find_note(notes, key) {
                if byte_len(notes[i].value.as_str()) > MEMORY_ARCHIVE_VALUE_MAX_BYTES {
                    return Err(
                        resource_limit(
                            "stored archive memory value exceeds the current safe retrieval limit",
                        ),
                    );
                }
                return Ok(Some(notes[i].value.clone()));
            }
        }
        Ok(None)
    }

    /// Write a note to the archive.
    pub fn memory_archive_set(&mut self, project: &str, key: &str, value: &str, now: &str) -> (result:
        Result<(), AppError>)
        ensures
            ({
                let rows = old(self)@.projects[project@];
                let note = NoteView { key: key@, value: value@, updated_at: now@ };
                match archive_refusal(rows.archive, note) {
                    Some(refused) => result is Err && result->Err_0@ == refused && final(self)@
                        == old(self)@,
                    None => result is Ok && final(self)@ == (StorageView {
                        projects: old(self)@.projects.insert(
                            project@,
                            ProjectView { archive: put_note(rows.archive, note), ..rows },
                        ),
                        ..old(self)@
                    }),
                }
            }),
    {
        if let Err(e) = validate_memory_key(key) {
            return Err(e);
        }
        if let Err(e) = validate_archive_value(value) {
            return Err(e);
        }
        let i = self.slot(project);
        let at = find_note(&self.projects[i].archive, key);
        if at.is_none() && self.projects[i].archive.len() >= MEMORY_ARCHIVE_MAX_ENTRIES {
            return Err(resource_limit("project archive is limited to 4096 entries"));
        }
        if bytes_after_put(&self.projects[i].archive, at, key, value, Ghost(now@))
            > MEMORY_ARCHIVE_MAX_TOTAL_BYTES {
            return Err(
                resource_limit("project archive exceeds the 16777216-byte aggregate limit"),
            );
        }
        let ghost before = *self;
        let rows = &mut self.projects[i];
        write_note(&mut rows.archive, at, key, value, now);
        proof {
            let ghost changed = self.projects@[i as int]@;
            lemma_rows_changed(before, *self, i as int, project@, changed);
        }
        Ok(())
    }

    /// Take a note out of the archive; whether there was one.
    pub fn memory_archive_delete(&mut self, project: &str, key: &str) -> (result: Result<
        bool,
        AppError,
    >)
        ensures
            ({
                let rows = old(self)@.projects[project@];
                match key_refusal(key@) {
                    Some(refused) => result is Err && result->Err_0@ == refused && final(self)@
                        == old(self)@,
                    None => result is Ok && result->Ok_0 == (note_index(rows.archive, key@)
                        is Some) && final(self)@ == (StorageView {
                        projects: old(self)@.projects.insert(
                            project@,
                            ProjectView { archive: drop_note(rows.archive, key@), ..rows },
                        ),
                        ..old(self)@
                    }),
                }
            }),
    {
        if let Err(e) = validate_memory_key(key) {
            return Err(e);
        }
        let i = self.slot(project);
        let ghost before = *self;
        let rows = &mut self.projects[i];
        let found = erase_note(&mut rows.archive, key);
        proof {
            let ghost changed = self.projects@[i as int]@;
            lemma_rows_changed(before, *self, i as int, project@, changed);
        }
        Ok(found)
    }

    /// A page of the archive, in key order. See [`recall`].
    pub fn memory_archive_recall_page_from_snapshot(
        &self,
        project: &str,
        offset: usize,
        requested: usize,
        expected_snapshot_hash: Option<&str>,
    ) -> (result: Result<(MemoryPage, String), AppError>)
        ensures
            page_answer(result) == recall(
                self@.projects[project@].archive,
                offset as nat,
                requested as int,
                opt_str_view(expected_snapshot_hash),
                Shelf::Archive,
            ),
    {
        match self.find_rows(project) {
            Some(i) => recall_page(
                &self.projects[i].archive,
                offset,
                requested,
                expected_snapshot_hash,
                Shelf::Archive,
            ),
            None => recall_page(
                &no_notes(),
                offset,
                requested,
                expected_snapshot_hash,
                Shelf::Archive,
            ),
        }
    }

    /// A page of the active memory, in key order, with a hash of all of it.
    /// Given the hash of the first page, a request for a later one fails if the
    /// memory has changed, and does not repeat or skip notes. See [`recall`].
    pub fn memory_recall_page_from_snapshot(
        &self,
        project: &str,
        offset: usize,
        requested: usize,
        expected_snapshot_hash: Option<&str>,
    ) -> (result: Result<(MemoryPage, String), AppError>)
        ensures
            page_answer(result) == recall(
                self@.projects[project@].memories,
                offset as nat,
                requested as int,
                opt_str_view(expected_snapshot_hash),
                Shelf::Active,
            ),
    {
        match self.find_rows(project) {
            Some(i) => recall_page(
                &self.projects[i].memories,
                offset,
                requested,
                expected_snapshot_hash,
                Shelf::Active,
            ),
            None => recall_page(
                &no_notes(),
                offset,
                requested,
                expected_snapshot_hash,
                Shelf::Active,
            ),
        }
    }

    pub fn memory_recall_page_from(&self, project: &str, offset: usize, requested: usize) -> (result:
        Result<MemoryPage, AppError>)
        ensures
            match (
                result,
                recall(
                    self@.projects[project@].memories,
                    offset as nat,
                    requested as int,
                    None,
                    Shelf::Active,
                ),
            ) {
                (Ok(page), Ok((expected, _))) => page@ == expected,
                (Err(e), Err(expected)) => e@ == expected,
                _ => false,
            },
    {
        match self.memory_recall_page_from_snapshot(project, offset, requested, None) {
            Ok((page, _)) => Ok(page),
            Err(e) => Err(e),
        }
    }

    pub fn memory_recall_page(&self, project: &str) -> (result: Result<MemoryPage, AppError>)
        ensures
            match (
                result,
                recall(
                    self@.projects[project@].memories,
                    0,
                    MEMORY_RECALL_MAX_ENTRIES as int,
                    None,
                    Shelf::Active,
                ),
            ) {
                (Ok(page), Ok((expected, _))) => page@ == expected,
                (Err(e), Err(expected)) => e@ == expected,
                _ => false,
            },
    {
        self.memory_recall_page_from(project, 0, MEMORY_RECALL_MAX_ENTRIES)
    }

    /// A hash of every key and value of the active memory, in key order. How
    /// the memory is paged for show has no part in it.
    pub fn memory_semantic_hash(&self, project: &str) -> (result: Result<String, AppError>)
        ensures
            text_answer(result) == hash_answer(
                self@.projects[project@].memories,
                Shelf::Active,
            ),
    {
        match self.find_rows(project) {
            Some(i) => hash_notes(&self.projects[i].memories, Shelf::Active),
            None => hash_notes(&no_notes(), Shelf::Active),
        }
    }

    /// The whole active memory, its hash and the plan, all of one moment. The
    /// archive has no part in it.
    pub fn project_state_read(&self, project: &str) -> (result: Result<
        (MemoryPage, String, Option<PlanRecord>),
        AppError,
    >)
        ensures
            state_answer(result) == project_state(self@.projects[project@]),
    {
        let none = no_notes();
        let found = self.find_rows(project);
        let notes = match found {
            Some(i) => &self.projects[i].memories,
            None => &none,
        };
        let (page, hash) = match read_state_notes(notes) {
            Ok(read) => read,
            Err(e) => {
                return Err(e);
            },
        };
        match self.plan_get(project) {
            Ok(plan) => Ok((page, hash, plan)),
            Err(e) => Err(e),
        }
    }

    pub fn plan_get(&self, project: &str) -> (result: Result<Option<PlanRecord>, AppError>)
        ensures
            stored_plan_answer(result) == stored_plan(self@.projects[project@].plan),
    {
        if let Some(i) = self.find_rows(project) {
            if let Some(row) = &self.projects[i].plan {
                if byte_len(row.value.as_str()) > PLAN_STORAGE_MAX_BYTES {
                    return Err(
                        resource_limit("stored plan exceeds the current safe retrieval limit"),
                    );
                }
                return match decode_plan(row.value.as_str(), row.updated_at.clone()) {
                    Ok(plan) => Ok(Some(plan)),
                    Err(e) => Err(e),
                };
            }
        }
        Ok(None)
    }

    /// Store a plan under the text it was encoded to.
    pub fn plan_store(&mut self, project: &str, plan: PlanRecord, encoded: String) -> (result: Result<
        PlanRecord,
        AppError,
    >)
        ensures
            if utf8_len(encoded@) > PLAN_STORAGE_MAX_BYTES {
                plan_answer(result) == Err::<PlanView, ErrorView>(
                    error_view("INPUT_TOO_LARGE", "serialized plan exceeds 524288 bytes"),
                ) && final(self)@ == old(self)@
            } else {
                plan_answer(result) == Ok::<PlanView, ErrorView>(plan@) && final(self)@
                    == with_plan(old(self)@, project@, plan@, encoded@)
            },
    {
        if byte_len(encoded.as_str()) > PLAN_STORAGE_MAX_BYTES {
            return Err(input_too_large("serialized plan exceeds 524288 bytes"));
        }
        let i = self.slot(project);
        let ghost before = *self;
        let row = PlanRow { value: encoded, updated_at: plan.updated_at.clone() };
        let rows = &mut self.projects[i];
        rows.plan = Some(row);
        proof {
            let ghost changed = self.projects@[i as int]@;
            lemma_rows_changed(before, *self, i as int, project@, changed);
        }
        Ok(plan)
    }

    /// Make a plan the plan of a project. What is stored is read back as the
    /// plan that was given.
    pub fn plan_set(
        &mut self,
        project: &str,
        explanation: Option<String>,
        items: Vec<PlanItemRecord>,
        now: &str,
    ) -> (result: Result<PlanRecord, AppError>)
        ensures
            (final(self)@, plan_answer(result)) == set_plan(
                old(self)@,
                project@,
                PlanView {
                    explanation: opt_view(explanation),
                    items: items_view(items@),
                    updated_at: now@,
                },
            ),
            result is Ok ==> stored_plan(final(self)@.projects[project@].plan) == Ok::<
                Option<PlanView>,
                ErrorView,
            >(Some(result->Ok_0@)),
    {
        if let Err(e) = validate_plan(opt_str(&explanation), &items) {
            return Err(e);
        }
        let plan = PlanRecord { explanation, items, updated_at: now.to_owned() };
        proof {
            plan_json_decodes(plan@);
        }
        match encode_plan(&plan) {
            Ok(encoded) => self.plan_store(project, plan, encoded),
            Err(e) => Err(e),
        }
    }

    pub fn plan_clear(&mut self, project: &str) -> (found: bool)
        ensures
            ({
                let rows = old(self)@.projects[project@];
                &&& found == (rows.plan is Some)
                &&& final(self)@ == (StorageView {
                    projects: old(self)@.projects.insert(
                        project@,
                        ProjectView { plan: None, ..rows },
                    ),
                    ..old(self)@
                })
            }),
    {
        let i = self.slot(project);
        let ghost before = *self;
        let found = self.projects[i].plan.is_some();
        let rows = &mut self.projects[i];
        rows.plan = None;
        proof {
            let ghost changed = self.projects@[i as int]@;
            lemma_rows_changed(before, *self, i as int, project@, changed);
        }
        found
    }

    pub fn task_list(&self, project: &str) -> (tasks: Vec<TaskRecord>)
        ensures
            tasks_view(tasks@) == listed_tasks(
                self@.projects[project@].tasks,
                TASK_MAX_ENTRIES as int,
            ),
    {
        self.task_list_limited(project, TASK_MAX_ENTRIES)
    }

    pub fn task_list_limited(&self, project: &str, limit: usize) -> (tasks: Vec<TaskRecord>)
        ensures
            tasks_view(tasks@) == listed_tasks(self@.projects[project@].tasks, limit as int),
    {
        match self.find_rows(project) {
            Some(i) => list_tasks(&self.projects[i].tasks, limit),
            None => {
                let none: Vec<TaskRecord> = Vec::new();
                proof {
                    assert(tasks_view(none@) =~= Seq::<TaskView>::empty());
                }
                list_tasks(&none, limit)
            },
        }
    }

    pub fn task_summary(&self, project: &str) -> (summary: TaskSummary)
        ensures
            summarizes(summary, self@.projects[project@].tasks),
    {
        match self.find_rows(project) {
            Some(i) => summarize_tasks(&self.projects[i].tasks),
            None => {
                let none: Vec<TaskRecord> = Vec::new();
                proof {
                    assert(tasks_view(none@) =~= Seq::<TaskView>::empty());
                }
                summarize_tasks(&none)
            },
        }
    }

    pub fn task_add(&mut self, project: &str, task: &TaskRecord) -> (result: Result<(), AppError>)
        ensures
            ({
                let rows = old(self)@.projects[project@];
                match add_refusal(rows.tasks, task@) {
                    Some(refused) => result is Err && result->Err_0@ == refused && final(self)@
                        == old(self)@,
                    None => result is Ok && final(self)@ == (StorageView {
                        projects: old(self)@.projects.insert(
                            project@,
                            ProjectView { tasks: add_task(rows.tasks, task@), ..rows },
                        ),
                        ..old(self)@
                    }),
                }
            }),
    {
        if let Err(e) = validate_task_text(task) {
            return Err(e);
        }
        let i = self.slot(project);
        if self.projects[i].tasks.len() >= TASK_MAX_ENTRIES {
            return Err(resource_limit("project task list is limited to 500 entries"));
        }
        if find_task(&self.projects[i].tasks, task.id.as_str()).is_some() {
            return Err(
                error("STORAGE_ERROR", "UNIQUE constraint failed: tasks.project_key, tasks.id"),
            );
        }
        let ghost before = *self;
        let place = find_task_place(&self.projects[i].tasks, task);
        let copied = copy_task(task);
        let rows = &mut self.projects[i];
        rows.tasks.insert(place, copied);
        proof {
            let ghost changed = self.projects@[i as int]@;
            assert(changed.tasks =~= add_task(before.projects@[i as int]@.tasks, task@));
            lemma_rows_changed(before, *self, i as int, project@, changed);
        }
        Ok(())
    }

    /// Change a task; whether there is one with this id.
    pub fn task_update(
        &mut self,
        project: &str,
        id: &str,
        status: &str,
        title: Option<&str>,
        details: Option<&str>,
        now: &str,
    ) -> (result: Result<bool, AppError>)
        ensures
            ({
                let rows = old(self)@.projects[project@];
                match update_refusal(id@, status@, opt_str_view(title), opt_str_view(details)) {
                    Some(refused) => result is Err && result->Err_0@ == refused && final(self)@
                        == old(self)@,
                    None => match task_index(rows.tasks, id@) {
                        None => result is Ok && !result->Ok_0 && final(self)@ == old(self)@,
                        Some(i) => result is Ok && result->Ok_0 && final(self)@ == (StorageView {
                            projects: old(self)@.projects.insert(
                                project@,
                                ProjectView {
                                    tasks: rows.tasks.update(
                                        i,
                                        updated_task(
                                            rows.tasks[i],
                                            status@,
                                            opt_str_view(title),
                                            opt_str_view(details),
                                            now@,
                                        ),
                                    ),
                                    ..rows
                                },
                            ),
                            ..old(self)@
                        }),
                    },
                }
            }),
    {
        if let Err(e) = validate_update(id, status, title, details) {
            return Err(e);
        }
        let i = self.slot(project);
        match find_task(&self.projects[i].tasks, id) {
            None => Ok(false),
            Some(k) => {
                let ghost before = *self;
                let changed_task = change_task(
                    &self.projects[i].tasks[k],
                    status,
                    title,
                    details,
                    now,
                );
                let ghost shown = changed_task@;
                let rows = &mut self.projects[i];
                rows.tasks.set(k, changed_task);
                proof {
                    let ghost changed = self.projects@[i as int]@;
                    assert(changed.tasks =~= before.projects@[i as int]@.tasks.update(
                        k as int,
                        shown,
                    ));
                    lemma_rows_changed(before, *self, i as int, project@, changed);
                }
                Ok(true)
            },
        }
    }

    /// Take a task out; whether there was one with this id.
    pub fn task_remove(&mut self, project: &str, id: &str) -> (result: Result<bool, AppError>)
        ensures
            ({
                let rows = old(self)@.projects[project@];
                match task_id_refusal(id@) {
                    Some(refused) => result is Err && result->Err_0@ == refused && final(self)@
                        == old(self)@,
                    None => match task_index(rows.tasks, id@) {
                        None => result is Ok && !result->Ok_0 && final(self)@ == old(self)@,
                        Some(i) => result is Ok && result->Ok_0 && final(self)@ == (StorageView {
                            projects: old(self)@.projects.insert(
                                project@,
                                ProjectView { tasks: rows.tasks.remove(i), ..rows },
                            ),
                            ..old(self)@
                        }),
                    },
                }
            }),
    {
        if let Err(e) = validate_task_id(id) {
            return Err(e);
        }
        let i = self.slot(project);
        match find_task(&self.projects[i].tasks, id) {
            None => Ok(false),
            Some(k) => {
                let ghost before = *self;
                let rows = &mut self.projects[i];
                rows.tasks.remove(k);
                proof {
                    let ghost changed = self.projects@[i as int]@;
                    assert(changed.tasks =~= before.projects@[i as int]@.tasks.remove(k as int));
                    lemma_rows_changed(before, *self, i as int, project@, changed);
                }
                Ok(true)
            },
        }
    }
}

fn no_notes() -> (notes: Vec<Note>)
    ensures
        notes_view(notes@) == Seq::<NoteView>::empty(),
{
    let notes: Vec<Note> = Vec::new();
    proof {
        assert(notes_view(notes@) =~= Seq::<NoteView>::empty());
    }
    notes
}

pub open spec fn listed_keys(notes: Seq<NoteView>) -> Seq<Seq<char>> {
    let kept = if notes.len() <= MEMORY_MAX_ENTRIES {
        notes
    } else {
        notes.take(MEMORY_MAX_ENTRIES as int)
    };
    kept.map_values(|note: NoteView| stored_prefix(note.key, MEMORY_KEY_MAX_BYTES + 1))
}

/// The value of a note, where it may be read.
pub open spec fn read_note(notes: Seq<NoteView>, key: Seq<char>, shelf: Shelf) -> Result<
    Option<Seq<char>>,
    ErrorView,
> {
    if key_refusal(key) is Some {
        Err(key_refusal(key)->0)
    } else {
        match note_value(notes, key) {
            None => Ok(None),
            Some(value) => match shelf {
                Shelf::Active => if utf8_len(value) > MEMORY_VALUE_MAX_BYTES {
                    Err(
                        error_view(
                            "RESOURCE_LIMIT_EXCEEDED",
                            "stored memory value exceeds the current safe retrieval limit",
                        ),
                    )
                } else {
                    Ok(Some(value))
                },
                Shelf::Archive => if utf8_len(value) > MEMORY_ARCHIVE_VALUE_MAX_BYTES {
                    Err(
                        error_view(
                            "RESOURCE_LIMIT_EXCEEDED",
                            "stored archive memory value exceeds the current safe retrieval limit",
                        ),
                    )
                } else {
                    Ok(Some(value))
                },
            },
        }
    }
}

pub open spec fn note_answer(result: Result<Option<String>, AppError>) -> Result<
    Option<Seq<char>>,
    ErrorView,
> {
    match result {
        Ok(value) => Ok(opt_view(value)),
        Err(e) => Err(e@),
    }
}

/// What is stored once a plan is.
pub open spec fn with_plan(
    store: StorageView,
    project: Seq<char>,
    plan: PlanView,
    encoded: Seq<char>,
) -> StorageView {
    StorageView {
        projects: store.projects.insert(
            project,
            ProjectView {
                plan: Some(PlanRowView { value: encoded, updated_at: plan.updated_at }),
                ..store.projects[project]
            },
        ),
        ..store
    }
}

/// What making a plan the plan of a project does, and the answer.
pub open spec fn set_plan(store: StorageView, project: Seq<char>, plan: PlanView) -> (
    StorageView,
    Result<PlanView, ErrorView>,
) {
    match plan_refusal(plan.explanation, plan.items) {
        Some(refused) => (store, Err(refused)),
        None => match crate::json::json_text(plan_json(plan)) {
            None => (store, Err(error_view("SERIALIZATION_ERROR", "plan cannot be serialized"))),
            Some(encoded) => if utf8_len(encoded) > PLAN_STORAGE_MAX_BYTES {
                (
                    store,
                    Err(error_view("INPUT_TOO_LARGE", "serialized plan exceeds 524288 bytes")),
                )
            } else {
                (with_plan(store, project, plan, encoded), Ok(plan))
            },
        },
    }
}

/// The plan that is stored.
pub open spec fn stored_plan(row: Option<PlanRowView>) -> Result<Option<PlanView>, ErrorView> {
    match row {
        None => Ok(None),
        Some(row) => if utf8_len(row.value) > PLAN_STORAGE_MAX_BYTES {
            Err(
                error_view(
                    "RESOURCE_LIMIT_EXCEEDED",
                    "stored plan exceeds the current safe retrieval limit",
                ),
            )
        } else {
            match plan_of_text(row.value, row.updated_at) {
                Ok(plan) => Ok(Some(plan)),
                Err(e) => Err(e),
            }
        },
    }
}

pub open spec fn stored_plan_answer(result: Result<Option<PlanRecord>, AppError>) -> Result<
    Option<PlanView>,
    ErrorView,
> {
    match result {
        Ok(Some(plan)) => Ok(Some(plan@)),
        Ok(None) => Ok(None),
        Err(e) => Err(e@),
    }
}

/// Why the active memory is not part of a turn: the first note that cannot be
/// hashed, or with which the notes are too large.
pub open spec fn state_refusal(notes: Seq<NoteView>, used: nat) -> Option<ErrorView>
    decreases notes.len(),
{
    if notes.len() == 0 {
        None
    } else if unhashable(notes[0], Shelf::Active) is Some {
        unhashable(notes[0], Shelf::Active)
    } else {
        let filled = used + crate::storage::notes::note_bytes(notes[0]);
        if filled > MEMORY_MAX_TOTAL_BYTES {
            Some(
                error_view(
                    "RESOURCE_LIMIT_EXCEEDED",
                    "active project memory exceeds its aggregate quota; archive excess notes before turn synchronization",
                ),
            )
        } else {
            state_refusal(notes.skip(1), filled)
        }
    }
}

/// The active memory as part of a turn, and its hash.
pub open spec fn state_notes(notes: Seq<NoteView>) -> Result<(PageView, Seq<char>), ErrorView> {
    if notes.len() > MEMORY_MAX_ENTRIES {
        Err(
            error_view(
                "RESOURCE_LIMIT_EXCEEDED",
                "active project memory exceeds its entry quota; archive excess notes before turn synchronization",
            ),
        )
    } else {
        match state_refusal(notes, 0) {
            Some(refused) => Err(refused),
            None => Ok(
                (
                    PageView {
                        notes: notes.map_values(
                            |note: NoteView| RecordView { key: note.key, value: note.value },
                        ),
                        total: notes.len(),
                        offset: 0,
                        truncated: false,
                        next_offset: None,
                    },
                    snapshot_hash(notes, Shelf::Active),
                ),
            ),
        }
    }
}

pub open spec fn project_state(rows: ProjectView) -> Result<
    (PageView, Seq<char>, Option<PlanView>),
    ErrorView,
> {
    match state_notes(rows.memories) {
        Err(e) => Err(e),
        Ok((page, hash)) => match stored_plan(rows.plan) {
            Err(e) => Err(e),
            Ok(plan) => Ok((page, hash, plan)),
        },
    }
}

pub open spec fn state_answer(
    result: Result<(MemoryPage, String, Option<PlanRecord>), AppError>,
) -> Result<(PageView, Seq<char>, Option<PlanView>), ErrorView> {
    match result {
        Ok((page, hash, Some(plan))) => Ok((page@, hash@, Some(plan@))),
        Ok((page, hash, None)) => Ok((page@, hash@, None)),
        Err(e) => Err(e@),
    }
}

fn read_state_notes(notes: &Vec<Note>) -> (result: Result<(MemoryPage, String), AppError>)
    ensures
        page_answer(result) == state_notes(notes_view(notes@)),
{
    let ghost rows = notes_view(notes@);
    if notes.len() > MEMORY_MAX_ENTRIES {
        return Err(
            resource_limit(
                "active project memory exceeds its entry quota; archive excess notes before turn synchronization",
            ),
        );
    }
    let mut shown: Vec<MemoryRecord> = Vec::new();
    let mut used: usize = 0;
    let mut i: usize = 0;
    proof {
        assert(rows.skip(0) =~= rows);
    }
    while i < notes.len()
        invariant
            i <= notes@.len() <= MEMORY_MAX_ENTRIES,
            rows == notes_view(notes@),
            used <= MEMORY_MAX_TOTAL_BYTES,
            state_refusal(rows, 0) == state_refusal(rows.skip(i as int), used as nat),
            shown@.len() == i,
            forall|j: int|
                0 <= j < i ==> (#[trigger] shown@[j])@ == (RecordView {
                    key: rows[j].key,
                    value: rows[j].value,
                }),
        decreases notes.len() - i,
    {
        let note = &notes[i];
        if let Err(e) = check_hashable(note, Shelf::Active) {
            return Err(e);
        }
        proof {
            assert(rows.skip(i as int).skip(1) =~= rows.skip(i + 1));
        }
        used = used.saturating_add(byte_len(note.key.as_str())).saturating_add(
            byte_len(note.value.as_str()),
        );
        if used > MEMORY_MAX_TOTAL_BYTES {
            return Err(
                resource_limit(
                    "active project memory exceeds its aggregate quota; archive excess notes before turn synchronization",
                ),
            );
        }
        shown.push(MemoryRecord { key: note.key.clone(), value: note.value.clone() });
        i += 1;
    }
    proof {
        lemma_state_is_hashable(rows, 0);
    }
    let page = MemoryPage {
        notes: shown,
        total: notes.len(),
        offset: 0,
        truncated: false,
        next_offset: None,
    };
    proof {
        assert(page@.notes =~= rows.map_values(
            |note: NoteView| RecordView { key: note.key, value: note.value },
        ));
    }
    match hash_notes(notes, Shelf::Active) {
        Ok(hash) => Ok((page, hash)),
        Err(e) => Err(e),
    }
}

proof fn lemma_state_is_hashable(notes: Seq<NoteView>, used: nat)
    requires
        state_refusal(notes, used) is None,
    ensures
        hash_refusal(notes, Shelf::Active) is None,
    decreases notes.len(),
{
    if notes.len() > 0 {
        lemma_state_is_hashable(
            notes.skip(1),
            used + crate::storage::notes::note_bytes(notes[0]),
        );
    }
}

}
