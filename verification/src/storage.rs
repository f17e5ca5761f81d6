//! What is stored for the projects: who uses which project, turn history,
//! notes, plans and tasks, and the rules by which each may change.
//!
//! Every operation is a transaction: what it refuses changes nothing.
use vstd::prelude::*;

use crate::storage::notes::{notes_view, Note, NoteView};
use crate::storage::plans::{PlanRow, PlanRowView};
use crate::storage::tasks::{tasks_view, TaskRecord, TaskView};

pub mod migration;
pub mod note_laws;
pub mod notes;
pub mod plan_laws;
pub mod plans;
pub mod projects;
pub mod recall;
pub mod recall_laws;
pub mod schema;
pub mod task_laws;
pub mod tasks;
pub mod turn_laws;
pub mod turns;

verus! {

/// A name under which conversations can join a project. Two names that differ
/// only in the case of ASCII letters are the same name.
pub struct AliasRow {
    pub alias: String,
    pub effective_key: String,
}

/// The project that a conversation works in.
pub struct BindingRow {
    pub native_key: String,
    pub effective_key: String,
}

/// One turn of a conversation.
pub struct TurnRow {
    pub turn_ref: String,
    pub native_key: String,
    pub effective_key: String,
    pub subject_key: String,
    pub parent_turn_ref: Option<String>,
    pub instruction_hash: String,
    pub state_hash: String,
    pub brief_snapshot: Option<String>,
    pub state_snapshot: Option<String>,
    pub created_at: String,
}

pub struct AliasView {
    pub alias: Seq<char>,
    pub effective_key: Seq<char>,
}

pub struct BindingView {
    pub native_key: Seq<char>,
    pub effective_key: Seq<char>,
}

pub struct TurnView {
    pub turn_ref: Seq<char>,
    pub native_key: Seq<char>,
    pub effective_key: Seq<char>,
    pub subject_key: Seq<char>,
    pub parent_turn_ref: Option<Seq<char>>,
    pub instruction_hash: Seq<char>,
    pub state_hash: Seq<char>,
    pub brief_snapshot: Option<Seq<char>>,
    pub state_snapshot: Option<Seq<char>>,
    pub created_at: Seq<char>,
}

impl View for AliasRow {
    type V = AliasView;

    open spec fn view(&self) -> AliasView {
        AliasView { alias: self.alias@, effective_key: self.effective_key@ }
    }
}

impl View for BindingRow {
    type V = BindingView;

    open spec fn view(&self) -> BindingView {
        BindingView { native_key: self.native_key@, effective_key: self.effective_key@ }
    }
}

impl View for TurnRow {
    type V = TurnView;

    open spec fn view(&self) -> TurnView {
        TurnView {
            turn_ref: self.turn_ref@,
            native_key: self.native_key@,
            effective_key: self.effective_key@,
            subject_key: self.subject_key@,
            parent_turn_ref: crate::text::opt_view(self.parent_turn_ref),
            instruction_hash: self.instruction_hash@,
            state_hash: self.state_hash@,
            brief_snapshot: crate::text::opt_view(self.brief_snapshot),
            state_snapshot: crate::text::opt_view(self.state_snapshot),
            created_at: self.created_at@,
        }
    }
}

/// The rows of one project.
pub struct ProjectRows {
    pub project_key: String,
    pub memories: Vec<Note>,
    pub archive: Vec<Note>,
    pub plan: Option<PlanRow>,
    pub tasks: Vec<TaskRecord>,
}

pub struct ProjectView {
    pub memories: Seq<NoteView>,
    pub archive: Seq<NoteView>,
    pub plan: Option<PlanRowView>,
    pub tasks: Seq<TaskView>,
}

impl View for ProjectRows {
    type V = ProjectView;

    open spec fn view(&self) -> ProjectView {
        ProjectView {
            memories: notes_view(self.memories@),
            archive: notes_view(self.archive@),
            plan: match self.plan {
                Some(row) => Some(row@),
                None => None,
            },
            tasks: tasks_view(self.tasks@),
        }
    }
}

/// A project for which nothing is stored.
pub open spec fn empty_project() -> ProjectView {
    ProjectView {
        memories: Seq::empty(),
        archive: Seq::empty(),
        plan: None,
        tasks: Seq::empty(),
    }
}

/// Where the rows of a project stand.
pub open spec fn rows_index(projects: Seq<ProjectRows>, project: Seq<char>) -> Option<int>
    decreases projects.len(),
{
    if projects.len() == 0 {
        None
    } else {
        match rows_index(projects.drop_last(), project) {
            Some(i) => Some(i),
            None => if projects.last().project_key@ == project {
                Some(projects.len() - 1)
            } else {
                None
            },
        }
    }
}

pub open spec fn rows_of(projects: Seq<ProjectRows>, project: Seq<char>) -> ProjectView {
    match rows_index(projects, project) {
        Some(i) => projects[i]@,
        None => empty_project(),
    }
}

/// The stored rows. Turns stand in the order in which they were added.
pub struct Storage {
    pub aliases: Vec<AliasRow>,
    pub bindings: Vec<BindingRow>,
    pub turns: Vec<TurnRow>,
    pub projects: Vec<ProjectRows>,
}

/// What is stored; for every project key, what is stored for that project.
pub struct StorageView {
    pub aliases: Seq<AliasView>,
    pub bindings: Seq<BindingView>,
    pub turns: Seq<TurnView>,
    pub projects: Map<Seq<char>, ProjectView>,
}

impl View for Storage {
    type V = StorageView;

    open spec fn view(&self) -> StorageView {
        StorageView {
            aliases: self.aliases@.map_values(|row: AliasRow| row@),
            bindings: self.bindings@.map_values(|row: BindingRow| row@),
            turns: self.turns@.map_values(|row: TurnRow| row@),
            projects: Map::total(|project: Seq<char>| rows_of(self.projects@, project)),
        }
    }
}

/// What is stored before anything was.
pub open spec fn empty_storage() -> StorageView {
    StorageView {
        aliases: Seq::empty(),
        bindings: Seq::empty(),
        turns: Seq::empty(),
        projects: Map::total(|project: Seq<char>| empty_project()),
    }
}

impl Storage {
    pub fn new() -> (storage: Storage)
        ensures
            storage@ == empty_storage(),
    {
        let storage = Storage {
            aliases: Vec::new(),
            bindings: Vec::new(),
            turns: Vec::new(),
            projects: Vec::new(),
        };
        proof {
            assert(storage@.aliases =~= Seq::<AliasView>::empty());
            assert(storage@.bindings =~= Seq::<BindingView>::empty());
            assert(storage@.turns =~= Seq::<TurnView>::empty());
            assert(storage@.projects =~= empty_storage().projects);
        }
        storage
    }
}

}
