//! The directories of a project.
use vstd::prelude::*;

use crate::error::{error, error_view, AppError, ErrorView};
use crate::project::{join_path, joined_path, ContextView, ProjectContext};
use crate::search::texts;
use crate::text::join3;

verus! {

/// The directories below the metadata of a project.
pub open spec fn metadata_directories() -> Seq<Seq<char>> {
    seq!["memory"@, "plans"@, "tmp"@, "home"@, "state"@]
}

/// The directories of a project, each after the one that it stands in.
pub open spec fn layout_paths(project: ContextView, separator: char) -> Seq<Seq<char>> {
    seq![project.project_root, project.metadata_root] + metadata_directories().map_values(
        |name: Seq<char>| joined_path(project.metadata_root, name, separator),
    )
}

/// What stands at the path of a directory.
#[derive(Clone, Copy, PartialEq, Eq, Structural)]
pub enum PathState {
    Absent,
    Directory,
    Other,
}

/// Why a path of the layout cannot be used.
pub open spec fn layout_error(index: int, path: Seq<char>) -> ErrorView {
    if index == 0 {
        error_view(
            "INVALID_PROJECT_ALIAS",
            "project checkout path exists but is not a directory",
        )
    } else if index == 1 {
        error_view("PROCESS_FAILED", "project metadata path exists but is not a directory")
    } else {
        ErrorView {
            code: "PROCESS_FAILED"@,
            message: "project metadata entry "@ + path + " is not a directory"@,
        }
    }
}

/// The directories of a project, in the order in which they are made.
pub fn project_layout(project: &ProjectContext, separator: char) -> (paths: Vec<String>)
    ensures
        texts(paths@) == layout_paths(project@, separator),
{
    let mut paths: Vec<String> = Vec::new();
    let metadata = project.metadata_root.as_str();
    paths.push(project.project_root.clone());
    paths.push(project.metadata_root.clone());
    paths.push(join_path(metadata, "memory", separator));
    paths.push(join_path(metadata, "plans", separator));
    paths.push(join_path(metadata, "tmp", separator));
    paths.push(join_path(metadata, "home", separator));
    paths.push(join_path(metadata, "state", separator));
    proof {
        assert(texts(paths@) =~= layout_paths(project@, separator));
    }
    paths
}

/// Whether the directory at a path of the layout has to be made.
pub fn layout_step(index: usize, path: &str, state: PathState) -> (result: Result<bool, AppError>)
    ensures
        match result {
            Ok(make) => state != PathState::Other && make == (state == PathState::Absent),
            Err(e) => state == PathState::Other && e@ == layout_error(index as int, path@),
        },
{
    match state {
        PathState::Absent => Ok(true),
        PathState::Directory => Ok(false),
        PathState::Other => {
            if index == 0 {
                Err(
                    error(
                        "INVALID_PROJECT_ALIAS",
                        "project checkout path exists but is not a directory",
                    ),
                )
            } else if index == 1 {
                Err(
                    error("PROCESS_FAILED", "project metadata path exists but is not a directory"),
                )
            } else {
                Err(
                    AppError::new(
                        "PROCESS_FAILED",
                        join3("project metadata entry ", path, " is not a directory"),
                    ),
                )
            }
        },
    }
}

/// The directories that were made for a project, in that order.
pub struct CreatedProjectLayout {
    pub created: Vec<String>,
}

impl CreatedProjectLayout {
    pub fn new() -> (layout: CreatedProjectLayout)
        ensures
            layout.created@ == Seq::<String>::empty(),
    {
        CreatedProjectLayout { created: Vec::new() }
    }

    pub fn add(&mut self, path: String)
        ensures
            final(self).created@ == old(self).created@.push(path),
    {
        self.created.push(path);
    }

    /// The order in which they are taken away again: a directory before the one
    /// that it stands in.
    pub fn removal_order(&self) -> (paths: Vec<String>)
        ensures
            texts(paths@) == texts(self.created@).reverse(),
    {
        let mut paths: Vec<String> = Vec::new();
        let mut i: usize = self.created.len();
        while i > 0
            invariant
                i <= self.created@.len(),
                paths@.len() == self.created@.len() - i,
                forall|j: int|
                    0 <= j < paths@.len() ==> (#[trigger] paths@[j])@ == self.created@[
                    self.created@.len() - 1 - j]@,
            decreases i,
        {
            i -= 1;
            paths.push(self.created[i].clone());
        }
        proof {
            assert(texts(paths@) =~= texts(self.created@).reverse());
        }
        paths
    }
}

}
