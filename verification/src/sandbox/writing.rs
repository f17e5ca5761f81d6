//! Writing a file so that it is there as a whole or not at all: the new content
//! goes to a file of its own, which then takes the place of the old one.
use vstd::prelude::*;

use crate::error::{error_view, unit_view, AppError, ErrorView};
use crate::sandbox::files::{
    bounded_read, bytes_answer, read_limit_error, target_mode, SecurePathResolver, TargetState,
};
use crate::search::texts;

verus! {

/// What is done next.
#[derive(Clone, Copy, Debug, PartialEq, Eq, Structural)]
pub enum WriteStage {
    /// Look at what stands at the target.
    Inspect,
    /// Create the temporary file, which must not be there.
    Create,
    /// Give the temporary file its permissions.
    SetMode,
    /// Write all of the content to the temporary file, down to the disk.
    Write,
    /// Put the temporary file in the place of the target.
    Rename,
    /// Write the directory down to the disk.
    Sync,
    /// Remove the temporary file, as far as that works.
    Discard,
    Finished,
}

/// What came of it.
pub enum WriteEvent {
    /// What stands at the target.
    Target(TargetState),
    Done,
    Failed(AppError),
}

/// A file that is being written.
pub struct AtomicWrite {
    pub stage: WriteStage,
    pub mode: u32,
    /// Whether the temporary file is there.
    pub temporary_left: bool,
    pub failure: Option<AppError>,
}

pub struct WriteView {
    pub stage: WriteStage,
    pub mode: u32,
    pub temporary_left: bool,
    pub failure: Option<ErrorView>,
}

impl View for AtomicWrite {
    type V = WriteView;

    open spec fn view(&self) -> WriteView {
        WriteView {
            stage: self.stage,
            mode: self.mode,
            temporary_left: self.temporary_left,
            failure: match self.failure {
                Some(e) => Some(e@),
                None => None,
            },
        }
    }
}

/// Only a look at the target tells what stands there.
pub open spec fn answers(stage: WriteStage, event: WriteEvent) -> bool {
    match event {
        WriteEvent::Target(_) => stage == WriteStage::Inspect,
        WriteEvent::Done => stage != WriteStage::Inspect && stage != WriteStage::Finished,
        WriteEvent::Failed(_) => stage != WriteStage::Finished,
    }
}

/// The stage behind one that went well.
pub open spec fn next_stage(stage: WriteStage) -> WriteStage {
    match stage {
        WriteStage::Inspect => WriteStage::Create,
        WriteStage::Create => WriteStage::SetMode,
        WriteStage::SetMode => WriteStage::Write,
        WriteStage::Write => WriteStage::Rename,
        WriteStage::Rename => WriteStage::Sync,
        WriteStage::Sync => WriteStage::Finished,
        WriteStage::Discard => WriteStage::Finished,
        WriteStage::Finished => WriteStage::Finished,
    }
}

/// The stage behind one that failed: what was created is removed again, unless it
/// has taken its place.
pub open spec fn failed_stage(stage: WriteStage) -> WriteStage {
    match stage {
        WriteStage::SetMode => WriteStage::Discard,
        WriteStage::Write => WriteStage::Discard,
        WriteStage::Rename => WriteStage::Discard,
        _ => WriteStage::Finished,
    }
}

/// The error that a failure stands for. The first one counts: what comes of
/// removing the temporary file is not reported.
pub open spec fn first_failure(state: WriteView, failure: ErrorView) -> Option<ErrorView> {
    if state.stage == WriteStage::Discard {
        state.failure
    } else {
        Some(failure)
    }
}

/// Where a write stands after an event.
pub open spec fn advanced(state: WriteView, event: WriteEvent) -> WriteView {
    match event {
        WriteEvent::Done => WriteView {
            stage: next_stage(state.stage),
            temporary_left: match state.stage {
                WriteStage::Create => true,
                WriteStage::Rename => false,
                WriteStage::Discard => false,
                _ => state.temporary_left,
            },
            ..state
        },
        WriteEvent::Failed(e) => WriteView {
            stage: failed_stage(state.stage),
            failure: first_failure(state, e@),
            ..state
        },
        WriteEvent::Target(TargetState::Symlink) => WriteView {
            stage: WriteStage::Finished,
            failure: Some(error_view("SYMLINK_ESCAPE", "symlink target rejected")),
            ..state
        },
        WriteEvent::Target(TargetState::Absent) => WriteView {
            stage: WriteStage::Create,
            mode: 0o600,
            ..state
        },
        WriteEvent::Target(TargetState::Present(mode)) => WriteView {
            stage: WriteStage::Create,
            mode: mode % 0o1000,
            ..state
        },
    }
}

impl AtomicWrite {
    pub fn start() -> (write: AtomicWrite)
        ensures
            write@ == write_start(),
    {
        AtomicWrite { stage: WriteStage::Inspect, mode: 0, temporary_left: false, failure: None }
    }

    /// Go on, given what came of the stage.
    pub fn advance(&mut self, event: WriteEvent)
        requires
            answers(old(self).stage, event),
        ensures
            final(self)@ == advanced(old(self)@, event),
    {
        match event {
            WriteEvent::Target(target) => match target_mode(target) {
                Ok(mode) => {
                    self.mode = mode;
                    self.stage = WriteStage::Create;
                },
                Err(e) => {
                    self.failure = Some(e);
                    self.stage = WriteStage::Finished;
                },
            },
            WriteEvent::Done => {
                self.temporary_left = match self.stage {
                    WriteStage::Create => true,
                    WriteStage::Rename => false,
                    WriteStage::Discard => false,
                    _ => self.temporary_left,
                };
                self.stage = match self.stage {
                    WriteStage::Inspect => WriteStage::Create,
                    WriteStage::Create => WriteStage::SetMode,
                    WriteStage::SetMode => WriteStage::Write,
                    WriteStage::Write => WriteStage::Rename,
                    WriteStage::Rename => WriteStage::Sync,
                    _ => WriteStage::Finished,
                };
            },
            WriteEvent::Failed(e) => {
                if self.stage != WriteStage::Discard {
                    self.failure = Some(e);
                }
                self.stage = match self.stage {
                    WriteStage::SetMode => WriteStage::Discard,
                    WriteStage::Write => WriteStage::Discard,
                    WriteStage::Rename => WriteStage::Discard,
                    _ => WriteStage::Finished,
                };
            },
        }
    }

    /// What came of the whole.
    pub fn finish(self) -> (result: Result<(), AppError>)
        requires
            self.stage == WriteStage::Finished,
        ensures
            unit_view(result) == match self@.failure {
                Some(e) => Err(e),
                None => Ok(()),
            },
    {
        match self.failure {
            Some(e) => Err(e),
            None => Ok(()),
        }
    }
}

/// A write that has not begun.
pub open spec fn write_start() -> WriteView {
    WriteView { stage: WriteStage::Inspect, mode: 0, temporary_left: false, failure: None }
}

/// How a copy starts, given what was read: what is written, how many bytes that is, and
/// where the write stands. What could not be read is not written: the write is finished
/// before it does anything.
pub open spec fn copy_start(read: Result<Seq<u8>, ErrorView>) -> (Seq<u8>, int, WriteView) {
    match read {
        Ok(data) => (data, data.len() as int, write_start()),
        Err(e) => (
            Seq::empty(),
            0,
            WriteView { stage: WriteStage::Finished, failure: Some(e), ..write_start() },
        ),
    }
}

/// A file of which a copy is written.
pub struct FileCopy {
    pub data: Vec<u8>,
    pub count: u64,
    pub write: AtomicWrite,
}

impl FileCopy {
    /// Start to write what was read.
    pub fn start(read: Result<Vec<u8>, AppError>) -> (copy: FileCopy)
        ensures
            (copy.data@, copy.count as int, copy.write@) == copy_start(bytes_answer(read)),
    {
        match SecurePathResolver.copy_file_secure(read) {
            Ok((data, count)) => FileCopy { data, count, write: AtomicWrite::start() },
            Err(e) => {
                let copy = FileCopy {
                    data: Vec::new(),
                    count: 0,
                    write: AtomicWrite {
                        stage: WriteStage::Finished,
                        mode: 0,
                        temporary_left: false,
                        failure: Some(e),
                    },
                };
                proof {
                    assert(copy.data@ =~= Seq::empty());
                }
                copy
            },
        }
    }

    /// How many bytes were copied, or why none were.
    pub fn finish(self) -> (result: Result<u64, AppError>)
        requires
            self.write.stage == WriteStage::Finished,
        ensures
            match (result, self.write@.failure) {
                (Ok(count), None) => count == self.count,
                (Err(e), Some(failure)) => e@ == failure,
                _ => false,
            },
    {
        match self.write.finish() {
            Ok(()) => Ok(self.count),
            Err(e) => Err(e),
        }
    }
}

/// What is done next on the way to the directory of a file.
#[derive(Clone, Copy, Debug, PartialEq, Eq, Structural)]
pub enum ParentStage {
    /// Make the next directory, unless something is there.
    Make,
    /// Open the next directory, and follow no link.
    Open,
    Finished,
}

pub enum ParentEvent {
    Done,
    /// There was something already where a directory was to be made.
    AlreadyThere,
    Failed(AppError),
}

/// The directories above a file, entered one after the other.
pub struct ParentWalk {
    pub names: Vec<String>,
    pub index: usize,
    pub create: bool,
    pub stage: ParentStage,
    pub failure: Option<AppError>,
}

pub struct ParentView {
    pub names: Seq<Seq<char>>,
    pub index: int,
    pub create: bool,
    pub stage: ParentStage,
    pub failure: Option<ErrorView>,
}

impl View for ParentWalk {
    type V = ParentView;

    open spec fn view(&self) -> ParentView {
        ParentView {
            names: texts(self.names@),
            index: self.index as int,
            create: self.create,
            stage: self.stage,
            failure: match self.failure {
                Some(e) => Some(e@),
                None => None,
            },
        }
    }
}

/// What is done about the directory at `index`.
pub open spec fn parent_stage(count: int, index: int, create: bool) -> ParentStage {
    if index >= count {
        ParentStage::Finished
    } else if create {
        ParentStage::Make
    } else {
        ParentStage::Open
    }
}

pub open spec fn parent_answers(stage: ParentStage, event: ParentEvent) -> bool {
    match event {
        ParentEvent::AlreadyThere => stage == ParentStage::Make,
        _ => stage != ParentStage::Finished,
    }
}

/// Where the way to a directory stands after an event. It goes on through what was there
/// already: opening it shows whether it is a directory.
pub open spec fn entered(state: ParentView, event: ParentEvent) -> ParentView {
    match event {
        ParentEvent::Failed(e) => ParentView {
            stage: ParentStage::Finished,
            failure: Some(e@),
            ..state
        },
        _ => if state.stage == ParentStage::Make {
            ParentView { stage: ParentStage::Open, ..state }
        } else {
            ParentView {
                index: state.index + 1,
                stage: parent_stage(state.names.len() as int, state.index + 1, state.create),
                ..state
            }
        },
    }
}

impl ParentWalk {
    pub fn start(names: Vec<String>, create: bool) -> (walk: ParentWalk)
        ensures
            walk@ == (ParentView {
                names: texts(names@),
                index: 0,
                create,
                stage: parent_stage(names@.len() as int, 0, create),
                failure: None,
            }),
    {
        let stage = if names.len() == 0 {
            ParentStage::Finished
        } else if create {
            ParentStage::Make
        } else {
            ParentStage::Open
        };
        ParentWalk { names, index: 0, create, stage, failure: None }
    }

    /// Go on, given what came of the stage.
    pub fn advance(&mut self, event: ParentEvent)
        requires
            parent_answers(old(self).stage, event),
            old(self).index < old(self).names@.len(),
        ensures
            final(self)@ == entered(old(self)@, event),
            final(self).names == old(self).names,
    {
        proof {
            assert(texts(self.names@).len() == self.names@.len());
        }
        match event {
            ParentEvent::Failed(e) => {
                self.failure = Some(e);
                self.stage = ParentStage::Finished;
            },
            _ => {
                if self.stage == ParentStage::Make {
                    self.stage = ParentStage::Open;
                } else {
                    let count = self.names.len();
                    self.index = self.index + 1;
                    self.stage = if self.index >= count {
                        ParentStage::Finished
                    } else if self.create {
                        ParentStage::Make
                    } else {
                        ParentStage::Open
                    };
                }
            },
        }
    }

    /// Whether every directory was entered.
    pub fn finish(self) -> (result: Result<(), AppError>)
        requires
            self.stage == ParentStage::Finished,
        ensures
            unit_view(result) == match self@.failure {
                Some(e) => Err(e),
                None => Ok(()),
            },
    {
        match self.failure {
            Some(e) => Err(e),
            None => Ok(()),
        }
    }
}

/// What a stage does to the directories that are there, each known by the names on the
/// way to it. What can be opened as a directory is one.
pub open spec fn parent_performs(
    state: ParentView,
    event: ParentEvent,
    before: Set<Seq<Seq<char>>>,
    after: Set<Seq<Seq<char>>>,
) -> bool {
    let directory = state.names.take(state.index + 1);
    match event {
        ParentEvent::Done => if state.stage == ParentStage::Make {
            after == before.insert(directory)
        } else {
            after == before && before.contains(directory)
        },
        _ => after == before,
    }
}

/// The directories that were entered are there; without a failure the way ends with the
/// last of them.
pub open spec fn parents_there(state: ParentView, directories: Set<Seq<Seq<char>>>) -> bool {
    &&& 0 <= state.index <= state.names.len()
    &&& state.stage != ParentStage::Finished ==> state.index < state.names.len()
    &&& state.stage == ParentStage::Finished && state.failure is None ==> state.index
        == state.names.len()
    &&& state.stage != ParentStage::Finished ==> state.failure is None
    &&& forall|j: int|
        0 <= j < state.index ==> directories.contains(#[trigger] state.names.take(j + 1))
}

/// On the way to a file, every directory that was entered is there and stays there.
pub proof fn entering_finds_parents(
    state: ParentView,
    event: ParentEvent,
    before: Set<Seq<Seq<char>>>,
    after: Set<Seq<Seq<char>>>,
)
    requires
        parents_there(state, before),
        parent_answers(state.stage, event),
        parent_performs(state, event, before, after),
    ensures
        parents_there(entered(state, event), after),
{
}

/// A file in a directory.
pub struct FileView {
    pub content: Seq<u8>,
    pub mode: u32,
}

/// The permissions of a file that is written: those of the file that it replaces, else
/// none but the owner's.
pub open spec fn kept_mode(files: Map<Seq<char>, FileView>, target: Seq<char>) -> u32 {
    if files.contains_key(target) {
        files[target].mode % 0o1000
    } else {
        0o600
    }
}

/// The file as it is to be written.
pub open spec fn new_file(
    files: Map<Seq<char>, FileView>,
    target: Seq<char>,
    data: Seq<u8>,
) -> FileView {
    FileView { content: data, mode: kept_mode(files, target) }
}

/// What a stage does to a directory, where it goes well and where it fails. A look at
/// the target tells what is there. A failed write may have written a part.
pub open spec fn performs(
    state: WriteView,
    event: WriteEvent,
    before: Map<Seq<char>, FileView>,
    after: Map<Seq<char>, FileView>,
    target: Seq<char>,
    temporary: Seq<char>,
    data: Seq<u8>,
) -> bool {
    let ok = !(event is Failed);
    let file = before[temporary];
    match state.stage {
        WriteStage::Inspect => after == before && match event {
            WriteEvent::Target(TargetState::Absent) => !before.contains_key(target),
            WriteEvent::Target(TargetState::Present(mode)) => before.contains_key(target)
                && before[target].mode == mode,
            _ => true,
        },
        WriteStage::Create => if ok {
            after == before.insert(temporary, FileView { content: Seq::empty(), mode: 0o600 })
        } else {
            after == before
        },
        WriteStage::SetMode => if ok {
            after == before.insert(temporary, FileView { mode: state.mode, ..file })
        } else {
            after == before
        },
        WriteStage::Write => if ok {
            after == before.insert(temporary, FileView { content: data, ..file })
        } else {
            exists|part: Seq<u8>|
                after == #[trigger] before.insert(temporary, FileView { content: part, ..file })
        },
        WriteStage::Rename => if ok {
            after == before.remove(temporary).insert(target, file)
        } else {
            after == before
        },
        WriteStage::Discard => if ok {
            after == before.remove(temporary)
        } else {
            after == before
        },
        _ => after == before,
    }
}

/// What a directory holds while a file is written to it: what it held before, and
/// at most the temporary file besides; and in the end the file as a whole.
pub open spec fn in_order(
    state: WriteView,
    old_files: Map<Seq<char>, FileView>,
    files: Map<Seq<char>, FileView>,
    target: Seq<char>,
    temporary: Seq<char>,
    data: Seq<u8>,
) -> bool {
    let whole = new_file(old_files, target, data);
    let mode = kept_mode(old_files, target);
    match state.stage {
        WriteStage::Inspect => files == old_files && state.failure is None
            && !state.temporary_left,
        WriteStage::Create => files == old_files && state.failure is None && state.mode == mode
            && !state.temporary_left,
        WriteStage::SetMode => files.remove(temporary) == old_files && state.failure is None
            && state.mode == mode && state.temporary_left,
        WriteStage::Write => files.remove(temporary) == old_files && state.failure is None
            && files.contains_key(temporary) && files[temporary].mode == mode
            && state.temporary_left,
        WriteStage::Rename => files == old_files.insert(temporary, whole) && state.failure is None
            && state.temporary_left,
        WriteStage::Sync => files == old_files.insert(target, whole) && state.failure is None
            && !state.temporary_left,
        WriteStage::Discard => files.remove(temporary) == old_files && state.failure is Some
            && state.temporary_left,
        WriteStage::Finished => if state.failure is None {
            files == old_files.insert(target, whole) && !state.temporary_left
        } else if state.temporary_left {
            files.remove(temporary) == old_files
        } else {
            files == old_files || files == old_files.insert(target, whole)
        },
    }
}

/// Whatever fails and wherever it does, a directory stays in order: a write that ends
/// well leaves the whole content at the target, under the permissions that it is to
/// have, and no temporary file; nothing but the target ever changes; and the temporary
/// file is left behind only where it could not be removed.
pub proof fn write_stays_in_order(
    state: WriteView,
    event: WriteEvent,
    old_files: Map<Seq<char>, FileView>,
    before: Map<Seq<char>, FileView>,
    after: Map<Seq<char>, FileView>,
    target: Seq<char>,
    temporary: Seq<char>,
    data: Seq<u8>,
)
    requires
        target != temporary,
        !old_files.contains_key(temporary),
        in_order(state, old_files, before, target, temporary, data),
        answers(state.stage, event),
        performs(state, event, before, after, target, temporary, data),
    ensures
        in_order(advanced(state, event), old_files, after, target, temporary, data),
        advanced(state, event).stage == WriteStage::Finished && advanced(
            state,
            event,
        ).temporary_left ==> state.stage == WriteStage::Discard && event is Failed,
{
    let whole = new_file(old_files, target, data);
    assert(old_files.remove(temporary) =~= old_files);
    match state.stage {
        WriteStage::Create => {
            assert(after.remove(temporary) =~= old_files || after == before);
        },
        WriteStage::SetMode => {
            assert(after.remove(temporary) =~= before.remove(temporary));
        },
        WriteStage::Write => {
            assert(after.remove(temporary) =~= before.remove(temporary));
            if !(event is Failed) {
                assert(after =~= before.remove(temporary).insert(temporary, whole));
            }
        },
        WriteStage::Rename => {
            assert(before.remove(temporary) =~= old_files);
        },
        WriteStage::Discard => {
            assert(before.remove(temporary).remove(temporary) =~= before.remove(temporary));
        },
        _ => {},
    }
}

/// A target that is there is the old file or the whole new one, at every stage.
pub proof fn target_is_never_partial(
    state: WriteView,
    old_files: Map<Seq<char>, FileView>,
    files: Map<Seq<char>, FileView>,
    target: Seq<char>,
    temporary: Seq<char>,
    data: Seq<u8>,
)
    requires
        target != temporary,
        !old_files.contains_key(temporary),
        in_order(state, old_files, files, target, temporary, data),
        files.contains_key(target),
    ensures
        files[target] == new_file(old_files, target, data) || old_files.contains_key(target)
            && files[target] == old_files[target],
{
    if files.remove(temporary) == old_files {
        assert(files.remove(temporary).contains_key(target));
    }
}

/// What an atomic write promises: once the way to the directory and the write have ended
/// well, every directory above the file is there, the file is read back whole under
/// every limit that it meets, it has the permissions of the file that it replaced or
/// none but the owner's, and no temporary file remains. If the write failed, the target
/// is the old file or the whole new one, or still missing.
pub proof fn written_file_is_read_back(
    way: ParentView,
    directories: Set<Seq<Seq<char>>>,
    state: WriteView,
    old_files: Map<Seq<char>, FileView>,
    files: Map<Seq<char>, FileView>,
    target: Seq<char>,
    temporary: Seq<char>,
    data: Seq<u8>,
    maximum: int,
)
    requires
        target != temporary,
        !old_files.contains_key(temporary),
        parents_there(way, directories),
        way.stage == ParentStage::Finished,
        way.failure is None,
        in_order(state, old_files, files, target, temporary, data),
        state.stage == WriteStage::Finished,
        maximum >= data.len(),
    ensures
        forall|j: int|
            0 <= j < way.names.len() ==> directories.contains(#[trigger] way.names.take(j + 1)),
        state.failure is None ==> files.contains_key(target) && bounded_read(
            true,
            files[target].content.len() as int,
            files[target].content,
            maximum,
        ) == Ok::<Seq<u8>, ErrorView>(data) && files[target].mode == kept_mode(old_files, target),
        !state.temporary_left ==> !files.contains_key(temporary),
        files.contains_key(target) ==> files[target] == new_file(old_files, target, data)
            || old_files.contains_key(target) && files[target] == old_files[target],
        old_files.contains_key(target) ==> files.contains_key(target),
{
    if files.contains_key(target) {
        target_is_never_partial(state, old_files, files, target, temporary, data);
    }
    if files.remove(temporary) == old_files && old_files.contains_key(target) {
        assert(files.remove(temporary).contains_key(target));
    }
}

/// A copy that ends well is read back whole and counted, and the file that was copied
/// stays as it was.
pub proof fn copy_is_read_back(
    state: WriteView,
    old_files: Map<Seq<char>, FileView>,
    files: Map<Seq<char>, FileView>,
    source: Seq<char>,
    destination: Seq<char>,
    temporary: Seq<char>,
    maximum: int,
)
    requires
        source != destination,
        source != temporary,
        destination != temporary,
        !old_files.contains_key(temporary),
        old_files.contains_key(source),
        old_files[source].content.len() <= maximum,
        in_order(
            state,
            old_files,
            files,
            destination,
            temporary,
            old_files[source].content,
        ),
        state.stage == WriteStage::Finished,
        state.failure is None,
    ensures
        ({
            let content = old_files[source].content;
            &&& copy_start(bounded_read(true, content.len() as int, content, maximum)) == (
                content,
                content.len() as int,
                write_start(),
            )
            &&& files.contains_key(destination) && bounded_read(
                true,
                files[destination].content.len() as int,
                files[destination].content,
                maximum,
            ) == Ok::<Seq<u8>, ErrorView>(content)
            &&& files.contains_key(source) && files[source] == old_files[source]
        }),
{
}

/// A file that is too large is not copied: the copy is refused with the error of the
/// read, it writes nothing, and the directory is in order as it is.
pub proof fn refused_copy_writes_nothing(
    files: Map<Seq<char>, FileView>,
    source: Seq<char>,
    destination: Seq<char>,
    temporary: Seq<char>,
    maximum: int,
    event: WriteEvent,
)
    requires
        files.contains_key(source),
        files[source].content.len() > maximum,
    ensures
        ({
            let content = files[source].content;
            let (data, count, write) = copy_start(
                bounded_read(true, content.len() as int, content, maximum),
            );
            &&& write.stage == WriteStage::Finished
            &&& write.failure == Some(read_limit_error())
            &&& !answers(write.stage, event)
            &&& in_order(write, files, files, destination, temporary, data)
        }),
{
}

/// A file that takes the place of another has its permission bits, and a new one
/// only those of its owner to read and write. A symbolic link is not written
/// through.
pub proof fn written_file_has_its_permissions(state: WriteView, mode: u32)
    requires
        state.stage == WriteStage::Inspect,
    ensures
        advanced(state, WriteEvent::Target(TargetState::Absent)).mode == 384,
        advanced(state, WriteEvent::Target(TargetState::Present(mode))).mode == mode & 511,
        advanced(state, WriteEvent::Target(TargetState::Symlink)).stage == WriteStage::Finished,
        advanced(state, WriteEvent::Target(TargetState::Symlink)).failure is Some,
        (advanced(state, WriteEvent::Target(TargetState::Symlink)).failure->0).code
            == "SYMLINK_ESCAPE"@,
{
    assert(mode & 511 == mode % 512) by (bit_vector);
}

/// A write that goes well goes through its stages in order: a look at the target, the
/// temporary file, its permissions, its content, its place, and the directory.
pub proof fn stages_of_a_write(state: WriteView)
    ensures
        ({
            let next = advanced(state, WriteEvent::Done);
            &&& state.stage == WriteStage::Create ==> next.stage == WriteStage::SetMode
                && next.temporary_left
            &&& state.stage == WriteStage::SetMode ==> next.stage == WriteStage::Write
            &&& state.stage == WriteStage::Write ==> next.stage == WriteStage::Rename
            &&& state.stage == WriteStage::Rename ==> next.stage == WriteStage::Sync
                && !next.temporary_left
            &&& state.stage == WriteStage::Sync ==> next.stage == WriteStage::Finished
            &&& state.stage == WriteStage::Discard ==> next.stage == WriteStage::Finished
                && !next.temporary_left
            &&& next.failure == state.failure && next.mode == state.mode
        }),
        advanced(state, WriteEvent::Target(TargetState::Absent)).stage == WriteStage::Create,
{
}

/// A write that fails says why it first did. Where the temporary file is there it is taken
/// away before the write ends; else the write ends at once.
pub proof fn failed_write_cleans_up(state: WriteView, e: AppError)
    ensures
        ({
            let next = advanced(state, WriteEvent::Failed(e));
            &&& state.stage == WriteStage::SetMode || state.stage == WriteStage::Write
                || state.stage == WriteStage::Rename ==> next.stage == WriteStage::Discard
            &&& state.stage == WriteStage::Inspect || state.stage == WriteStage::Create
                || state.stage == WriteStage::Sync || state.stage == WriteStage::Discard
                ==> next.stage == WriteStage::Finished
            &&& state.stage == WriteStage::Discard ==> next.failure == state.failure
            &&& state.stage != WriteStage::Discard ==> next.failure == Some(e@)
            &&& next.temporary_left == state.temporary_left
        }),
{
}

/// On the way to a directory each one is made, where that is asked for, and then opened;
/// what fails ends the way.
pub proof fn directories_are_made_and_opened(state: ParentView, e: AppError)
    requires
        0 <= state.index < state.names.len(),
        state.failure is None,
    ensures
        state.stage == ParentStage::Make ==> entered(state, ParentEvent::Done).stage
            == ParentStage::Open && entered(state, ParentEvent::Done).index == state.index
            && entered(state, ParentEvent::AlreadyThere).stage == ParentStage::Open,
        state.stage == ParentStage::Open ==> {
            let next = entered(state, ParentEvent::Done);
            &&& next.index == state.index + 1
            &&& next.index == state.names.len() ==> next.stage == ParentStage::Finished
            &&& next.index < state.names.len() && state.create ==> next.stage == ParentStage::Make
            &&& next.index < state.names.len() && !state.create ==> next.stage == ParentStage::Open
            &&& next.failure is None
        },
        entered(state, ParentEvent::Failed(e)).stage == ParentStage::Finished,
        entered(state, ParentEvent::Failed(e)).failure == Some(e@),
{
}

}
