//! What file operations accept and return.
use vstd::prelude::*;
use vstd::utf8::{decode_utf8, valid_utf8};

use crate::error::{error, error_view, unit_view, AppError, ErrorView};
use crate::sandbox::paths::{
    components, components_refusal, path_names, path_refusal, resolution, walked, within, PathFact,
    PathOperation, PathWalk,
};
use crate::search::texts;

verus! {

/// Finds files below a project's root without leaving it.
#[derive(Clone, Copy, Debug)]
pub struct SecurePathResolver;

pub open spec fn read_limit_error() -> ErrorView {
    error_view("RESOURCE_LIMIT_EXCEEDED", "file exceeds read limit")
}

pub open spec fn not_regular_error() -> ErrorView {
    error_view("INVALID_INPUT", "path is not a regular file")
}

/// Whether something that was opened may be read: a directory, a pipe or a device may
/// not.
pub fn regular_file(is_file: bool) -> (r: Result<(), AppError>)
    ensures
        is_file == (r is Ok),
        unit_view(r) == if is_file {
            Ok(())
        } else {
            Err(not_regular_error())
        },
{
    if is_file {
        Ok(())
    } else {
        Err(error("INVALID_INPUT", "path is not a regular file"))
    }
}

/// What is read of something whose size was `length` and of which `content` was
/// read: all of it, if it is a file of no more than `maximum` bytes.
pub open spec fn bounded_read(is_file: bool, length: int, content: Seq<u8>, maximum: int) -> Result<
    Seq<u8>,
    ErrorView,
> {
    if !is_file {
        Err(not_regular_error())
    } else if length > maximum || content.len() > maximum {
        Err(read_limit_error())
    } else {
        Ok(content)
    }
}

pub open spec fn bytes_answer(result: Result<Vec<u8>, AppError>) -> Result<Seq<u8>, ErrorView> {
    match result {
        Ok(bytes) => Ok(bytes@),
        Err(e) => Err(e@),
    }
}

pub fn read_file_bounded(is_file: bool, length: usize, content: Vec<u8>, maximum: usize) -> (result:
    Result<Vec<u8>, AppError>)
    ensures
        bytes_answer(result) == bounded_read(
            is_file,
            length as int,
            content@,
            maximum as int,
        ),
{
    if let Err(e) = regular_file(is_file) {
        return Err(e);
    }
    if length > maximum || content.len() > maximum {
        return Err(error("RESOURCE_LIMIT_EXCEEDED", "file exceeds read limit"));
    }
    Ok(content)
}

impl SecurePathResolver {
    /// Follow a path below a canonical root, given what stands at each of its
    /// names in turn. What it leads to is never outside the root.
    pub fn resolve_project_path(
        &self,
        root: &str,
        user_path: &str,
        separator: char,
        facts: Vec<PathFact>,
        operation: PathOperation,
    ) -> (result: Result<String, AppError>)
        ensures
            match result {
                Ok(path) => resolution(root@, user_path@, separator, facts@, operation) == Ok::<
                    Seq<char>,
                    ErrorView,
                >(path@) && within(path@, root@, separator),
                Err(e) => resolution(root@, user_path@, separator, facts@, operation) == Err::<
                    Seq<char>,
                    ErrorView,
                >(e@),
            },
    {
        let mut walk = match PathWalk::start(root, user_path, separator) {
            Ok(walk) => walk,
            Err(e) => {
                return Err(e);
            },
        };
        let ghost all = facts@;
        let ghost names = path_names(user_path@);
        let mut rest = reversed_facts(facts);
        let ghost mut from: int = 0;
        while rest.len() > 0 && walk.index < walk.names.len()
            invariant
                walk.inside(),
                walk.root@ == root@,
                texts(walk.names@) == names,
                walk.user_path@ == user_path@,
                names == path_names(user_path@),
                path_refusal(user_path@, separator) is None,
                walk.separator == separator,
                all == facts@,
                0 <= from,
                from + rest@.len() == all.len(),
                forall|j: int| 0 <= j < rest@.len() ==> rest@[j] == all[all.len() - 1 - j],
                walked(
                    root@,
                    user_path@,
                    separator,
                    names,
                    all,
                    0,
                    operation,
                    root@,
                    0,
                ) == walked(
                    root@,
                    user_path@,
                    separator,
                    names,
                    all,
                    from,
                    operation,
                    walk.current@,
                    walk.index as int,
                ),
            decreases rest.len(),
        {
            proof {
                assert(names.len() == walk.names@.len());
            }
            match rest.pop() {
                Some(fact) => {
                    proof {
                        assert(fact == all[from]);
                    }
                    if let Err(e) = walk.step(fact, operation) {
                        return Err(e);
                    }
                    proof {
                        from = from + 1;
                    }
                },
                None => {},
            }
        }
        proof {
            assert(names.len() == walk.names@.len());
        }
        if walk.index < walk.names.len() {
            return Err(error("PROCESS_FAILED", "path was not followed to its end"));
        }
        Ok(walk.finish())
    }

    /// What a copy writes, and how many bytes that is, given what was read.
    pub fn copy_file_secure(&self, read: Result<Vec<u8>, AppError>) -> (result: Result<
        (Vec<u8>, u64),
        AppError,
    >)
        ensures
            match (result, read) {
                (Ok((bytes, count)), Ok(content)) => bytes == content && count == content@.len(),
                (Err(e), Err(cause)) => e == cause,
                _ => false,
            },
    {
        match read {
            Ok(bytes) => {
                let count = bytes.len() as u64;
                Ok((bytes, count))
            },
            Err(e) => Err(e),
        }
    }
}

fn reversed_facts(facts: Vec<PathFact>) -> (r: Vec<PathFact>)
    ensures
        r@.len() == facts@.len(),
        forall|j: int| 0 <= j < r@.len() ==> r@[j] == facts@[facts@.len() - 1 - j],
{
    let mut rest = facts;
    let mut r: Vec<PathFact> = Vec::new();
    while rest.len() > 0
        invariant
            r@.len() + rest@.len() == facts@.len(),
            rest@ == facts@.take(rest@.len() as int),
            forall|j: int| 0 <= j < r@.len() ==> r@[j] == facts@[facts@.len() - 1 - j],
        decreases rest.len(),
    {
        match rest.pop() {
            Some(fact) => {
                r.push(fact);
            },
            None => {},
        }
    }
    r
}

/// The directories in which a path is removed, and the name that is removed.
pub fn remove_path(user_path: &str) -> (result: Result<(Vec<String>, String), AppError>)
    ensures
        match result {
            Ok((parents, name)) => components_refusal(user_path@) is None && texts(parents@).push(
                name@,
            ) == path_names(user_path@),
            Err(e) => components_refusal(user_path@) == Some(e@),
        },
{
    match components(user_path) {
        Err(e) => Err(e),
        Ok(names) => {
            let mut parents = names;
            let ghost all = texts(names@);
            match parents.pop() {
                Some(name) => {
                    proof {
                        assert(texts(parents@).push(name@) =~= all);
                    }
                    Ok((parents, name))
                },
                None => Err(error("PATH_OUTSIDE_WORKSPACE", "path is empty")),
            }
        },
    }
}

/// How many bytes a read at `offset` takes from a file of `length` bytes.
pub fn range_length(length: u64, offset: u64, maximum: usize) -> (result: Result<usize, AppError>)
    ensures
        match result {
            Ok(wanted) => offset <= length && wanted == if length - offset < maximum {
                (length - offset) as int
            } else {
                maximum as int
            },
            Err(e) => offset > length && e@ == error_view(
                "INVALID_INPUT",
                "offset is outside the file",
            ),
        },
{
    if offset > length {
        return Err(error("INVALID_INPUT", "offset is outside the file"));
    }
    let left = length - offset;
    if left < maximum as u64 {
        Ok(left as usize)
    } else {
        Ok(maximum)
    }
}

/// What stands at the path that a file is written to.
#[derive(Clone, Copy, PartialEq, Eq, Structural)]
pub enum TargetState {
    Absent,
    Symlink,
    /// Something else, with the bits of its mode.
    Present(u32),
}

/// The permissions that a written file gets: those of the file that it
/// replaces, else none but the owner's.
pub fn target_mode(target: TargetState) -> (result: Result<u32, AppError>)
    ensures
        match target {
            TargetState::Absent => result is Ok && result->Ok_0 == 0o600,
            TargetState::Symlink => result is Err && result->Err_0@ == error_view(
                "SYMLINK_ESCAPE",
                "symlink target rejected",
            ),
            TargetState::Present(mode) => result is Ok && result->Ok_0 == mode % 0o1000,
        },
{
    match target {
        TargetState::Absent => Ok(0o600),
        TargetState::Symlink => Err(error("SYMLINK_ESCAPE", "symlink target rejected")),
        TargetState::Present(mode) => Ok(mode % 0o1000),
    }
}

/// Whether something is moved, given what it is: a symbolic link is not.
pub fn check_move_source(source: TargetState) -> (result: Result<(), AppError>)
    ensures
        unit_view(result) == match source {
            TargetState::Symlink => Err(error_view("SYMLINK_ESCAPE", "symlink source rejected")),
            _ => Ok(()),
        },
{
    match source {
        TargetState::Symlink => Err(error("SYMLINK_ESCAPE", "symlink source rejected")),
        _ => Ok(()),
    }
}

/// Why a name could not be opened.
#[derive(Clone, Copy, PartialEq, Eq, Structural)]
pub enum OpenFailure {
    /// A symbolic link, or no directory where one was expected.
    NotFollowed,
    NotFound,
    Other,
}

pub open spec fn open_failure_code(failure: OpenFailure) -> Seq<char> {
    match failure {
        OpenFailure::NotFollowed => "SYMLINK_ESCAPE"@,
        OpenFailure::NotFound => "FILE_NOT_FOUND"@,
        OpenFailure::Other => "PROCESS_FAILED"@,
    }
}

pub fn open_error(failure: OpenFailure, message: String) -> (e: AppError)
    ensures
        e@ == (ErrorView { code: open_failure_code(failure), message: message@ }),
{
    match failure {
        OpenFailure::NotFollowed => AppError::new("SYMLINK_ESCAPE", message),
        OpenFailure::NotFound => AppError::new("FILE_NOT_FOUND", message),
        OpenFailure::Other => AppError::new("PROCESS_FAILED", message),
    }
}

/// The start of what a process writes, and how much that was in all.
pub struct BoundedOutput {
    pub retained: Vec<u8>,
    pub total: usize,
    pub limit: usize,
    pub seen: Ghost<Seq<u8>>,
}

impl BoundedOutput {
    /// The first `limit` bytes are kept, and all are counted.
    pub open spec fn faithful(self) -> bool {
        &&& self.retained@ == if self.seen@.len() <= self.limit {
            self.seen@
        } else {
            self.seen@.take(self.limit as int)
        }
        &&& self.total == if self.seen@.len() <= usize::MAX {
            self.seen@.len() as int
        } else {
            usize::MAX as int
        }
    }

    pub fn new(limit: usize) -> (output: BoundedOutput)
        ensures
            output.faithful(),
            output.limit == limit,
            output.seen@ == Seq::<u8>::empty(),
    {
        let output = BoundedOutput {
            retained: Vec::new(),
            total: 0,
            limit,
            seen: Ghost(Seq::empty()),
        };
        proof {
            assert(output.retained@ =~= Seq::<u8>::empty());
        }
        output
    }

    /// Take in what was read next.
    pub fn feed(&mut self, chunk: &[u8])
        requires
            old(self).faithful(),
        ensures
            final(self).faithful(),
            final(self).limit == old(self).limit,
            final(self).seen@ == old(self).seen@ + chunk@,
    {
        let ghost before = self.seen@;
        let ghost kept = self.retained@;
        self.total = self.total.saturating_add(chunk.len());
        if self.retained.len() < self.limit {
            let room = self.limit - self.retained.len();
            let count = if chunk.len() < room {
                chunk.len()
            } else {
                room
            };
            let mut i: usize = 0;
            proof {
                assert(kept + chunk@.take(0) =~= kept);
            }
            while i < count
                invariant
                    i <= count <= chunk@.len(),
                    self.retained@ == kept + chunk@.take(i as int),
                    self.limit == old(self).limit,
                    self.total == (if old(self).total + chunk@.len() <= usize::MAX {
                        old(self).total + chunk@.len()
                    } else {
                        usize::MAX as int
                    }),
                    self.seen == old(self).seen,
                decreases count - i,
            {
                self.retained.push(chunk[i]);
                i += 1;
                proof {
                    assert(kept + chunk@.take(i as int) =~= (kept + chunk@.take(i - 1)).push(
                        chunk@[i - 1],
                    ));
                }
            }
        }
        self.seen = Ghost(before + chunk@);
        proof {
            let all = before + chunk@;
            if all.len() <= self.limit {
                assert(self.retained@ =~= all);
            } else {
                assert(self.retained@ =~= all.take(self.limit as int));
            }
        }
    }

    /// Whether something was left out, as far as bytes can be counted.
    pub fn truncated(&self) -> (r: bool)
        requires
            self.faithful(),
        ensures
            r == (self.total > self.limit),
            self.limit < usize::MAX ==> r == (self.seen@.len() > self.limit),
    {
        self.total > self.limit
    }
}

/// Bytes as text, what is no UTF-8 standing as replacement characters.
pub uninterp spec fn lossy(bytes: Seq<u8>) -> Seq<char>;

/// `String::from_utf8_lossy`: valid UTF-8 becomes the text that it encodes.
#[verifier::external_body]
fn lossy_text(bytes: &Vec<u8>) -> (text: String)
    ensures
        text@ == lossy(bytes@),
        valid_utf8(bytes@) ==> text@ == decode_utf8(bytes@),
{
    String::from_utf8_lossy(bytes).into_owned()
}

/// What became of a process.
#[derive(Clone, Debug)]
pub struct ProcessResult {
    pub exit_code: Option<i32>,
    pub stdout: String,
    pub stderr: String,
    pub timed_out: bool,
    pub truncated: bool,
    pub stdout_bytes: usize,
    pub stderr_bytes: usize,
}

/// Sum up a process that ended or was ended.
pub fn process_result(
    exit_code: Option<i32>,
    timed_out: bool,
    stdout: BoundedOutput,
    stderr: BoundedOutput,
) -> (result: ProcessResult)
    requires
        stdout.faithful(),
        stderr.faithful(),
    ensures
        result.exit_code == exit_code,
        result.timed_out == timed_out,
        result.stdout@ == lossy(stdout.retained@),
        result.stderr@ == lossy(stderr.retained@),
        valid_utf8(stdout.retained@) ==> result.stdout@ == decode_utf8(stdout.retained@),
        valid_utf8(stderr.retained@) ==> result.stderr@ == decode_utf8(stderr.retained@),
        result.truncated == (stdout.total > stdout.limit || stderr.total > stderr.limit),
        result.stdout_bytes == stdout.total,
        result.stderr_bytes == stderr.total,
{
    let truncated = stdout.truncated() || stderr.truncated();
    ProcessResult {
        exit_code,
        stdout: lossy_text(&stdout.retained),
        stderr: lossy_text(&stderr.retained),
        timed_out,
        truncated,
        stdout_bytes: stdout.total,
        stderr_bytes: stderr.total,
    }
}

/// The seconds of processor time that a process may take, softly and hard.
pub fn cpu_limits(timeout_secs: u64) -> (limits: (u64, u64))
    ensures
        limits.0 == if timeout_secs + 2 <= u64::MAX {
            timeout_secs + 2
        } else {
            u64::MAX as int
        },
        limits.1 == if limits.0 < u64::MAX {
            limits.0 + 1
        } else {
            u64::MAX as int
        },
{
    let soft = timeout_secs.saturating_add(2);
    (soft, soft.saturating_add(1))
}

/// A file is read exactly if it is one and neither its size nor what was read of it is over
/// the limit, and then all that was read is.
pub proof fn small_files_are_read_whole(
    is_file: bool,
    length: int,
    content: Seq<u8>,
    maximum: int,
)
    ensures
        bounded_read(is_file, length, content, maximum) is Ok <==> is_file && length <= maximum
            && content.len() <= maximum,
        bounded_read(is_file, length, content, maximum) is Ok ==> bounded_read(
            is_file,
            length,
            content,
            maximum,
        )->Ok_0 == content,
        !is_file ==> (bounded_read(is_file, length, content, maximum)->Err_0).code
            == "INVALID_INPUT"@,
        is_file && length > maximum ==> (bounded_read(
            is_file,
            length,
            content,
            maximum,
        )->Err_0).code == "RESOURCE_LIMIT_EXCEEDED"@,
{
}

}
