//! Paths that stay inside a project.
use vstd::prelude::*;

use crate::error::{error, error_view, AppError, ErrorView};
use crate::search::{has_char, split, split_text, texts};
use crate::text::{byte_len, from_chars, join2, to_chars, utf8_len};

verus! {

/// Whether a path has to be there already.
#[derive(Clone, Copy, Debug, PartialEq, Eq, Structural)]
pub enum PathOperation {
    Existing,
    Create,
}

/// The names that a path consists of; empty parts and single dots name nothing.
pub open spec fn named_parts(parts: Seq<Seq<char>>) -> Seq<Seq<char>>
    decreases parts.len(),
{
    if parts.len() == 0 {
        Seq::empty()
    } else if parts.last().len() == 0 || parts.last() == "."@ {
        named_parts(parts.drop_last())
    } else {
        named_parts(parts.drop_last()).push(parts.last())
    }
}

pub open spec fn path_names(path: Seq<char>) -> Seq<Seq<char>> {
    named_parts(split(path, '/'))
}

/// A part of the path leads upwards.
pub open spec fn leads_up(path: Seq<char>) -> bool {
    path_names(path).contains(".."@)
}

/// A path that starts with the letter of a drive.
pub open spec fn names_drive(path: Seq<char>) -> bool {
    path.len() >= 2 && ('a' <= path[0] <= 'z' || 'A' <= path[0] <= 'Z') && path[1] == ':'
}

/// A path that starts with a server and what it shares.
pub open spec fn names_share(path: Seq<char>) -> bool {
    path.len() > 2 && path[0] == '/' && path[1] == '/' && {
        let parts = split(path.skip(2), '/');
        parts.len() >= 2 && parts[0].len() > 0 && parts[1].len() > 0
    }
}

/// A path that does not depend on where it is looked up. Where a backslash separates
/// names, it takes a drive and its root for that, or a share.
pub open spec fn is_absolute(path: Seq<char>, separator: char) -> bool {
    if separator == '\\' {
        names_drive(path) && path.len() > 2 && path[2] == '/' || names_share(path)
    } else {
        path.len() > 0 && path[0] == '/'
    }
}

/// A path that starts at a root or a drive, absolute or not.
pub open spec fn leaves_directory(path: Seq<char>, separator: char) -> bool {
    path.len() > 0 && path[0] == '/' || separator == '\\' && names_drive(path)
}

fn collect_names(path: &str) -> (names: Vec<String>)
    ensures
        texts(names@) == path_names(path@),
{
    let parts = split_text(path, '/');
    let ghost all = texts(parts@);
    let mut names: Vec<String> = Vec::new();
    let mut i: usize = 0;
    proof {
        assert(texts(names@) =~= Seq::empty());
    }
    while i < parts.len()
        invariant
            i <= parts@.len(),
            all == texts(parts@),
            texts(names@) == named_parts(all.take(i as int)),
        decreases parts.len() - i,
    {
        proof {
            assert(all.take(i + 1).drop_last() =~= all.take(i as int));
            assert(all.take(i + 1).last() == parts@[i as int]@);
        }
        let ghost before = texts(names@);
        let part = parts[i].as_str();
        if !part.is_empty() && !part.eq(".") {
            names.push(parts[i].clone());
            proof {
                assert(texts(names@) =~= before.push(parts@[i as int]@));
            }
        }
        i += 1;
    }
    proof {
        assert(all.take(i as int) =~= all);
    }
    names
}

fn any_upward(names: &Vec<String>) -> (r: bool)
    ensures
        r == texts(names@).contains(".."@),
{
    let mut i: usize = 0;
    while i < names.len()
        invariant
            i <= names@.len(),
            forall|j: int| 0 <= j < i ==> texts(names@)[j] != ".."@,
        decreases names.len() - i,
    {
        if names[i].as_str().eq("..") {
            proof {
                assert(texts(names@)[i as int] == ".."@);
            }
            return true;
        }
        i += 1;
    }
    false
}

fn starts_with_drive(chars: &Vec<char>) -> (r: bool)
    ensures
        r == names_drive(chars@),
{
    chars.len() >= 2 && ('a' <= chars[0] && chars[0] <= 'z' || 'A' <= chars[0] && chars[0] <= 'Z')
        && chars[1] == ':'
}

fn starts_with_share(chars: &Vec<char>) -> (r: bool)
    ensures
        r == names_share(chars@),
{
    if chars.len() <= 2 || chars[0] != '/' || chars[1] != '/' {
        return false;
    }
    let rest = from_chars(chars, 2, chars.len());
    proof {
        assert(rest@ =~= chars@.skip(2));
    }
    let parts = split_text(rest.as_str(), '/');
    proof {
        assert(texts(parts@).len() == parts@.len());
        if parts@.len() >= 2 {
            assert(texts(parts@)[0] == parts@[0]@);
            assert(texts(parts@)[1] == parts@[1]@);
        }
    }
    parts.len() >= 2 && !parts[0].as_str().is_empty() && !parts[1].as_str().is_empty()
}

pub(crate) fn starts_absolute(path: &str, separator: char) -> (r: bool)
    ensures
        r == is_absolute(path@, separator),
{
    let chars = to_chars(path);
    if separator == '\\' {
        starts_with_drive(&chars) && chars.len() > 2 && chars[2] == '/' || starts_with_share(&chars)
    } else {
        chars.len() > 0 && chars[0] == '/'
    }
}

fn starts_elsewhere(path: &str, separator: char) -> (r: bool)
    ensures
        r == leaves_directory(path@, separator),
{
    let chars = to_chars(path);
    chars.len() > 0 && chars[0] == '/' || separator == '\\' && starts_with_drive(&chars)
}

/// Why a path that a user gave is refused before anything is looked at.
pub open spec fn path_refusal(path: Seq<char>, separator: char) -> Option<ErrorView> {
    if path.len() == 0 || utf8_len(path) > 4096 || path.contains('\0') {
        Some(error_view("PATH_OUTSIDE_WORKSPACE", "path is empty or too long"))
    } else if path.contains('\\') {
        Some(
            error_view(
                "PATH_OUTSIDE_WORKSPACE",
                "backslash and Windows/UNC paths are not accepted",
            ),
        )
    } else if is_absolute(path, separator) {
        Some(error_view("PATH_OUTSIDE_WORKSPACE", "absolute paths are not accepted"))
    } else if leaves_directory(path, separator) || leads_up(path) {
        Some(error_view("PATH_OUTSIDE_WORKSPACE", "path traversal is not accepted"))
    } else {
        None
    }
}

/// The names of a path that a user gave, where `separator` stands between the names
/// of the machine's own paths.
pub fn lexical_names(path: &str, separator: char) -> (result: Result<Vec<String>, AppError>)
    ensures
        match result {
            Ok(names) => path_refusal(path@, separator) is None && texts(names@) == path_names(path@),
            Err(e) => path_refusal(path@, separator) == Some(e@),
        },
{
    if path.is_empty() || byte_len(path) > 4096 || has_char(path, '\0') {
        return Err(error("PATH_OUTSIDE_WORKSPACE", "path is empty or too long"));
    }
    if has_char(path, '\\') {
        return Err(
            error(
                "PATH_OUTSIDE_WORKSPACE",
                "backslash and Windows/UNC paths are not accepted",
            ),
        );
    }
    if starts_absolute(path, separator) {
        return Err(error("PATH_OUTSIDE_WORKSPACE", "absolute paths are not accepted"));
    }
    let names = collect_names(path);
    if starts_elsewhere(path, separator) || any_upward(&names) {
        return Err(error("PATH_OUTSIDE_WORKSPACE", "path traversal is not accepted"));
    }
    Ok(names)
}

/// Why a path is refused where every name is opened in turn.
pub open spec fn components_refusal(path: Seq<char>) -> Option<ErrorView> {
    if path.len() == 0 || utf8_len(path) > 4096 || path.contains('\0') || path.contains('\\') {
        Some(error_view("PATH_OUTSIDE_WORKSPACE", "invalid relative path"))
    } else if is_absolute(path, '/') {
        Some(error_view("PATH_OUTSIDE_WORKSPACE", "absolute paths are not accepted"))
    } else if leads_up(path) {
        Some(error_view("PATH_OUTSIDE_WORKSPACE", "path traversal is not accepted"))
    } else if path_names(path).len() == 0 {
        Some(error_view("PATH_OUTSIDE_WORKSPACE", "path is empty"))
    } else {
        None
    }
}

/// The names of a path, of which there is at least one: each but the last is
/// that of a directory.
pub fn components(path: &str) -> (result: Result<Vec<String>, AppError>)
    ensures
        match result {
            Ok(names) => components_refusal(path@) is None && texts(names@) == path_names(path@)
                && names@.len() > 0,
            Err(e) => components_refusal(path@) == Some(e@),
        },
{
    if path.is_empty() || byte_len(path) > 4096 || has_char(path, '\0') || has_char(path, '\\') {
        return Err(error("PATH_OUTSIDE_WORKSPACE", "invalid relative path"));
    }
    if starts_absolute(path, '/') {
        return Err(error("PATH_OUTSIDE_WORKSPACE", "absolute paths are not accepted"));
    }
    let names = collect_names(path);
    if any_upward(&names) {
        return Err(error("PATH_OUTSIDE_WORKSPACE", "path traversal is not accepted"));
    }
    if names.len() == 0 {
        return Err(error("PATH_OUTSIDE_WORKSPACE", "path is empty"));
    }
    proof {
        assert(texts(names@).len() == names@.len());
    }
    Ok(names)
}

/// No name of an accepted path leads upwards, is empty or holds a separator.
pub proof fn accepted_names_stay_inside(path: Seq<char>, separator: char, i: int)
    requires
        path_refusal(path, separator) is None || components_refusal(path) is None,
        0 <= i < path_names(path).len(),
    ensures
        path_names(path)[i] != ".."@,
        path_names(path)[i] != "."@,
        path_names(path)[i].len() > 0,
        !path_names(path)[i].contains('/'),
{
    lemma_named_parts(split(path, '/'));
    lemma_split_parts(path, '/');
    let name = path_names(path)[i];
    assert(split(path, '/').contains(name));
    let k = choose|k: int| 0 <= k < split(path, '/').len() && split(path, '/')[k] == name;
    assert(!split(path, '/')[k].contains('/'));
    if name == ".."@ {
        assert(path_names(path).contains(".."@));
    }
}

proof fn lemma_named_parts(parts: Seq<Seq<char>>)
    ensures
        forall|i: int|
            0 <= i < named_parts(parts).len() ==> parts.contains(#[trigger] named_parts(parts)[i])
                && named_parts(parts)[i].len() > 0 && named_parts(parts)[i] != "."@,
    decreases parts.len(),
{
    if parts.len() > 0 {
        let rest = parts.drop_last();
        lemma_named_parts(rest);
        let names = named_parts(parts);
        let before = named_parts(rest);
        assert forall|i: int| 0 <= i < names.len() implies parts.contains(#[trigger] names[i])
            && names[i].len() > 0 && names[i] != "."@ by {
            if i < before.len() {
                assert(names[i] == before[i]);
                assert(rest.contains(before[i]));
                let k = choose|k: int| 0 <= k < rest.len() && rest[k] == before[i];
                assert(parts[k] == names[i]);
            } else {
                assert(names[i] == parts[parts.len() - 1]);
            }
        }
    }
}

proof fn lemma_split_parts(text: Seq<char>, c: char)
    ensures
        split(text, c).len() > 0,
        forall|i: int|
            0 <= i < split(text, c).len() ==> !(#[trigger] split(text, c)[i]).contains(c),
    decreases text.len(),
{
    if text.len() > 0 {
        let rest = text.drop_last();
        lemma_split_parts(rest, c);
        let before = split(rest, c);
        let parts = split(text, c);
        assert forall|i: int| 0 <= i < parts.len() implies !(#[trigger] parts[i]).contains(c) by {
            if i < before.len() - 1 {
                assert(parts[i] == before[i]);
            } else if text.last() == c {
                if i == before.len() - 1 {
                    assert(parts[i] == before[i]);
                }
            } else {
                let grown = before.last().push(text.last());
                assert(parts[i] == grown);
                assert(!before[before.len() - 1].contains(c));
                if grown.contains(c) {
                    let k = choose|k: int| 0 <= k < grown.len() && grown[k] == c;
                    if k < before.last().len() {
                        assert(before.last()[k] == c);
                    }
                }
            }
        }
    } else {
        assert(!Seq::<char>::empty().contains(c));
    }
}

/// A directory's path as the start of the paths in it.
pub open spec fn as_prefix(root: Seq<char>, separator: char) -> Seq<char> {
    if root.len() > 0 && (root.last() == '/' || root.last() == separator) {
        root
    } else {
        root.push(separator)
    }
}

/// A path with one kind of separator.
pub open spec fn unified(path: Seq<char>, separator: char) -> Seq<char> {
    path.map_values(
        |c: char|
            if c == separator {
                '/'
            } else {
                c
            },
    )
}

/// What a path consists of: the root where it starts there, or a dot in front, and then
/// its names. Doubled separators, further dots and separators at the end are nothing.
pub open spec fn path_components(path: Seq<char>, separator: char) -> Seq<Seq<char>> {
    let plain = unified(path, separator);
    if plain.len() > 0 && plain[0] == '/' {
        seq!["/"@] + path_names(plain)
    } else if split(plain, '/')[0] == "."@ {
        seq!["."@] + path_names(plain)
    } else {
        path_names(plain)
    }
}

/// `path` is `root`, or stands in it, by the components of both.
pub open spec fn within(path: Seq<char>, root: Seq<char>, separator: char) -> bool {
    path_components(root, separator).is_prefix_of(path_components(path, separator))
}

pub(crate) fn unify(path: &str, separator: char) -> (plain: String)
    ensures
        plain@ == unified(path@, separator),
{
    let chars = to_chars(path);
    let mut plain = String::new();
    let mut i: usize = 0;
    while i < chars.len()
        invariant
            i <= chars@.len(),
            plain@ == unified(chars@.take(i as int), separator),
        decreases chars.len() - i,
    {
        let ghost before = plain@;
        plain.push(
            if chars[i] == separator {
                '/'
            } else {
                chars[i]
            },
        );
        i += 1;
        proof {
            assert(plain@ =~= unified(chars@.take(i as int), separator));
        }
    }
    proof {
        assert(chars@.take(i as int) =~= chars@);
    }
    plain
}

pub fn list_components(path: &str, separator: char) -> (list: Vec<String>)
    ensures
        texts(list@) == path_components(path@, separator),
{
    let plain = unify(path, separator);
    let names = collect_names(plain.as_str());
    let parts = split_text(plain.as_str(), '/');
    proof {
        lemma_split_parts(plain@, '/');
        assert(texts(parts@).len() == parts@.len());
        assert(texts(parts@)[0] == parts@[0]@);
    }
    let mut list: Vec<String> = Vec::new();
    if starts_elsewhere(plain.as_str(), '/') {
        list.push("/".to_owned());
    } else if parts[0].as_str().eq(".") {
        list.push(".".to_owned());
    }
    let ghost first = texts(list@);
    let ghost all = texts(names@);
    let mut i: usize = 0;
    proof {
        assert(first =~= first + all.take(0));
    }
    while i < names.len()
        invariant
            i <= names@.len(),
            all == texts(names@),
            texts(list@) == first + all.take(i as int),
        decreases names.len() - i,
    {
        let ghost before = texts(list@);
        list.push(names[i].clone());
        i += 1;
        proof {
            assert(texts(list@) =~= before.push(all[i - 1]));
            assert(first + all.take(i as int) =~= (first + all.take(i - 1)).push(all[i - 1]));
        }
    }
    proof {
        assert(all.take(i as int) =~= all);
        let plain_path = unified(path@, separator);
        if plain_path.len() > 0 && plain_path[0] == '/' {
            assert(first =~= seq!["/"@]);
        } else if split(plain_path, '/')[0] == "."@ {
            assert(first =~= seq!["."@]);
        } else {
            assert(first =~= Seq::empty());
        }
        assert(texts(list@) =~= path_components(path@, separator));
    }
    list
}

/// The lists agree as far as the shorter one goes.
pub(crate) fn starts_alike(list: &Vec<String>, start: &Vec<String>) -> (r: bool)
    ensures
        r == texts(start@).is_prefix_of(texts(list@)),
{
    if start.len() > list.len() {
        return false;
    }
    let mut i: usize = 0;
    while i < start.len()
        invariant
            i <= start@.len() <= list@.len(),
            forall|j: int| 0 <= j < i ==> texts(start@)[j] == texts(list@)[j],
        decreases start.len() - i,
    {
        if !start[i].as_str().eq(list[i].as_str()) {
            proof {
                assert(texts(start@)[i as int] != texts(list@)[i as int]);
            }
            return false;
        }
        i += 1;
    }
    proof {
        assert(texts(start@) =~= texts(list@).subrange(0, texts(start@).len() as int));
    }
    true
}

fn root_prefix(root: &str, separator: char) -> (prefix: String)
    ensures
        prefix@ == as_prefix(root@, separator),
{
    let chars = to_chars(root);
    let mut prefix = root.to_owned();
    if chars.len() == 0 || (chars[chars.len() - 1] != '/' && chars[chars.len() - 1] != separator) {
        prefix.push(separator);
    }
    prefix
}

pub fn is_within(path: &str, root: &str, separator: char) -> (r: bool)
    ensures
        r == within(path@, root@, separator),
{
    starts_alike(&list_components(path, separator), &list_components(root, separator))
}

/// The path of a name in a directory.
pub open spec fn child_path(parent: Seq<char>, name: Seq<char>, separator: char) -> Seq<char> {
    as_prefix(parent, separator) + name
}

fn join_child(parent: &str, name: &str, separator: char) -> (path: String)
    ensures
        path@ == child_path(parent@, name@, separator),
{
    join2(root_prefix(parent, separator).as_str(), name)
}

/// What stands at a path that was looked at.
pub enum PathFact {
    Missing,
    Symlink,
    /// Something that is no symbolic link, with its canonical path.
    Present(String),
    Failed(AppError),
}

/// A path below a canonical root, followed name by name.
pub struct PathWalk {
    pub root: String,
    pub user_path: String,
    /// What stands between the names of a canonical path.
    pub separator: char,
    pub names: Vec<String>,
    pub index: usize,
    pub current: String,
}

impl PathWalk {
    /// The walk has not left the root, nor run past its names.
    pub open spec fn inside(self) -> bool {
        self.index <= self.names@.len() && within(self.current@, self.root@, self.separator)
    }

    /// Start at the root.
    pub fn start(root: &str, user_path: &str, separator: char) -> (result: Result<PathWalk, AppError>)
        ensures
            match result {
                Ok(walk) => path_refusal(user_path@, separator) is None && walk.inside()
                    && walk.root@ == root@ && walk.user_path@ == user_path@ && walk.separator
                    == separator && texts(walk.names@) == path_names(user_path@)
                    && walk.index == 0 && walk.current@ == root@,
                Err(e) => path_refusal(user_path@, separator) == Some(e@),
            },
    {
        match lexical_names(user_path, separator) {
            Ok(names) => Ok(
                PathWalk {
                    root: root.to_owned(),
                    user_path: user_path.to_owned(),
                    separator,
                    names,
                    index: 0,
                    current: root.to_owned(),
                },
            ),
            Err(e) => Err(e),
        }
    }

    /// The path to be looked at next, if there is one.
    pub fn next_path(&self) -> (path: Option<String>)
        ensures
            match path {
                Some(path) => self.index < self.names@.len() && path@ == child_path(
                    self.current@,
                    texts(self.names@)[self.index as int],
                    self.separator,
                ),
                None => self.index >= self.names@.len(),
            },
    {
        if self.index < self.names.len() {
            Some(
                join_child(
                    self.current.as_str(),
                    self.names[self.index].as_str(),
                    self.separator,
                ),
            )
        } else {
            None
        }
    }

    /// Go on by one name, given what stands at its path. A missing path ends
    /// the walk, with the rest of the names behind it.
    pub fn step(&mut self, fact: PathFact, operation: PathOperation) -> (result: Result<(), AppError>)
        requires
            old(self).inside(),
            old(self).index < old(self).names@.len(),
        ensures
            final(self).inside(),
            final(self).root == old(self).root,
            final(self).names == old(self).names,
            final(self).user_path == old(self).user_path,
            final(self).separator == old(self).separator,
            match step_outcome(*old(self), fact, operation) {
                Ok((current, index)) => result is Ok && final(self).current@ == current
                    && final(self).index == index,
                Err(e) => result is Err && result->Err_0@ == e && *final(self) == *old(self),
            },
    {
        match fact {
            PathFact::Symlink => Err(
                AppError::new(
                    "SYMLINK_ESCAPE",
                    join2("symlink component rejected: ", self.user_path.as_str()),
                ),
            ),
            PathFact::Failed(e) => Err(e),
            PathFact::Present(canonical) => {
                if !is_within(canonical.as_str(), self.root.as_str(), self.separator) {
                    return Err(
                        error("PATH_OUTSIDE_WORKSPACE", "canonical path escaped the project"),
                    );
                }
                let count = self.names.len();
                self.current = canonical;
                if self.index < count {
                    self.index = self.index + 1;
                }
                Ok(())
            },
            PathFact::Missing => {
                if operation == PathOperation::Existing {
                    return Err(
                        AppError::new(
                            "FILE_NOT_FOUND",
                            join2(self.user_path.as_str(), " does not exist"),
                        ),
                    );
                }
                let ghost all = texts(self.names@);
                let mut path = self.current.clone();
                let mut i: usize = self.index;
                while i < self.names.len()
                    invariant
                        self.index <= i <= self.names@.len(),
                        *self == *old(self),
                        all == texts(self.names@),
                        within(path@, self.root@, self.separator),
                        appended(self.current@, all, self.index as int, self.separator)
                            == appended(path@, all, i as int, self.separator),
                    decreases self.names.len() - i,
                {
                    proof {
                        lemma_child_within(path@, all[i as int], self.root@, self.separator);
                    }
                    path = join_child(path.as_str(), self.names[i].as_str(), self.separator);
                    i += 1;
                }
                self.current = path;
                self.index = self.names.len();
                Ok(())
            },
        }
    }

    /// The path that the walk came to, once it has taken every name.
    pub fn finish(self) -> (path: String)
        requires
            self.inside(),
            self.index == self.names@.len(),
        ensures
            path@ == self.current@,
            within(path@, self.root@, self.separator),
    {
        self.current
    }
}

/// A path with further names behind it.
pub open spec fn appended(
    path: Seq<char>,
    names: Seq<Seq<char>>,
    from: int,
    separator: char,
) -> Seq<char>
    decreases names.len() - from,
{
    if from < 0 || from >= names.len() {
        path
    } else {
        appended(child_path(path, names[from], separator), names, from + 1, separator)
    }
}

/// Where a step of a walk leads: the path, and how many names it took.
pub open spec fn step_outcome(walk: PathWalk, fact: PathFact, operation: PathOperation) -> Result<
    (Seq<char>, int),
    ErrorView,
> {
    fact_outcome(
        walk.root@,
        walk.user_path@,
        walk.separator,
        texts(walk.names@),
        fact,
        operation,
        walk.current@,
        walk.index as int,
    )
}

proof fn lemma_split_joined(a: Seq<char>, b: Seq<char>, c: char)
    ensures
        split(a.push(c) + b, c) == split(a, c) + split(b, c),
    decreases b.len(),
{
    let all = a.push(c) + b;
    if b.len() == 0 {
        assert(all =~= a.push(c));
        assert(all.drop_last() =~= a);
        assert(split(a, c).push(Seq::empty()) =~= split(a, c) + split(b, c));
    } else {
        let rest = b.drop_last();
        lemma_split_joined(a, rest, c);
        lemma_split_parts(rest, c);
        assert(all.drop_last() =~= a.push(c) + rest);
        assert(split(all, c) =~= split(a, c) + split(b, c));
    }
}

proof fn lemma_named_joined(a: Seq<Seq<char>>, b: Seq<Seq<char>>)
    ensures
        named_parts(a + b) == named_parts(a) + named_parts(b),
    decreases b.len(),
{
    if b.len() == 0 {
        assert(a + b =~= a);
        assert(named_parts(a) + named_parts(b) =~= named_parts(a));
    } else {
        lemma_named_joined(a, b.drop_last());
        assert((a + b).drop_last() =~= a + b.drop_last());
        assert((a + b).last() == b.last());
        assert(named_parts(a + b) =~= named_parts(a) + named_parts(b));
    }
}

proof fn lemma_no_names()
    ensures
        path_names(Seq::empty()) == Seq::<Seq<char>>::empty(),
        split(Seq::empty(), '/') == seq![Seq::<char>::empty()],
{
    let parts = split(Seq::<char>::empty(), '/');
    assert(parts =~= seq![Seq::<char>::empty()]);
    assert(parts.drop_last() =~= Seq::<Seq<char>>::empty());
    reveal_with_fuel(named_parts, 2);
}

/// The components of a child are those of its directory, and then those of its name.
proof fn lemma_child_components(path: Seq<char>, name: Seq<char>, separator: char)
    ensures
        within(child_path(path, name, separator), path, separator),
{
    let child = child_path(path, name, separator);
    let u_path = unified(path, separator);
    let u_child = unified(child, separator);
    let u_name = unified(name, separator);
    let ends = path.len() > 0 && (path.last() == '/' || path.last() == separator);
    let p = if ends {
        u_path.drop_last()
    } else {
        u_path
    };
    assert(u_child =~= p.push('/') + u_name);
    lemma_split_joined(p, u_name, '/');
    lemma_named_joined(split(p, '/'), split(u_name, '/'));
    lemma_split_parts(p, '/');
    if ends {
        assert(u_path =~= p.push('/') + Seq::<char>::empty());
        lemma_split_joined(p, Seq::empty(), '/');
        lemma_named_joined(split(p, '/'), split(Seq::<char>::empty(), '/'));
        lemma_no_names();
        assert(path_names(u_path) =~= named_parts(split(p, '/')));
    }
    assert(path_names(u_child) =~= path_names(u_path) + path_names(u_name));
    let a = path_components(path, separator);
    let b = path_components(child, separator);
    if path.len() == 0 {
        reveal_strlit(".");
        lemma_no_names();
        assert(u_path =~= Seq::empty());
        assert(split(u_path, '/')[0].len() == 0);
        assert(a =~= Seq::<Seq<char>>::empty());
        assert(a =~= b.subrange(0, a.len() as int));
    } else {
        assert(u_child[0] == u_path[0]);
        assert(split(u_child, '/')[0] == split(p, '/')[0]);
        assert(split(u_path, '/')[0] == split(p, '/')[0]);
        assert(b =~= a + path_names(u_name));
        assert(a =~= b.subrange(0, a.len() as int));
    }
}

/// What stands in a directory inside the root stands inside the root.
pub proof fn lemma_child_within(
    path: Seq<char>,
    name: Seq<char>,
    root: Seq<char>,
    separator: char,
)
    requires
        within(path, root, separator),
    ensures
        within(child_path(path, name, separator), root, separator),
{
    lemma_child_components(path, name, separator);
    let r = path_components(root, separator);
    let a = path_components(path, separator);
    let b = path_components(child_path(path, name, separator), separator);
    assert(r =~= b.subrange(0, r.len() as int)) by {
        assert(r == a.subrange(0, r.len() as int));
        assert(a == b.subrange(0, a.len() as int));
    }
}

/// Where one fact leads a walk that is at `current`, having taken `index` of
/// the names.
pub open spec fn fact_outcome(
    root: Seq<char>,
    user_path: Seq<char>,
    separator: char,
    names: Seq<Seq<char>>,
    fact: PathFact,
    operation: PathOperation,
    current: Seq<char>,
    index: int,
) -> Result<(Seq<char>, int), ErrorView> {
    match fact {
        PathFact::Symlink => Err(
            ErrorView {
                code: "SYMLINK_ESCAPE"@,
                message: "symlink component rejected: "@ + user_path,
            },
        ),
        PathFact::Failed(e) => Err(e@),
        PathFact::Present(canonical) => if within(canonical@, root, separator) {
            Ok((canonical@, index + 1))
        } else {
            Err(error_view("PATH_OUTSIDE_WORKSPACE", "canonical path escaped the project"))
        },
        PathFact::Missing => if operation == PathOperation::Existing {
            Err(
                ErrorView { code: "FILE_NOT_FOUND"@, message: user_path + " does not exist"@ },
            )
        } else {
            Ok((appended(current, names, index, separator), names.len() as int))
        },
    }
}

/// A path of which not every name was looked at.
pub open spec fn not_followed() -> ErrorView {
    error_view("PROCESS_FAILED", "path was not followed to its end")
}

/// Where a walk leads, given what stands at each path in turn from fact `from` on.
pub open spec fn walked(
    root: Seq<char>,
    user_path: Seq<char>,
    separator: char,
    names: Seq<Seq<char>>,
    facts: Seq<PathFact>,
    from: int,
    operation: PathOperation,
    current: Seq<char>,
    index: int,
) -> Result<Seq<char>, ErrorView>
    decreases facts.len() - from,
{
    if index < 0 || index >= names.len() {
        Ok(current)
    } else if from < 0 || from >= facts.len() {
        Err(not_followed())
    } else {
        match fact_outcome(
            root,
            user_path,
            separator,
            names,
            facts[from],
            operation,
            current,
            index,
        ) {
            Err(e) => Err(e),
            Ok((next, at)) => walked(
                root,
                user_path,
                separator,
                names,
                facts,
                from + 1,
                operation,
                next,
                at,
            ),
        }
    }
}

/// What a path below a canonical root leads to, given what stands at each of
/// its names in turn.
pub open spec fn resolution(
    root: Seq<char>,
    user_path: Seq<char>,
    separator: char,
    facts: Seq<PathFact>,
    operation: PathOperation,
) -> Result<Seq<char>, ErrorView> {
    match path_refusal(user_path, separator) {
        Some(e) => Err(e),
        None => walked(
            root,
            user_path,
            separator,
            path_names(user_path),
            facts,
            0,
            operation,
            root,
            0,
        ),
    }
}

/// Every canonical path that was found is that of the name it was found under: no name
/// stands for another.
pub open spec fn faithful(
    root: Seq<char>,
    names: Seq<Seq<char>>,
    facts: Seq<PathFact>,
    separator: char,
) -> bool {
    forall|i: int|
        0 <= i < facts.len() && i < names.len() && (#[trigger] facts[i]) is Present
            ==> facts[i]->Present_0@ == appended(root, names.take(i + 1), 0, separator)
}

/// How many names were found before the first that was not.
pub open spec fn found_names(facts: Seq<PathFact>, from: int, count: int) -> int
    decreases count - from,
{
    if 0 <= from < count && from < facts.len() && facts[from] is Present {
        found_names(facts, from + 1, count)
    } else {
        from
    }
}

proof fn lemma_appended(root: Seq<char>, names: Seq<Seq<char>>, at: int, from: int, separator: char)
    requires
        0 <= from <= at <= names.len(),
    ensures
        appended(appended(root, names.take(at), from, separator), names, at, separator)
            == appended(root, names, from, separator),
        at < names.len() ==> appended(root, names.take(at + 1), from, separator) == child_path(
            appended(root, names.take(at), from, separator),
            names[at],
            separator,
        ),
    decreases at - from,
{
    if from < at {
        assert(names.take(at)[from] == names[from]);
        if at < names.len() {
            assert(names.take(at + 1)[from] == names[from]);
        }
        lemma_appended(child_path(root, names[from], separator), names, at, from + 1, separator);
    } else if at < names.len() {
        assert(names.take(at + 1)[at] == names[at]);
        assert(appended(
            child_path(root, names[at], separator),
            names.take(at + 1),
            at + 1,
            separator,
        ) == child_path(root, names[at], separator));
    }
}

proof fn lemma_root_within(path: Seq<char>, separator: char)
    ensures
        within(path, path, separator),
{
    let a = path_components(path, separator);
    assert(a =~= a.subrange(0, a.len() as int));
}

/// Where a walk comes to that has found the first `at` names.
proof fn lemma_walked(
    root: Seq<char>,
    user_path: Seq<char>,
    separator: char,
    names: Seq<Seq<char>>,
    facts: Seq<PathFact>,
    operation: PathOperation,
    at: int,
)
    requires
        faithful(root, names, facts, separator),
        0 <= at <= names.len(),
        at <= facts.len(),
        within(appended(root, names.take(at), 0, separator), root, separator),
    ensures
        ({
            let n = found_names(facts, at, names.len() as int);
            let end = walked(
                root,
                user_path,
                separator,
                names,
                facts,
                at,
                operation,
                appended(root, names.take(at), 0, separator),
                at,
            );
            &&& at <= n <= names.len() && n <= facts.len()
            &&& if n == names.len() {
                end == Ok::<Seq<char>, ErrorView>(appended(root, names, 0, separator))
            } else if n == facts.len() {
                end == Err::<Seq<char>, ErrorView>(not_followed())
            } else {
                match fact_outcome(
                    root,
                    user_path,
                    separator,
                    names,
                    facts[n],
                    operation,
                    appended(root, names.take(n), 0, separator),
                    n,
                ) {
                    Ok((path, _)) => end == Ok::<Seq<char>, ErrorView>(path) && path == appended(
                        root,
                        names,
                        0,
                        separator,
                    ),
                    Err(e) => end == Err::<Seq<char>, ErrorView>(e),
                }
            }
        }),
    decreases names.len() - at,
{
    let current = appended(root, names.take(at), 0, separator);
    lemma_appended(root, names, at, 0, separator);
    if at == names.len() {
        assert(names.take(at) =~= names);
    } else if at < facts.len() {
        if facts[at] is Present {
            let next = appended(root, names.take(at + 1), 0, separator);
            assert(facts[at]->Present_0@ == next);
            lemma_child_within(current, names[at], root, separator);
            lemma_walked(root, user_path, separator, names, facts, operation, at + 1);
        } else if facts[at] is Missing && operation == PathOperation::Create {
            reveal_with_fuel(walked, 2);
        }
    }
}

/// A path that is accepted leads to the root followed by its names, and none of those
/// that are there is a symbolic link. A symbolic link is refused as such, whether the
/// path has to be there or not. What may be created is there under the same path, or is
/// not found.
pub proof fn resolved_path_is_root_and_names(
    root: Seq<char>,
    user_path: Seq<char>,
    separator: char,
    facts: Seq<PathFact>,
    operation: PathOperation,
)
    requires
        path_refusal(user_path, separator) is None,
        faithful(root, path_names(user_path), facts, separator),
    ensures
        ({
            let names = path_names(user_path);
            let n = found_names(facts, 0, names.len() as int);
            let existing = resolution(root, user_path, separator, facts, PathOperation::Existing);
            let create = resolution(root, user_path, separator, facts, PathOperation::Create);
            let whole = appended(root, names, 0, separator);
            &&& 0 <= n <= names.len() && n <= facts.len()
            &&& forall|i: int| 0 <= i < n ==> (#[trigger] facts[i]) is Present
            &&& resolution(root, user_path, separator, facts, operation) is Ok ==> resolution(
                root,
                user_path,
                separator,
                facts,
                operation,
            ) == Ok::<Seq<char>, ErrorView>(whole) && (n == names.len() || facts[n] is Missing)
            &&& n < names.len() && n < facts.len() && facts[n] is Symlink ==> create == existing
                && create == Err::<Seq<char>, ErrorView>(
                ErrorView {
                    code: "SYMLINK_ESCAPE"@,
                    message: "symlink component rejected: "@ + user_path,
                },
            )
            &&& create is Ok ==> existing == if n == names.len() {
                Ok::<Seq<char>, ErrorView>(whole)
            } else {
                Err(
                    ErrorView { code: "FILE_NOT_FOUND"@, message: user_path + " does not exist"@ },
                )
            }
        }),
{
    let names = path_names(user_path);
    assert(names.take(0) =~= Seq::empty());
    assert(appended(root, names.take(0), 0, separator) == root);
    lemma_root_within(root, separator);
    lemma_walked(root, user_path, separator, names, facts, PathOperation::Existing, 0);
    lemma_walked(root, user_path, separator, names, facts, PathOperation::Create, 0);
    lemma_found(facts, 0, names.len() as int);
}

proof fn lemma_found(facts: Seq<PathFact>, from: int, count: int)
    requires
        0 <= from,
    ensures
        from <= found_names(facts, from, count),
        forall|i: int|
            from <= i < found_names(facts, from, count) ==> (#[trigger] facts[i]) is Present,
        found_names(facts, from, count) < count && found_names(facts, from, count) < facts.len()
            ==> !(facts[found_names(facts, from, count)] is Present),
    decreases count - from,
{
    if from < count && from < facts.len() && facts[from] is Present {
        lemma_found(facts, from + 1, count);
    }
}

}
