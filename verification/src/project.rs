//! Projects: their keys, names and places, and how conversations come to them.
use vstd::prelude::*;
use vstd::utf8::encode_utf8;

use crate::digest::{push_text, sha256, sha256_of};
use crate::encoding::{base64_url, encode_url_safe, sextet, url_safe_char};
use crate::error::{error, error_view, unit_view, AppError, ErrorView};
use crate::request_context::{IdentityView, TransportMode};
use crate::search::{has_char, split, split_text, texts};
use crate::storage::turns::{
    alias_project, bound_project, project_alias, turn_by_ref, CommitView, InitializationView,
};
use crate::storage::{Storage, StorageView};
use crate::table::{bounded_put, records};
use crate::text::{opt_view, to_chars, to_uppered, uppered};

pub mod laws;
pub mod layout;
pub mod resolver;

verus! {

pub const INITIALIZED_CACHE_MAX_ENTRIES: usize = 4096;

pub open spec fn ascii_alphanumeric(c: char) -> bool {
    'a' <= c <= 'z' || 'A' <= c <= 'Z' || '0' <= c <= '9'
}

pub(crate) fn is_ascii_alphanumeric(c: char) -> (r: bool)
    ensures
        r == ascii_alphanumeric(c),
{
    ('a' <= c && c <= 'z') || ('A' <= c && c <= 'Z') || ('0' <= c && c <= '9')
}

/// Characters that a project key may hold.
pub open spec fn key_char(c: char) -> bool {
    ascii_alphanumeric(c) || c == '_' || c == '-' || c == '.'
}

/// A text that can be the key of a project and the name of its directory.
pub open spec fn valid_key(text: Seq<char>) -> bool {
    &&& text.len() > 0
    &&& text != "."@
    &&& text != ".."@
    &&& forall|i: int| 0 <= i < text.len() ==> key_char(#[trigger] text[i])
}

/// The key of a project.
pub struct ProjectKey {
    value: String,
}

impl View for ProjectKey {
    type V = Seq<char>;

    closed spec fn view(&self) -> Seq<char> {
        self.value@
    }
}

pub open spec fn key_error() -> ErrorView {
    error_view("PROJECT_ALIAS_INVALID_STATE", "invalid persisted project key")
}

impl ProjectKey {
    #[verifier::type_invariant]
    closed spec fn valid(self) -> bool {
        valid_key(self.value@)
    }

    pub fn new(value: String) -> (result: Result<ProjectKey, AppError>)
        ensures
            match result {
                Ok(key) => valid_key(value@) && key@ == value@,
                Err(e) => !valid_key(value@) && e@ == key_error(),
            },
    {
        if is_valid_key(value.as_str()) {
            Ok(ProjectKey { value })
        } else {
            Err(error("PROJECT_ALIAS_INVALID_STATE", "invalid persisted project key"))
        }
    }

    pub fn as_str(&self) -> (text: &str)
        ensures
            text@ == self@,
            valid_key(text@),
    {
        proof {
            use_type_invariant(self);
        }
        self.value.as_str()
    }

    pub fn copy(&self) -> (copied: ProjectKey)
        ensures
            copied@ == self@,
    {
        proof {
            use_type_invariant(self);
        }
        ProjectKey { value: self.value.clone() }
    }
}

pub fn is_valid_key(text: &str) -> (r: bool)
    ensures
        r == valid_key(text@),
{
    if text.is_empty() || text.eq(".") || text.eq("..") {
        return false;
    }
    let chars = to_chars(text);
    let mut i: usize = 0;
    while i < chars.len()
        invariant
            i <= chars@.len(),
            chars@ == text@,
            forall|j: int| 0 <= j < i ==> key_char(#[trigger] chars@[j]),
        decreases chars.len() - i,
    {
        let c = chars[i];
        if !(is_ascii_alphanumeric(c) || c == '_' || c == '-' || c == '.') {
            proof {
                assert(!key_char(text@[i as int]));
            }
            return false;
        }
        i += 1;
    }
    true
}

/// A text without the occurrences of a character.
pub open spec fn without_char(text: Seq<char>, c: char) -> Seq<char>
    decreases text.len(),
{
    if text.len() == 0 {
        Seq::empty()
    } else if text.last() == c {
        without_char(text.drop_last(), c)
    } else {
        without_char(text.drop_last(), c).push(text.last())
    }
}

fn remove_char(text: &str, c: char) -> (r: String)
    ensures
        r@ == without_char(text@, c),
{
    let chars = to_chars(text);
    let mut r = String::new();
    let mut i: usize = 0;
    while i < chars.len()
        invariant
            i <= chars@.len(),
            chars@ == text@,
            r@ == without_char(text@.take(i as int), c),
        decreases chars.len() - i,
    {
        proof {
            assert(text@.take(i + 1).drop_last() =~= text@.take(i as int));
        }
        if chars[i] != c {
            r.push(chars[i]);
        }
        i += 1;
    }
    proof {
        assert(text@.take(i as int) =~= text@);
    }
    r
}

/// The key that a digest stands for.
pub open spec fn project_key_text(digest: Seq<u8>) -> Seq<char> {
    without_char(base64_url(digest), '-')
}

/// The key that a digest stands for: URL-safe base64 without its dashes.
pub fn encode_project_key(digest: [u8; 32]) -> (text: String)
    ensures
        text@ == project_key_text(digest@),
{
    remove_char(encode_url_safe(&digest).as_str(), '-')
}

proof fn lemma_without_char(text: Seq<char>, c: char)
    ensures
        forall|i: int|
            0 <= i < without_char(text, c).len() ==> #[trigger] without_char(text, c)[i] != c
                && text.contains(without_char(text, c)[i]),
        text.len() > 0 && text.last() != c ==> without_char(text, c).len() > 0,
    decreases text.len(),
{
    if text.len() > 0 {
        let rest = text.drop_last();
        lemma_without_char(rest, c);
        let before = without_char(rest, c);
        let after = without_char(text, c);
        assert forall|i: int| 0 <= i < after.len() implies #[trigger] after[i] != c
            && text.contains(after[i]) by {
            if i < before.len() {
                assert(after[i] == before[i]);
                assert(rest.contains(before[i]));
                let k = choose|k: int| 0 <= k < rest.len() && rest[k] == before[i];
                assert(text[k] == after[i]);
            } else {
                assert(after[i] == text[text.len() - 1]);
            }
        }
    }
}

proof fn lemma_url_safe_char(v: int)
    requires
        0 <= v < 64,
    ensures
        ascii_alphanumeric(url_safe_char(v)) || url_safe_char(v) == '-' || url_safe_char(v) == '_',
        url_safe_char(v) == '-' ==> v == 62,
{
}

/// The key of every digest is a valid key, of letters, digits and underscores.
pub proof fn derived_key_is_valid(digest: Seq<u8>)
    requires
        digest.len() == 32,
    ensures
        valid_key(project_key_text(digest)),
        forall|i: int|
            0 <= i < project_key_text(digest).len() ==> ascii_alphanumeric(
                #[trigger] project_key_text(digest)[i],
            ) || project_key_text(digest)[i] == '_',
{
    let encoded = base64_url(digest);
    let key = project_key_text(digest);
    lemma_without_char(encoded, '-');
    assert(encoded.len() == 43);
    let last = encoded[42];
    assert(6int * 42 / 8 == 31 && 6int * 42 % 8 == 4);
    let b = digest[31] as int;
    assert(sextet(digest, 42) == (256 * b) / 64 % 64);
    assert((256 * b) / 64 == 4 * b);
    assert(sextet(digest, 42) % 4 == 0);
    lemma_url_safe_char(sextet(digest, 42));
    assert(last != '-');
    assert forall|i: int| 0 <= i < key.len() implies ascii_alphanumeric(#[trigger] key[i]) || key[i]
        == '_' by {
        assert(encoded.contains(key[i]));
        let k = choose|k: int| 0 <= k < encoded.len() && encoded[k] == key[i];
        lemma_url_safe_char(sextet(digest, k));
    }
    reveal_strlit(".");
    reveal_strlit("..");
    assert(key != "."@) by {
        if key == "."@ {
            assert(key[0] == '.');
        }
    }
    assert(key != ".."@) by {
        if key == ".."@ {
            assert(key[0] == '.');
        }
    }
    assert forall|i: int| 0 <= i < key.len() implies key_char(#[trigger] key[i]) by {}
}

/// The key of the project that is a conversation's own.
pub open spec fn native_key(subject: Seq<char>, conversation: Seq<char>) -> Seq<char> {
    project_key_text(
        sha256_of(
            encode_utf8("chatgpt\0"@) + encode_utf8(subject) + encode_utf8("\0"@) + encode_utf8(
                conversation,
            ),
        ),
    )
}

/// The key by which a subject's turns are known.
pub open spec fn subject_key_of(subject: Seq<char>) -> Seq<char> {
    project_key_text(sha256_of(encode_utf8("chatgpt-subject\0"@) + encode_utf8(subject)))
}

/// The key of the project that is a conversation's own. It depends on subject
/// and conversation alone and shows neither.
pub fn derive_native_project_key(subject: &str, conversation: &str) -> (key: ProjectKey)
    ensures
        key@ == native_key(subject@, conversation@),
{
    let mut data: Vec<u8> = Vec::new();
    push_text(&mut data, "chatgpt\0");
    proof {
        assert(data@ =~= encode_utf8("chatgpt\0"@));
    }
    push_text(&mut data, subject);
    push_text(&mut data, "\0");
    push_text(&mut data, conversation);
    let digest = sha256(&data);
    proof {
        derived_key_is_valid(digest@);
    }
    ProjectKey { value: encode_project_key(digest) }
}

pub fn derive_subject_key(subject: &str) -> (key: String)
    ensures
        key@ == subject_key_of(subject@),
{
    let mut data: Vec<u8> = Vec::new();
    push_text(&mut data, "chatgpt-subject\0");
    proof {
        assert(data@ =~= encode_utf8("chatgpt-subject\0"@));
    }
    push_text(&mut data, subject);
    encode_project_key(sha256(&data))
}

/// Texts that have the shape of an alias.
pub open spec fn alias_shape(text: Seq<char>) -> bool {
    &&& 1 <= text.len() <= 128
    &&& ascii_alphanumeric(text[0])
    &&& forall|i: int| 0 <= i < text.len() ==> key_char(#[trigger] text[i])
}

/// `regex::Regex::is_match`, for the pattern of an alias: a letter or digit, and
/// up to 127 letters, digits, dots, underscores and dashes, and nothing else.
#[verifier::external_body]
fn matches_pattern(pattern: &str, text: &str) -> (r: bool)
    requires
        pattern@ == "^[A-Za-z0-9][A-Za-z0-9._-]{0,127}$"@,
    ensures
        r == alias_shape(text@),
{
    regex::Regex::new(pattern).unwrap().is_match(text)
}

/// Device names of Windows, in capital letters.
pub open spec fn device_name(stem: Seq<char>) -> bool {
    ||| stem == "CON"@
    ||| stem == "PRN"@
    ||| stem == "AUX"@
    ||| stem == "NUL"@
    ||| stem.len() == 4 && '1' <= stem[3] <= '9' && (stem.take(3) == "COM"@ || stem.take(3)
        == "LPT"@)
}

/// Names that Windows reserves, or does not tell from another name.
pub open spec fn windows_reserved(alias: Seq<char>) -> bool {
    ||| alias.len() > 0 && (alias.last() == '.' || alias.last() == ' ')
    ||| device_name(uppered(split(alias, '.')[0]))
}

pub fn is_windows_reserved_alias(alias: &str) -> (r: bool)
    ensures
        r == windows_reserved(alias@),
{
    let chars = to_chars(alias);
    if chars.len() > 0 && (chars[chars.len() - 1] == '.' || chars[chars.len() - 1] == ' ') {
        return true;
    }
    let parts = split_text(alias, '.');
    proof {
        crate::search::lemma_split_not_empty(alias@, '.');
        assert(parts@.len() == texts(parts@).len());
        assert(texts(parts@)[0] == parts@[0]@);
    }
    let stem = to_uppered(parts[0].as_str());
    let name = stem.as_str();
    if name.eq("CON") || name.eq("PRN") || name.eq("AUX") || name.eq("NUL") {
        return true;
    }
    let letters = to_chars(name);
    if letters.len() != 4 || letters[3] < '1' || letters[3] > '9' {
        return false;
    }
    let port = crate::text::from_chars(&letters, 0, 3);
    proof {
        assert(letters@.subrange(0, 3) =~= name@.take(3));
    }
    port.as_str().eq("COM") || port.as_str().eq("LPT")
}

/// Names that a project can be given: portable names of one directory.
pub open spec fn valid_alias(alias: Seq<char>) -> bool {
    alias_shape(alias) && !windows_reserved(alias)
}

pub open spec fn alias_error() -> ErrorView {
    error_view(
        "INVALID_PROJECT_ALIAS",
        "alias must match ^[A-Za-z0-9][A-Za-z0-9._-]{0,127}$, cannot be . or .., and must be portable to Windows filesystems",
    )
}

/// Check the name that a project is to be given.
pub fn validate_alias(alias: &str) -> (result: Result<(), AppError>)
    ensures
        unit_view(result) == if valid_alias(alias@) {
            Ok(())
        } else {
            Err(alias_error())
        },
{
    proof {
        reveal_strlit(".");
        reveal_strlit("..");
        lemma_alias_has_no_separator(alias@);
    }
    if !matches_pattern("^[A-Za-z0-9][A-Za-z0-9._-]{0,127}$", alias) || alias.eq(".") || alias.eq(
        "..",
    ) || has_char(alias, '/') || has_char(alias, '\\') || is_windows_reserved_alias(alias) {
        return Err(
            error(
                "INVALID_PROJECT_ALIAS",
                "alias must match ^[A-Za-z0-9][A-Za-z0-9._-]{0,127}$, cannot be . or .., and must be portable to Windows filesystems",
            ),
        );
    }
    Ok(())
}

proof fn lemma_alias_has_no_separator(alias: Seq<char>)
    ensures
        alias_shape(alias) ==> !alias.contains('/') && !alias.contains('\\'),
{
    if alias_shape(alias) {
        if alias.contains('/') {
            let i = choose|i: int| 0 <= i < alias.len() && alias[i] == '/';
            assert(key_char(alias[i]));
        }
        if alias.contains('\\') {
            let i = choose|i: int| 0 <= i < alias.len() && alias[i] == '\\';
            assert(key_char(alias[i]));
        }
    }
}

/// Every alias can be the key of a project.
pub proof fn alias_is_a_key(alias: Seq<char>)
    requires
        valid_alias(alias),
    ensures
        valid_key(alias),
{
    reveal_strlit(".");
    reveal_strlit("..");
    assert(ascii_alphanumeric(alias[0]));
}

/// The path of `name` in the directory `root`.
pub open spec fn joined_path(root: Seq<char>, name: Seq<char>, separator: char) -> Seq<char> {
    if root.len() == 0 {
        name
    } else if root.last() == '/' || root.last() == separator {
        root + name
    } else {
        root.push(separator) + name
    }
}

pub fn join_path(root: &str, name: &str, separator: char) -> (path: String)
    ensures
        path@ == joined_path(root@, name@, separator),
{
    let chars = to_chars(root);
    let mut path = root.to_owned();
    if chars.len() > 0 && chars[chars.len() - 1] != '/' && chars[chars.len() - 1] != separator {
        path.push(separator);
    }
    let ghost start = path@;
    path.append(name);
    proof {
        if root@.len() == 0 {
            assert(start + name@ =~= name@);
        }
    }
    path
}

/// Different names in one directory have different paths.
pub proof fn paths_are_distinct(root: Seq<char>, a: Seq<char>, b: Seq<char>, separator: char)
    requires
        joined_path(root, a, separator) == joined_path(root, b, separator),
    ensures
        a == b,
{
    let start = if root.len() == 0 {
        Seq::empty()
    } else if root.last() == '/' || root.last() == separator {
        root
    } else {
        root.push(separator)
    };
    assert(joined_path(root, a, separator) =~= start + a);
    assert(joined_path(root, b, separator) =~= start + b);
    assert((start + a).skip(start.len() as int) =~= a);
    assert((start + b).skip(start.len() as int) =~= b);
}

/// A project, and the conversation that works in it.
pub struct ProjectContext {
    pub native_project_key: ProjectKey,
    pub effective_project_key: ProjectKey,
    pub project_alias: Option<String>,
    pub project_root: String,
    pub metadata_root: String,
    pub transport_mode: TransportMode,
    pub mcp_session_present: bool,
}

pub struct ContextView {
    pub native_project_key: Seq<char>,
    pub effective_project_key: Seq<char>,
    pub project_alias: Option<Seq<char>>,
    pub project_root: Seq<char>,
    pub metadata_root: Seq<char>,
    pub transport_mode: TransportMode,
    pub mcp_session_present: bool,
}

impl View for ProjectContext {
    type V = ContextView;

    open spec fn view(&self) -> ContextView {
        ContextView {
            native_project_key: self.native_project_key@,
            effective_project_key: self.effective_project_key@,
            project_alias: opt_view(self.project_alias),
            project_root: self.project_root@,
            metadata_root: self.metadata_root@,
            transport_mode: self.transport_mode,
            mcp_session_present: self.mcp_session_present,
        }
    }
}

/// A conversation that is about to be bound to a project.
pub struct PreparedProjectInitialization {
    pub project: ProjectContext,
    pub joined: bool,
    pub reused_existing_binding: bool,
    pub subject_key: String,
    pub alias: Option<String>,
    pub expected_binding: Option<String>,
    pub expected_alias_binding: Option<String>,
}

pub struct PreparedView {
    pub project: ContextView,
    pub joined: bool,
    pub reused_existing_binding: bool,
    pub subject_key: Seq<char>,
    pub alias: Option<Seq<char>>,
    pub expected_binding: Option<Seq<char>>,
    pub expected_alias_binding: Option<Seq<char>>,
}

impl View for PreparedProjectInitialization {
    type V = PreparedView;

    open spec fn view(&self) -> PreparedView {
        PreparedView {
            project: self.project@,
            joined: self.joined,
            reused_existing_binding: self.reused_existing_binding,
            subject_key: self.subject_key@,
            alias: opt_view(self.alias),
            expected_binding: opt_view(self.expected_binding),
            expected_alias_binding: opt_view(self.expected_alias_binding),
        }
    }
}

/// Finds the project of a conversation.
pub struct ProjectResolver {
    pub workspace_root: String,
    pub metadata_root: String,
    pub separator: char,
    pub storage: Storage,
    pub initialized_cache: dashmap::DashMap<String, Vec<Option<String>>>,
}

pub struct ResolverView {
    pub workspace_root: Seq<char>,
    pub metadata_root: Seq<char>,
    pub separator: char,
    pub storage: StorageView,
    pub cache: Map<Seq<char>, Seq<Option<Seq<char>>>>,
}

impl View for ProjectResolver {
    type V = ResolverView;

    open spec fn view(&self) -> ResolverView {
        ResolverView {
            workspace_root: self.workspace_root@,
            metadata_root: self.metadata_root@,
            separator: self.separator,
            storage: self.storage@,
            cache: records(self.initialized_cache),
        }
    }
}

/// The context of a project under a given alias.
pub open spec fn context_named(
    resolver: ResolverView,
    native: Seq<char>,
    effective: Seq<char>,
    alias: Option<Seq<char>>,
    identity: IdentityView,
) -> ContextView {
    ContextView {
        native_project_key: native,
        effective_project_key: effective,
        project_alias: alias,
        project_root: joined_path(resolver.workspace_root, effective, resolver.separator),
        metadata_root: joined_path(
            joined_path(resolver.metadata_root, "projects"@, resolver.separator),
            effective,
            resolver.separator,
        ),
        transport_mode: identity.transport_mode,
        mcp_session_present: identity.mcp_session_id is Some,
    }
}

pub open spec fn context_of(
    resolver: ResolverView,
    native: Seq<char>,
    effective: Seq<char>,
    identity: IdentityView,
) -> Result<ContextView, ErrorView> {
    if valid_key(effective) {
        Ok(
            context_named(
                resolver,
                native,
                effective,
                project_alias(resolver.storage.aliases, effective),
                identity,
            ),
        )
    } else {
        Err(key_error())
    }
}

pub open spec fn identity_key(identity: IdentityView) -> Seq<char> {
    native_key(identity.openai_subject, identity.openai_conversation_id)
}

/// The project of a conversation, its own where it is bound to none.
pub open spec fn resolved(resolver: ResolverView, identity: IdentityView) -> Result<
    ContextView,
    ErrorView,
> {
    let native = identity_key(identity);
    let effective = match bound_project(resolver.storage.bindings, native) {
        Some(key) => key,
        None => native,
    };
    context_of(resolver, native, effective, identity)
}

/// What the cache knows of a conversation.
pub open spec fn cached_project(resolver: ResolverView, identity: IdentityView) -> Option<
    ContextView,
> {
    let native = identity_key(identity);
    if resolver.cache.contains_key(native) {
        let record = resolver.cache[native];
        if record.len() == 2 && record[0] is Some && valid_key(record[0]->0) {
            Some(context_named(resolver, native, record[0]->0, record[1], identity))
        } else {
            None
        }
    } else {
        None
    }
}

/// The project that a conversation was initialized with, and whether it was
/// remembered.
pub open spec fn resolved_initialized(resolver: ResolverView, identity: IdentityView) -> Result<
    (ContextView, bool),
    ErrorView,
> {
    match cached_project(resolver, identity) {
        Some(project) => Ok((project, true)),
        None => match bound_project(resolver.storage.bindings, identity_key(identity)) {
            None => Err(
                error_view(
                    "TURN_NOT_INITIALIZED",
                    "this ChatGPT conversation has no initialized project turn yet; call chatgpt_turn_init first, for example with project_key=\"demo-workspace\"",
                ),
            ),
            Some(effective) => match context_of(
                resolver,
                identity_key(identity),
                effective,
                identity,
            ) {
                Ok(project) => Ok((project, false)),
                Err(e) => Err(e),
            },
        },
    }
}

/// How a conversation is to be bound: to the project that the alias names, else
/// to the one it is bound to, else to that of the turn it continues, else to a
/// new project under the alias, else to its own.
pub open spec fn prepared(
    resolver: ResolverView,
    identity: IdentityView,
    alias: Option<Seq<char>>,
    inherited: Option<Seq<char>>,
) -> Result<PreparedView, ErrorView> {
    let native = identity_key(identity);
    let wanted = match alias {
        Some(name) if name.len() > 0 => Some(name),
        _ => None,
    };
    let bound = bound_project(resolver.storage.bindings, native);
    let named = match wanted {
        Some(name) => alias_project(resolver.storage.aliases, name),
        None => None,
    };
    let effective = match (named, bound, inherited, wanted) {
        (Some(key), _, _, _) => key,
        (None, Some(key), _, _) => key,
        (None, None, Some(key), _) => key,
        (None, None, None, Some(key)) => key,
        (None, None, None, None) => native,
    };
    if wanted is Some && !valid_alias(wanted->0) {
        Err(alias_error())
    } else {
        match context_of(resolver, native, effective, identity) {
            Err(e) => Err(e),
            Ok(project) => Ok(
                PreparedView {
                    project: if named is None && wanted is Some {
                        ContextView { project_alias: wanted, ..project }
                    } else {
                        project
                    },
                    joined: named is Some || (bound is None && inherited is Some),
                    reused_existing_binding: bound == Some(effective),
                    subject_key: subject_key_of(identity.openai_subject),
                    alias: wanted,
                    expected_binding: bound,
                    expected_alias_binding: named,
                },
            ),
        }
    }
}

/// Preparation of a turn that continues another.
pub open spec fn prepared_turn(
    resolver: ResolverView,
    identity: IdentityView,
    alias: Option<Seq<char>>,
    previous: Option<Seq<char>>,
) -> Result<PreparedView, ErrorView> {
    match previous {
        None => prepared(resolver, identity, alias, None),
        Some(turn_ref) => match turn_by_ref(resolver.storage.turns, turn_ref) {
            Some(row) if row.subject_key == subject_key_of(identity.openai_subject) => prepared(
                resolver,
                identity,
                alias,
                Some(row.effective_key),
            ),
            _ => Err(
                error_view(
                    "TURN_REF_NOT_FOUND",
                    "previous_turn_ref does not exist or is not available to this ChatGPT subject",
                ),
            ),
        },
    }
}

pub open spec fn context_answer(result: Result<ProjectContext, AppError>) -> Result<
    ContextView,
    ErrorView,
> {
    match result {
        Ok(project) => Ok(project@),
        Err(e) => Err(e@),
    }
}

pub open spec fn initialized_answer(result: Result<(ProjectContext, bool), AppError>) -> Result<
    (ContextView, bool),
    ErrorView,
> {
    match result {
        Ok((project, flag)) => Ok((project@, flag)),
        Err(e) => Err(e@),
    }
}

pub open spec fn prepared_answer(
    result: Result<PreparedProjectInitialization, AppError>,
) -> Result<PreparedView, ErrorView> {
    match result {
        Ok(done) => Ok(done@),
        Err(e) => Err(e@),
    }
}

/// The request that a preparation makes of the storage.
pub open spec fn binding_request(
    done: PreparedView,
    turn: Option<CommitView>,
    now: Seq<char>,
) -> InitializationView {
    InitializationView {
        native_key: done.project.native_project_key,
        effective_key: done.project.effective_project_key,
        alias: done.alias,
        expected_binding: done.expected_binding,
        expected_alias_binding: done.expected_alias_binding,
        turn,
        now,
    }
}

/// The cache after a project was remembered.
pub open spec fn remembers(
    before: Map<Seq<char>, Seq<Option<Seq<char>>>>,
    after: Map<Seq<char>, Seq<Option<Seq<char>>>>,
    project: ContextView,
) -> bool {
    bounded_put(
        before,
        after,
        project.native_project_key,
        seq![Some(project.effective_project_key), project.project_alias],
        before.len() >= INITIALIZED_CACHE_MAX_ENTRIES,
    )
}

}
