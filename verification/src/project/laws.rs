//! What always holds of conversations and their projects.
use vstd::prelude::*;
use vstd::utf8::encode_utf8;

use crate::digest::sha256_of;
use crate::encoding::base64_url;
use crate::json::{field, JsonView};
use crate::project::layout::layout_paths;
use crate::project::{
    ascii_alphanumeric, binding_request, identity_key, joined_path, native_key, prepared,
    prepared_turn, remembers, resolved, resolved_initialized, subject_key_of, valid_alias,
    valid_key, without_char, ContextView, ResolverView,
};
use crate::request_context::{request_identity, IdentityView, TransportMode};
use crate::search::split;
use crate::text_laws::{first_part_ends_at_the_separator, separator_starts_a_part};
use crate::storage::turn_laws::{
    alias_case_does_not_matter, alias_is_read_back, binding_is_read_back,
};
use crate::storage::turns::{
    alias_project, after_commit, bound_project, colliding_project, commit, project_alias,
};
use crate::text::{lowered, uppered};

verus! {

/// What was prepared of a store is carried out on the same store, or refused for
/// a collision of keys alone: it is never stale.
pub proof fn fresh_preparation_is_not_stale(
    resolver: ResolverView,
    identity: IdentityView,
    alias: Option<Seq<char>>,
    inherited: Option<Seq<char>>,
)
    requires
        prepared(resolver, identity, alias, inherited) is Ok,
    ensures
        ({
            let done = prepared(resolver, identity, alias, inherited)->Ok_0;
            let request = binding_request(done, None, ""@);
            let new_project = done.expected_binding is None && done.expected_alias_binding is None;
            &&& commit(resolver.storage, request).1 is Ok || (new_project
                && colliding_project(
                resolver.storage,
                done.project.effective_project_key,
            ) is Some)
            &&& !new_project ==> commit(resolver.storage, request).1 is Ok
        }),
{
}

/// A conversation that was bound works in the project it was bound to.
pub proof fn initialized_project_is_resolved(
    resolver: ResolverView,
    identity: IdentityView,
    alias: Option<Seq<char>>,
    after: ResolverView,
)
    requires
        prepared(resolver, identity, alias, None) is Ok,
        ({
            let done = prepared(resolver, identity, alias, None)->Ok_0;
            let outcome = commit(resolver.storage, binding_request(done, None, ""@));
            outcome.1 is Ok && after.storage == outcome.0
        }),
        after.workspace_root == resolver.workspace_root,
        after.metadata_root == resolver.metadata_root,
        after.separator == resolver.separator,
    ensures
        ({
            let done = prepared(resolver, identity, alias, None)->Ok_0;
            &&& resolved(after, identity) is Ok
            &&& (resolved(after, identity)->Ok_0).effective_project_key
                == done.project.effective_project_key
            &&& (resolved(after, identity)->Ok_0).project_root == done.project.project_root
        }),
{
    let done = prepared(resolver, identity, alias, None)->Ok_0;
    binding_is_read_back(
        resolver.storage.bindings,
        done.project.native_project_key,
        done.project.effective_project_key,
        done.project.native_project_key,
    );
}

/// Conversations that name the same project, in whatever case, work in the same
/// one: the second joins the first.
pub proof fn same_name_joins_the_same_project(
    resolver: ResolverView,
    first: IdentityView,
    name: Seq<char>,
    after: ResolverView,
    second: IdentityView,
    again: Seq<char>,
)
    requires
        name.len() > 0,
        again.len() > 0,
        valid_alias(again),
        lowered(name) == lowered(again),
        prepared(resolver, first, Some(name), None) is Ok,
        ({
            let done = prepared(resolver, first, Some(name), None)->Ok_0;
            let outcome = commit(resolver.storage, binding_request(done, None, ""@));
            outcome.1 is Ok && after.storage == outcome.0
        }),
    ensures
        ({
            let done = prepared(resolver, first, Some(name), None)->Ok_0;
            &&& prepared(after, second, Some(again), None) is Ok
            &&& (prepared(after, second, Some(again), None)->Ok_0).joined
            &&& (prepared(after, second, Some(again), None)->Ok_0).project.effective_project_key
                == done.project.effective_project_key
        }),
{
    let done = prepared(resolver, first, Some(name), None)->Ok_0;
    let request = binding_request(done, None, ""@);
    let store = resolver.storage;
    if commit(store, request).0 != store {
        alias_is_read_back(store, request, again);
        alias_case_does_not_matter(store.aliases, name, again);
    } else {
        assert(after_commit(store, request).aliases == store.aliases);
        alias_case_does_not_matter(store.aliases, name, again);
        if alias_project(store.aliases, name) is None {
            assert(after_commit(store, request).aliases.len() == store.aliases.len() + 1);
        }
    }
    assert(alias_project(after.storage.aliases, again) == Some(
        done.project.effective_project_key,
    ));
}

/// Which project a conversation is prepared for: the one that the alias names,
/// whatever the conversation is bound to; without such a name the one that it is
/// bound to, else that of the turn that it continues, else a new one under the
/// alias, else its own. An alias that could be none is refused.
#[verifier::rlimit(40)]
pub proof fn project_is_chosen_in_order(
    resolver: ResolverView,
    identity: IdentityView,
    alias: Seq<char>,
    inherited: Option<Seq<char>>,
)
    requires
        alias.len() > 0,
    ensures
        ({
            let native = native_key(identity.openai_subject, identity.openai_conversation_id);
            let bound = bound_project(resolver.storage.bindings, native);
            let named = alias_project(resolver.storage.aliases, alias);
            let with = prepared(resolver, identity, Some(alias), inherited);
            let without = prepared(resolver, identity, None, inherited);
            let empty = prepared(resolver, identity, Some(Seq::empty()), inherited);
            &&& empty == without
            &&& !valid_alias(alias) ==> with is Err && (with->Err_0).code
                == "INVALID_PROJECT_ALIAS"@
            &&& with is Ok ==> {
                let done = with->Ok_0;
                let chosen = done.project.effective_project_key;
                &&& valid_alias(alias) && valid_key(chosen)
                &&& done.project.native_project_key == native
                &&& done.alias == Some(alias)
                &&& done.expected_binding == bound
                &&& done.expected_alias_binding == named
                &&& done.subject_key == subject_key_of(identity.openai_subject)
                &&& named is Some ==> chosen == named->0 && done.joined
                    && done.project.project_alias == project_alias(
                    resolver.storage.aliases,
                    chosen,
                )
                &&& named is None ==> done.project.project_alias == Some(alias)
                &&& named is None && bound is Some ==> chosen == bound->0 && !done.joined
                &&& named is None && bound is None && inherited is Some ==> chosen == inherited->0
                    && done.joined
                &&& named is None && bound is None && inherited is None ==> chosen == alias
                    && !done.joined
                &&& done.reused_existing_binding <==> bound is Some && bound->0 == chosen
            }
            &&& without is Ok ==> {
                let done = without->Ok_0;
                let chosen = done.project.effective_project_key;
                &&& done.alias is None && done.expected_alias_binding is None
                &&& done.project.project_alias == project_alias(resolver.storage.aliases, chosen)
                &&& bound is Some ==> chosen == bound->0 && !done.joined
                    && done.reused_existing_binding
                &&& bound is None && inherited is Some ==> chosen == inherited->0 && done.joined
                    && !done.reused_existing_binding
                &&& bound is None && inherited is None ==> chosen == native && !done.joined
                    && !done.reused_existing_binding
            }
        }),
{
}

/// A turn is continued only by the subject it belongs to; the project that it
/// was in is then the one that is inherited.
pub proof fn turn_hands_on_its_project(
    resolver: ResolverView,
    identity: IdentityView,
    alias: Option<Seq<char>>,
    p: int,
)
    requires
        crate::storage::turn_laws::turns_distinct(resolver.storage.turns),
        0 <= p < resolver.storage.turns.len(),
    ensures
        ({
            let row = resolver.storage.turns[p];
            let done = prepared_turn(resolver, identity, alias, Some(row.turn_ref));
            &&& row.subject_key == subject_key_of(identity.openai_subject) ==> done == prepared(
                resolver,
                identity,
                alias,
                Some(row.effective_key),
            )
            &&& row.subject_key != subject_key_of(identity.openai_subject) ==> done is Err && (
            done->Err_0).code == "TURN_REF_NOT_FOUND"@
            &&& prepared_turn(resolver, identity, alias, None) == prepared(
                resolver,
                identity,
                alias,
                None,
            )
        }),
{
    crate::storage::turn_laws::stored_turn_is_found(resolver.storage.turns, p);
}

/// The project of a conversation is the one that it is bound to, else its own,
/// in directories of the two roots that have the project's key as their name.
pub proof fn project_has_its_directories(resolver: ResolverView, identity: IdentityView)
    requires
        resolved(resolver, identity) is Ok,
        resolver.workspace_root.len() > 0,
        resolver.workspace_root.last() != '/',
        resolver.workspace_root.last() != resolver.separator,
        resolver.metadata_root.len() > 0,
        resolver.metadata_root.last() != '/',
        resolver.metadata_root.last() != resolver.separator,
        resolver.separator == '/' || resolver.separator == '\\',
    ensures
        ({
            let project = resolved(resolver, identity)->Ok_0;
            let key = project.effective_project_key;
            let slash = seq![resolver.separator];
            let bound = bound_project(resolver.storage.bindings, project.native_project_key);
            &&& project.native_project_key == native_key(
                identity.openai_subject,
                identity.openai_conversation_id,
            )
            &&& bound is Some ==> key == bound->0
            &&& bound is None ==> key == project.native_project_key
            &&& valid_key(key)
            &&& project.project_root == resolver.workspace_root + slash + key
            &&& project.metadata_root == resolver.metadata_root + slash + "projects"@ + slash + key
            &&& project.transport_mode == identity.transport_mode
            &&& project.mcp_session_present == (identity.mcp_session_id is Some)
            &&& project.project_alias == project_alias(resolver.storage.aliases, key)
        }),
{
    let project = resolved(resolver, identity)->Ok_0;
    let key = project.effective_project_key;
    let slash = seq![resolver.separator];
    reveal_strlit("projects");
    assert(project.project_root =~= resolver.workspace_root + slash + key);
    assert(project.metadata_root =~= resolver.metadata_root + slash + "projects"@ + slash + key);
}

/// A name in a directory has the directory's path before it and one separator
/// between them.
pub proof fn joined_path_is_root_and_name(root: Seq<char>, name: Seq<char>, separator: char)
    ensures
        root.len() == 0 ==> joined_path(root, name, separator) == name,
        root.len() > 0 && (root.last() == '/' || root.last() == separator) ==> joined_path(
            root,
            name,
            separator,
        ) == root + name,
        root.len() > 0 && root.last() != '/' && root.last() != separator ==> joined_path(
            root,
            name,
            separator,
        ) == root + seq![separator] + name,
{
    if root.len() > 0 && root.last() != '/' && root.last() != separator {
        assert(joined_path(root, name, separator) =~= root + seq![separator] + name);
    }
}

/// A project that was remembered is found without its binding being looked up,
/// and is the one that was remembered.
pub proof fn remembered_project_is_found(
    before: ResolverView,
    after: ResolverView,
    project: ContextView,
    identity: IdentityView,
)
    requires
        remembers(before.cache, after.cache, project),
        project.native_project_key == identity_key(identity),
        valid_key(project.effective_project_key),
    ensures
        resolved_initialized(after, identity) is Ok,
        ({
            let (found, remembered) = resolved_initialized(after, identity)->Ok_0;
            &&& remembered
            &&& found.native_project_key == project.native_project_key
            &&& found.effective_project_key == project.effective_project_key
            &&& found.project_alias == project.project_alias
            &&& found.transport_mode == identity.transport_mode
        }),
{
}

/// A conversation that nothing is remembered of has the project that it is bound
/// to, and without a binding it is told to initialize first.
pub proof fn unbound_conversation_is_not_initialized(
    resolver: ResolverView,
    identity: IdentityView,
)
    requires
        !resolver.cache.contains_key(identity_key(identity)),
    ensures
        ({
            let bound = bound_project(resolver.storage.bindings, identity_key(identity));
            let answer = resolved_initialized(resolver, identity);
            &&& bound is None ==> answer is Err && (answer->Err_0).code == "TURN_NOT_INITIALIZED"@
            &&& bound is Some && valid_key(bound->0) ==> answer is Ok && !(answer->Ok_0).1 && Ok::<
                ContextView,
                crate::error::ErrorView,
            >((answer->Ok_0).0) == resolved(resolver, identity)
            &&& bound is Some && !valid_key(bound->0) ==> answer is Err
        }),
{
}

proof fn lemma_encode_concat(a: Seq<char>, b: Seq<char>)
    ensures
        encode_utf8(a + b) == encode_utf8(a) + encode_utf8(b),
    decreases a.len(),
{
    if a.len() == 0 {
        assert(a + b =~= b);
        assert(encode_utf8(a) =~= Seq::<u8>::empty());
        assert(encode_utf8(a) + encode_utf8(b) =~= encode_utf8(b));
    } else {
        assert((a + b).drop_first() =~= a.drop_first() + b);
        lemma_encode_concat(a.drop_first(), b);
        let first = vstd::utf8::encode_scalar(a[0] as u32);
        assert(encode_utf8(a + b) == first + encode_utf8((a + b).drop_first()));
        assert(encode_utf8(a) == first + encode_utf8(a.drop_first()));
        assert(encode_utf8(a + b) =~= encode_utf8(a) + encode_utf8(b));
    }
}

/// The key of a conversation is the base64 of a digest of one text, its dashes
/// left out: the words "chatgpt", the subject and the conversation with a NUL
/// character between each two. That of a subject is made in the same way.
pub proof fn keys_are_digests_of_one_text(subject: Seq<char>, conversation: Seq<char>)
    ensures
        native_key(subject, conversation) == base64_url(
            sha256_of(encode_utf8("chatgpt\0"@ + subject + "\0"@ + conversation)),
        ).filter(|c: char| c != '-'),
        subject_key_of(subject) == base64_url(
            sha256_of(encode_utf8("chatgpt-subject\0"@ + subject)),
        ).filter(|c: char| c != '-'),
{
    lemma_encode_concat("chatgpt\0"@, subject);
    lemma_encode_concat("chatgpt\0"@ + subject, "\0"@);
    lemma_encode_concat("chatgpt\0"@ + subject + "\0"@, conversation);
    lemma_encode_concat("chatgpt-subject\0"@, subject);
    lemma_without_char(
        base64_url(sha256_of(encode_utf8("chatgpt\0"@ + subject + "\0"@ + conversation))),
        '-',
    );
    lemma_without_char(base64_url(sha256_of(encode_utf8("chatgpt-subject\0"@ + subject))), '-');
    let f = |c: char| c != '-';
}

proof fn lemma_without_char(text: Seq<char>, c: char)
    ensures
        without_char(text, c) == text.filter(|x: char| x != c),
    decreases text.len(),
{
    reveal(Seq::filter);
    if text.len() > 0 {
        lemma_without_char(text.drop_last(), c);
    }
}

/// One of the words that Windows takes for a device, in any case.
pub open spec fn device_word(word: Seq<char>) -> bool {
    let big = uppered(word);
    ||| big == "CON"@
    ||| big == "PRN"@
    ||| big == "AUX"@
    ||| big == "NUL"@
    ||| big.len() == 4 && (big.take(3) == "COM"@ || big.take(3) == "LPT"@) && '1' <= big[3] <= '9'
}

/// No device of Windows is an alias, alone or with whatever ending, nor is what
/// ends in a dot.
pub proof fn devices_are_no_aliases(word: Seq<char>, ending: Seq<char>)
    ensures
        device_word(word) && !word.contains('.') ==> !valid_alias(word) && !valid_alias(
            word.push('.') + ending,
        ),
        !valid_alias(word.push('.')),
        !valid_alias(word.push(' ')),
{
    if device_word(word) && !word.contains('.') {
        separator_starts_a_part(word, '.', word);
        first_part_ends_at_the_separator(word, '.', ending);
        let whole = word.push('.') + ending;
        assert(split(whole, '.')[0] == word);
        assert(split(word, '.')[0] == word);
    }
    assert(word.push('.').last() == '.');
    assert(word.push(' ').last() == ' ');
}

/// A name of letters, digits, dashes and underscores that starts with a letter
/// or digit is an alias, unless it is longer than 128 characters or a device.
pub proof fn plain_names_are_aliases(name: Seq<char>)
    requires
        1 <= name.len() <= 128,
        ascii_alphanumeric(name[0]),
        forall|i: int|
            0 <= i < name.len() ==> ascii_alphanumeric(#[trigger] name[i]) || name[i] == '-'
                || name[i] == '_',
        !device_word(name),
    ensures
        valid_alias(name),
{
    assert(!name.contains('.')) by {
        if name.contains('.') {
            let i = choose|i: int| 0 <= i < name.len() && name[i] == '.';
            assert(ascii_alphanumeric(name[i]) || name[i] == '-' || name[i] == '_');
        }
    }
    separator_starts_a_part(name, '.', name);
    let last = name.len() - 1;
    assert(ascii_alphanumeric(name[last]) || name[last] == '-' || name[last] == '_');
}

/// What is no alias: an empty or too long name, one that starts with a mark, and
/// one that holds anything but letters, digits, dots, dashes and underscores.
pub proof fn odd_names_are_no_aliases(name: Seq<char>, i: int)
    ensures
        name.len() == 0 || name.len() > 128 ==> !valid_alias(name),
        name.len() > 0 && !ascii_alphanumeric(name[0]) ==> !valid_alias(name),
        0 <= i < name.len() && !ascii_alphanumeric(name[i]) && name[i] != '.' && name[i] != '-'
            && name[i] != '_' ==> !valid_alias(name) && !valid_key(name),
{
}

/// The directories of a project are its two roots and five directories in that
/// of its metadata.
pub proof fn layout_is_below_the_roots(project: ContextView, separator: char)
    requires
        project.metadata_root.len() > 0,
        project.metadata_root.last() != '/',
        project.metadata_root.last() != separator,
    ensures
        ({
            let paths = layout_paths(project, separator);
            let below = project.metadata_root + seq![separator];
            &&& paths.len() == 7
            &&& paths[0] == project.project_root
            &&& paths[1] == project.metadata_root
            &&& paths[2] == below + "memory"@
            &&& paths[3] == below + "plans"@
            &&& paths[4] == below + "tmp"@
            &&& paths[5] == below + "home"@
            &&& paths[6] == below + "state"@
        }),
{
    let paths = layout_paths(project, separator);
    let below = project.metadata_root + seq![separator];
    assert(paths[2] =~= below + "memory"@);
    assert(paths[3] =~= below + "plans"@);
    assert(paths[4] =~= below + "tmp"@);
    assert(paths[5] =~= below + "home"@);
    assert(paths[6] =~= below + "state"@);
}

/// Who sends a request is read from its metadata: subject and conversation are
/// both texts that are not empty, else the request is refused for the first that
/// is not. A request over a session says so.
pub proof fn identity_is_read_from_the_metadata(
    meta: JsonView,
    session: Option<Seq<char>>,
    subject: Seq<char>,
    conversation: Seq<char>,
)
    ensures
        field(meta, "openai/subject"@) == Some(JsonView::Text(subject)) && field(
            meta,
            "openai/session"@,
        ) == Some(JsonView::Text(conversation)) && subject.len() > 0 && conversation.len() > 0 ==> {
            let answer = request_identity(meta, session);
            &&& answer is Ok
            &&& (answer->Ok_0).openai_subject == subject
            &&& (answer->Ok_0).openai_conversation_id == conversation
            &&& (answer->Ok_0).mcp_session_id == session
            &&& (answer->Ok_0).transport_mode == TransportMode::LegacySession <==> session is Some
        },
        request_identity(meta, session) is Ok ==> {
            let found = request_identity(meta, session)->Ok_0;
            &&& found.openai_subject.len() > 0 && found.openai_conversation_id.len() > 0
            &&& field(meta, "openai/subject"@) == Some(JsonView::Text(found.openai_subject))
            &&& field(meta, "openai/session"@) == Some(
                JsonView::Text(found.openai_conversation_id),
            )
        },
        field(meta, "openai/subject"@) == Some(JsonView::Text(subject)) && subject.len() > 0
            && field(meta, "openai/session"@) is None ==> request_identity(meta, session) == Err::<
            IdentityView,
            crate::error::ErrorView,
        >(
            crate::error::error_view(
                "INCOMPLETE_OPENAI_CONTEXT",
                "MISSING_OPENAI_SESSION: request metadata must contain openai/session",
            ),
        ),
        field(meta, "openai/subject"@) is None ==> request_identity(meta, session) == Err::<
            IdentityView,
            crate::error::ErrorView,
        >(
            crate::error::error_view(
                "INCOMPLETE_OPENAI_CONTEXT",
                "MISSING_OPENAI_SUBJECT: request metadata must contain openai/subject",
            ),
        ),
{
}

/// A text is the key of a project exactly if it holds nothing but letters, digits, dots,
/// dashes and underscores, and names an entry of a directory.
pub proof fn keys_are_plain_names(text: Seq<char>)
    ensures
        valid_key(text) <==> text.len() > 0 && text != "."@ && text != ".."@ && forall|i: int|
            0 <= i < text.len() ==> 'a' <= #[trigger] text[i] <= 'z' || 'A' <= text[i] <= 'Z'
                || '0' <= text[i] <= '9' || text[i] == '.' || text[i] == '-' || text[i] == '_',
{
    assert forall|c: char| #[trigger] crate::project::key_char(c) == ('a' <= c <= 'z' || 'A' <= c
        <= 'Z' || '0' <= c <= '9' || c == '.' || c == '-' || c == '_') by {}
}

/// A cache of fewer than 4096 projects forgets none when one is remembered. A larger one
/// forgets another, and no more than one.
pub proof fn small_cache_forgets_nothing(
    before: Map<Seq<char>, Seq<Option<Seq<char>>>>,
    after: Map<Seq<char>, Seq<Option<Seq<char>>>>,
    project: ContextView,
    other: Seq<char>,
)
    requires
        remembers(before, after, project),
        other != project.native_project_key,
    ensures
        after.contains_key(project.native_project_key),
        after[project.native_project_key] == seq![
            Some(project.effective_project_key),
            project.project_alias,
        ],
        before.len() < 4096 && before.contains_key(other) ==> after.contains_key(other)
            && after[other] == before[other],
        before.len() >= 4096 && before.contains_key(other) ==> exists|victim: Seq<char>|
            victim != project.native_project_key && #[trigger] before.contains_key(victim)
                && !after.contains_key(victim) && forall|name: Seq<char>|
                name != victim && name != project.native_project_key && #[trigger]
                before.contains_key(name) ==> after.contains_key(name) && after[name]
                    == before[name],
        after.contains_key(other) ==> before.contains_key(other) && after[other] == before[other],
{
    if before.len() >= 4096 && before.contains_key(other) {
        let name = project.native_project_key;
        let record = seq![Some(project.effective_project_key), project.project_alias];
        assert(before.dom().contains(other));
        assert(!before.dom().subset_of(set![name]));
        let victim = choose|victim: Seq<char>|
            victim != name && before.contains_key(victim) && after == #[trigger] before.remove(
                victim,
            ).insert(name, record);
        assert(before.contains_key(victim) && !after.contains_key(victim));
    }
}

}
