//! Which project a conversation works in, under which names, and its turns.
use vstd::prelude::*;

use crate::error::{error, error_view, AppError, ErrorView};
use crate::storage::{
    AliasRow, AliasView, BindingRow, BindingView, Storage, StorageView, TurnRow, TurnView,
};
use crate::text::{
    is_less, lowered, opt_copy, opt_owned, opt_same, opt_str, opt_str_view, opt_view,
    same_ignoring_case, text_less, to_lowered,
};

verus! {

/// A turn to be added.
#[derive(Clone, Copy)]
pub struct TurnRefCommit<'a> {
    pub turn_ref: &'a str,
    pub parent_turn_ref: Option<&'a str>,
    pub force_full_brief: bool,
    pub instruction_hash: &'a str,
    pub state_hash: &'a str,
    pub subject_key: &'a str,
    pub brief_snapshot: &'a str,
    pub state_snapshot: Option<&'a str>,
}

/// What became of a turn: the turn that now stands, and its parent.
pub struct TurnRefCommitOutcome {
    pub turn_ref: String,
    pub parent_turn_ref: Option<String>,
    pub parent_native_key: Option<String>,
    pub effective_key: String,
    pub project_alias: Option<String>,
    pub parent_instruction_hash: Option<String>,
    pub parent_state_hash: Option<String>,
    pub instruction_hash: String,
    pub state_hash: String,
    pub brief_snapshot: Option<String>,
    pub state_snapshot: Option<String>,
    pub reused_existing_turn: bool,
}

pub struct CommitView {
    pub turn_ref: Seq<char>,
    pub parent_turn_ref: Option<Seq<char>>,
    pub force_full_brief: bool,
    pub instruction_hash: Seq<char>,
    pub state_hash: Seq<char>,
    pub subject_key: Seq<char>,
    pub brief_snapshot: Seq<char>,
    pub state_snapshot: Option<Seq<char>>,
}

pub struct OutcomeView {
    pub turn_ref: Seq<char>,
    pub parent_turn_ref: Option<Seq<char>>,
    pub parent_native_key: Option<Seq<char>>,
    pub effective_key: Seq<char>,
    pub project_alias: Option<Seq<char>>,
    pub parent_instruction_hash: Option<Seq<char>>,
    pub parent_state_hash: Option<Seq<char>>,
    pub instruction_hash: Seq<char>,
    pub state_hash: Seq<char>,
    pub brief_snapshot: Option<Seq<char>>,
    pub state_snapshot: Option<Seq<char>>,
    pub reused_existing_turn: bool,
}

impl<'a> View for TurnRefCommit<'a> {
    type V = CommitView;

    open spec fn view(&self) -> CommitView {
        CommitView {
            turn_ref: self.turn_ref@,
            parent_turn_ref: opt_str_view(self.parent_turn_ref),
            force_full_brief: self.force_full_brief,
            instruction_hash: self.instruction_hash@,
            state_hash: self.state_hash@,
            subject_key: self.subject_key@,
            brief_snapshot: self.brief_snapshot@,
            state_snapshot: opt_str_view(self.state_snapshot),
        }
    }
}

impl View for TurnRefCommitOutcome {
    type V = OutcomeView;

    open spec fn view(&self) -> OutcomeView {
        OutcomeView {
            turn_ref: self.turn_ref@,
            parent_turn_ref: opt_view(self.parent_turn_ref),
            parent_native_key: opt_view(self.parent_native_key),
            effective_key: self.effective_key@,
            project_alias: opt_view(self.project_alias),
            parent_instruction_hash: opt_view(self.parent_instruction_hash),
            parent_state_hash: opt_view(self.parent_state_hash),
            instruction_hash: self.instruction_hash@,
            state_hash: self.state_hash@,
            brief_snapshot: opt_view(self.brief_snapshot),
            state_snapshot: opt_view(self.state_snapshot),
            reused_existing_turn: self.reused_existing_turn,
        }
    }
}

/// The first turn with this reference.
pub open spec fn turn_by_ref(turns: Seq<TurnView>, turn_ref: Seq<char>) -> Option<TurnView>
    decreases turns.len(),
{
    if turns.len() == 0 {
        None
    } else if turns[0].turn_ref == turn_ref {
        Some(turns[0])
    } else {
        turn_by_ref(turns.skip(1), turn_ref)
    }
}

/// The first turn of a conversation that continues `parent`.
pub open spec fn turn_by_parent(
    turns: Seq<TurnView>,
    native_key: Seq<char>,
    parent: Seq<char>,
) -> Option<TurnView>
    decreases turns.len(),
{
    if turns.len() == 0 {
        None
    } else if turns[0].native_key == native_key && turns[0].parent_turn_ref == Some(parent) {
        Some(turns[0])
    } else {
        turn_by_parent(turns.skip(1), native_key, parent)
    }
}

/// The turn of a conversation that was added last.
pub open spec fn latest_turn(turns: Seq<TurnView>, native_key: Seq<char>) -> Option<Seq<char>>
    decreases turns.len(),
{
    if turns.len() == 0 {
        None
    } else if turns.last().native_key == native_key {
        Some(turns.last().turn_ref)
    } else {
        latest_turn(turns.drop_last(), native_key)
    }
}

/// The project that a conversation is bound to.
pub open spec fn bound_project(bindings: Seq<BindingView>, native_key: Seq<char>) -> Option<
    Seq<char>,
>
    decreases bindings.len(),
{
    if bindings.len() == 0 {
        None
    } else if bindings[0].native_key == native_key {
        Some(bindings[0].effective_key)
    } else {
        bound_project(bindings.skip(1), native_key)
    }
}

/// The bindings after a conversation was bound to a project.
pub open spec fn bind(
    bindings: Seq<BindingView>,
    native_key: Seq<char>,
    effective_key: Seq<char>,
) -> Seq<BindingView>
    decreases bindings.len(),
{
    let row = BindingView { native_key, effective_key };
    if bindings.len() == 0 {
        seq![row]
    } else if bindings[0].native_key == native_key {
        seq![row] + bindings.skip(1)
    } else {
        seq![bindings[0]] + bind(bindings.skip(1), native_key, effective_key)
    }
}

/// The project that an alias names, whatever the case of its letters.
pub open spec fn alias_project(aliases: Seq<AliasView>, alias: Seq<char>) -> Option<Seq<char>>
    decreases aliases.len(),
{
    if aliases.len() == 0 {
        None
    } else if lowered(aliases[0].alias) == lowered(alias) {
        Some(aliases[0].effective_key)
    } else {
        alias_project(aliases.skip(1), alias)
    }
}

/// The alias of a project that comes first, whatever the case of its letters.
pub open spec fn project_alias(aliases: Seq<AliasView>, effective_key: Seq<char>) -> Option<
    Seq<char>,
>
    decreases aliases.len(),
{
    if aliases.len() == 0 {
        None
    } else {
        let before = project_alias(aliases.drop_last(), effective_key);
        let row = aliases.last();
        if row.effective_key != effective_key {
            before
        } else {
            match before {
                Some(alias) if !text_less(lowered(row.alias), lowered(alias)) => before,
                _ => Some(row.alias),
            }
        }
    }
}

pub open spec fn binding_collision(bindings: Seq<BindingView>, key: Seq<char>) -> Option<Seq<char>>
    decreases bindings.len(),
{
    if bindings.len() == 0 {
        None
    } else if lowered(bindings[0].effective_key) == lowered(key) {
        Some(bindings[0].effective_key)
    } else {
        binding_collision(bindings.skip(1), key)
    }
}

pub open spec fn alias_collision(aliases: Seq<AliasView>, key: Seq<char>) -> Option<Seq<char>>
    decreases aliases.len(),
{
    if aliases.len() == 0 {
        None
    } else if lowered(aliases[0].effective_key) == lowered(key) {
        Some(aliases[0].effective_key)
    } else {
        alias_collision(aliases.skip(1), key)
    }
}

/// A known project key that a file system could take for `key`.
pub open spec fn colliding_project(store: StorageView, key: Seq<char>) -> Option<Seq<char>> {
    match binding_collision(store.bindings, key) {
        Some(existing) => Some(existing),
        None => alias_collision(store.aliases, key),
    }
}

/// Whether the conversation has any turn.
pub open spec fn has_turn(turns: Seq<TurnView>, native_key: Seq<char>) -> bool {
    exists|i: int| 0 <= i < turns.len() && (#[trigger] turns[i]).native_key == native_key
}

/// The request to bind a conversation, and to add a turn to it.
pub struct InitializationView {
    pub native_key: Seq<char>,
    pub effective_key: Seq<char>,
    pub alias: Option<Seq<char>>,
    pub expected_binding: Option<Seq<char>>,
    pub expected_alias_binding: Option<Seq<char>>,
    pub turn: Option<CommitView>,
    pub now: Seq<char>,
}

/// The turn that the request wants to continue.
pub open spec fn requested_parent(request: InitializationView) -> Option<Seq<char>> {
    match request.turn {
        Some(turn) => turn.parent_turn_ref,
        None => None,
    }
}

/// The turn that already continues the requested parent in this conversation.
pub open spec fn existing_child(store: StorageView, request: InitializationView) -> Option<
    TurnView,
> {
    match requested_parent(request) {
        Some(parent) => turn_by_parent(store.turns, request.native_key, parent),
        None => None,
    }
}

/// Why a turn may not continue `parent`.
pub open spec fn parent_refusal(
    store: StorageView,
    effective_key: Seq<char>,
    subject_key: Seq<char>,
    parent: Seq<char>,
) -> Option<ErrorView> {
    match turn_by_ref(store.turns, parent) {
        None => Some(error_view("TURN_REF_NOT_FOUND", "previous_turn_ref does not exist")),
        Some(row) => if row.effective_key != effective_key {
            Some(
                error_view(
                    "TURN_PROJECT_MISMATCH",
                    "previous_turn_ref belongs to another effective project",
                ),
            )
        } else if row.subject_key != subject_key {
            Some(
                error_view(
                    "TURN_REF_NOT_FOUND",
                    "previous_turn_ref is not available to this ChatGPT subject",
                ),
            )
        } else {
            None
        },
    }
}

pub open spec fn collision_error(effective_key: Seq<char>, existing: Seq<char>) -> ErrorView {
    ErrorView {
        code: "PROJECT_PATH_COLLISION"@,
        message: "new project key `"@ + effective_key + "` collides with existing project key `"@
            + existing + "` on case-insensitive filesystems"@,
    }
}

/// Why the conversation may not be bound as requested.
pub open spec fn binding_refusal(store: StorageView, request: InitializationView) -> Option<
    ErrorView,
> {
    let current = bound_project(store.bindings, request.native_key);
    let alias_now = match request.alias {
        Some(alias) => alias_project(store.aliases, alias),
        None => None,
    };
    if current != request.expected_binding {
        Some(
            error_view(
                "SERVER_BUSY",
                "project initialization changed concurrently; retry initialization",
            ),
        )
    } else if request.turn is Some && requested_parent(request) is None && current is Some
        && has_turn(store.turns, request.native_key) {
        Some(
            error_view(
                "PREVIOUS_TURN_REF_REQUIRED",
                "this conversation already has turn history but no continuity parent was resolved",
            ),
        )
    } else if request.alias is Some && alias_now != request.expected_alias_binding {
        Some(
            error_view("SERVER_BUSY", "project alias changed concurrently; retry initialization"),
        )
    } else if current is None && alias_now is None && requested_parent(request) is None {
        match colliding_project(store, request.effective_key) {
            Some(existing) => Some(collision_error(request.effective_key, existing)),
            None => None,
        }
    } else {
        None
    }
}

/// Why the requested turn may not be added.
pub open spec fn turn_refusal(store: StorageView, request: InitializationView) -> Option<
    ErrorView,
> {
    match request.turn {
        None => None,
        Some(turn) => {
            let wrong_parent = match turn.parent_turn_ref {
                None => None,
                Some(parent) => {
                    let refused = parent_refusal(
                        store,
                        request.effective_key,
                        turn.subject_key,
                        parent,
                    );
                    if refused is Some {
                        refused
                    } else if bound_project(store.bindings, request.native_key) is Some
                        && latest_turn(store.turns, request.native_key) != Some(parent) {
                        Some(
                            error_view(
                                "STALE_TURN_REF",
                                "previous_turn_ref is not the latest turn for this conversation",
                            ),
                        )
                    } else {
                        None
                    }
                },
            };
            if wrong_parent is Some {
                wrong_parent
            } else if turn_by_ref(store.turns, turn.turn_ref) is Some {
                Some(error_view("STORAGE_ERROR", "UNIQUE constraint failed: turn_refs.turn_ref"))
            } else {
                None
            }
        },
    }
}

/// The aliases after the requested one was added, where nothing has it yet.
pub open spec fn with_alias(store: StorageView, request: InitializationView) -> Seq<AliasView> {
    match request.alias {
        Some(alias) if alias_project(store.aliases, alias) is None => store.aliases.push(
            AliasView { alias, effective_key: request.effective_key },
        ),
        _ => store.aliases,
    }
}

/// Whether the reader of a turn has not seen the instructions it is under.
pub open spec fn instructions_changed(
    turn: CommitView,
    native_key: Seq<char>,
    parent: Option<TurnView>,
) -> bool {
    match parent {
        None => true,
        Some(row) => turn.force_full_brief || row.native_key != native_key || row.instruction_hash
            != turn.instruction_hash,
    }
}

pub open spec fn state_changed(
    turn: CommitView,
    native_key: Seq<char>,
    parent: Option<TurnView>,
) -> bool {
    match parent {
        None => true,
        Some(row) => turn.force_full_brief || row.native_key != native_key || row.state_hash
            != turn.state_hash,
    }
}

/// The turn that a request adds behind `parent`. It keeps the whole brief where
/// the instructions changed, and only the state where that alone changed.
pub open spec fn new_turn(
    request: InitializationView,
    turn: CommitView,
    parent: Option<TurnView>,
) -> TurnView {
    let whole = instructions_changed(turn, request.native_key, parent);
    TurnView {
        turn_ref: turn.turn_ref,
        native_key: request.native_key,
        effective_key: request.effective_key,
        subject_key: turn.subject_key,
        parent_turn_ref: turn.parent_turn_ref,
        instruction_hash: turn.instruction_hash,
        state_hash: turn.state_hash,
        brief_snapshot: if whole {
            Some(turn.brief_snapshot)
        } else {
            None
        },
        state_snapshot: if !whole && state_changed(turn, request.native_key, parent) {
            turn.state_snapshot
        } else {
            None
        },
        created_at: request.now,
    }
}

/// The row of the requested parent.
pub open spec fn parent_row(store: StorageView, request: InitializationView) -> Option<TurnView> {
    match requested_parent(request) {
        Some(parent) => turn_by_ref(store.turns, parent),
        None => None,
    }
}

pub open spec fn outcome_of(
    row: TurnView,
    parent: Option<TurnView>,
    alias: Option<Seq<char>>,
    reused: bool,
) -> OutcomeView {
    OutcomeView {
        turn_ref: row.turn_ref,
        parent_turn_ref: row.parent_turn_ref,
        parent_native_key: match parent {
            Some(p) => Some(p.native_key),
            None => None,
        },
        effective_key: row.effective_key,
        project_alias: alias,
        parent_instruction_hash: match parent {
            Some(p) => Some(p.instruction_hash),
            None => None,
        },
        parent_state_hash: match parent {
            Some(p) => Some(p.state_hash),
            None => None,
        },
        instruction_hash: row.instruction_hash,
        state_hash: row.state_hash,
        brief_snapshot: row.brief_snapshot,
        state_snapshot: row.state_snapshot,
        reused_existing_turn: reused,
    }
}

/// What is stored once a request was carried out.
pub open spec fn after_commit(store: StorageView, request: InitializationView) -> StorageView {
    StorageView {
        aliases: with_alias(store, request),
        bindings: bind(store.bindings, request.native_key, request.effective_key),
        turns: match request.turn {
            Some(turn) => store.turns.push(new_turn(request, turn, parent_row(store, request))),
            None => store.turns,
        },
        ..store
    }
}

/// What a request does: the store behind it, and the answer.
///
/// A conversation continues a parent at most once: asked again, it is answered
/// by the turn that stands already.
pub open spec fn commit(store: StorageView, request: InitializationView) -> (
    StorageView,
    Result<Option<OutcomeView>, ErrorView>,
) {
    match (existing_child(store, request), request.turn) {
        (Some(child), Some(turn)) => {
            if child.effective_key != request.effective_key {
                (
                    store,
                    Err(
                        error_view(
                            "TURN_PROJECT_MISMATCH",
                            "previous_turn_ref is already continued by this conversation in another project",
                        ),
                    ),
                )
            } else {
                match parent_refusal(
                    store,
                    request.effective_key,
                    turn.subject_key,
                    requested_parent(request)->0,
                ) {
                    Some(refused) => (store, Err(refused)),
                    None => (
                        store,
                        Ok(
                            Some(
                                outcome_of(
                                    child,
                                    parent_row(store, request),
                                    project_alias(store.aliases, child.effective_key),
                                    true,
                                ),
                            ),
                        ),
                    ),
                }
            }
        },
        _ => match (binding_refusal(store, request), turn_refusal(store, request)) {
            (Some(refused), _) => (store, Err(refused)),
            (None, Some(refused)) => (store, Err(refused)),
            (None, None) => {
                let after = after_commit(store, request);
                (
                    after,
                    Ok(
                        match request.turn {
                            None => None,
                            Some(turn) => Some(
                                outcome_of(
                                    new_turn(request, turn, parent_row(store, request)),
                                    parent_row(store, request),
                                    project_alias(after.aliases, request.effective_key),
                                    false,
                                ),
                            ),
                        },
                    ),
                )
            },
        },
    }
}


fn find_turn<'s>(turns: &'s Vec<TurnRow>, turn_ref: &str) -> (found: Option<&'s TurnRow>)
    ensures
        match found {
            Some(row) => turn_by_ref(turns@.map_values(|row: TurnRow| row@), turn_ref@) == Some(
                row@,
            ),
            None => turn_by_ref(turns@.map_values(|row: TurnRow| row@), turn_ref@) is None,
        },
{
    let ghost rows = turns@.map_values(|row: TurnRow| row@);
    let mut i: usize = 0;
    proof {
        assert(rows.skip(0) =~= rows);
    }
    while i < turns.len()
        invariant
            i <= turns@.len(),
            rows == turns@.map_values(|row: TurnRow| row@),
            turn_by_ref(rows, turn_ref@) == turn_by_ref(rows.skip(i as int), turn_ref@),
        decreases turns.len() - i,
    {
        if turns[i].turn_ref.as_str().eq(turn_ref) {
            return Some(&turns[i]);
        }
        proof {
            assert(rows.skip(i as int).skip(1) =~= rows.skip(i + 1));
        }
        i += 1;
    }
    None
}

fn find_child<'s>(turns: &'s Vec<TurnRow>, native_key: &str, parent: &str) -> (found: Option<
    &'s TurnRow,
>)
    ensures
        match found {
            Some(row) => turn_by_parent(
                turns@.map_values(|row: TurnRow| row@),
                native_key@,
                parent@,
            ) == Some(row@),
            None => turn_by_parent(
                turns@.map_values(|row: TurnRow| row@),
                native_key@,
                parent@,
            ) is None,
        },
{
    let ghost rows = turns@.map_values(|row: TurnRow| row@);
    let mut i: usize = 0;
    proof {
        assert(rows.skip(0) =~= rows);
    }
    while i < turns.len()
        invariant
            i <= turns@.len(),
            rows == turns@.map_values(|row: TurnRow| row@),
            turn_by_parent(rows, native_key@, parent@) == turn_by_parent(
                rows.skip(i as int),
                native_key@,
                parent@,
            ),
        decreases turns.len() - i,
    {
        if turns[i].native_key.as_str().eq(native_key) && opt_same(
            opt_str(&turns[i].parent_turn_ref),
            Some(parent),
        ) {
            return Some(&turns[i]);
        }
        proof {
            assert(rows.skip(i as int).skip(1) =~= rows.skip(i + 1));
        }
        i += 1;
    }
    None
}

fn find_latest<'s>(turns: &'s Vec<TurnRow>, native_key: &str) -> (found: Option<&'s str>)
    ensures
        opt_str_view(found) == latest_turn(turns@.map_values(|row: TurnRow| row@), native_key@),
{
    let ghost rows = turns@.map_values(|row: TurnRow| row@);
    let mut i: usize = turns.len();
    proof {
        assert(rows.take(i as int) =~= rows);
    }
    while i > 0
        invariant
            i <= turns@.len(),
            rows == turns@.map_values(|row: TurnRow| row@),
            latest_turn(rows, native_key@) == latest_turn(rows.take(i as int), native_key@),
        decreases i,
    {
        if turns[i - 1].native_key.as_str().eq(native_key) {
            return Some(turns[i - 1].turn_ref.as_str());
        }
        proof {
            assert(rows.take(i as int).drop_last() =~= rows.take(i - 1));
        }
        i -= 1;
    }
    None
}

fn any_turn(turns: &Vec<TurnRow>, native_key: &str) -> (found: bool)
    ensures
        found == has_turn(turns@.map_values(|row: TurnRow| row@), native_key@),
{
    let ghost rows = turns@.map_values(|row: TurnRow| row@);
    let mut i: usize = 0;
    while i < turns.len()
        invariant
            i <= turns@.len(),
            rows == turns@.map_values(|row: TurnRow| row@),
            forall|j: int| 0 <= j < i ==> (#[trigger] rows[j]).native_key != native_key@,
        decreases turns.len() - i,
    {
        if turns[i].native_key.as_str().eq(native_key) {
            proof {
                assert(rows[i as int].native_key == native_key@);
            }
            return true;
        }
        i += 1;
    }
    false
}

fn find_binding<'s>(bindings: &'s Vec<BindingRow>, native_key: &str) -> (found: Option<&'s str>)
    ensures
        opt_str_view(found) == bound_project(
            bindings@.map_values(|row: BindingRow| row@),
            native_key@,
        ),
{
    let ghost rows = bindings@.map_values(|row: BindingRow| row@);
    let mut i: usize = 0;
    proof {
        assert(rows.skip(0) =~= rows);
    }
    while i < bindings.len()
        invariant
            i <= bindings@.len(),
            rows == bindings@.map_values(|row: BindingRow| row@),
            bound_project(rows, native_key@) == bound_project(rows.skip(i as int), native_key@),
        decreases bindings.len() - i,
    {
        if bindings[i].native_key.as_str().eq(native_key) {
            return Some(bindings[i].effective_key.as_str());
        }
        proof {
            assert(rows.skip(i as int).skip(1) =~= rows.skip(i + 1));
        }
        i += 1;
    }
    None
}

fn set_binding(bindings: &mut Vec<BindingRow>, native_key: &str, effective_key: &str)
    ensures
        final(bindings)@.map_values(|row: BindingRow| row@) == bind(
            old(bindings)@.map_values(|row: BindingRow| row@),
            native_key@,
            effective_key@,
        ),
{
    let ghost rows = bindings@.map_values(|row: BindingRow| row@);
    let row = BindingRow { native_key: native_key.to_owned(), effective_key: effective_key.to_owned() };
    let mut i: usize = 0;
    proof {
        assert(rows.skip(0) =~= rows);
        assert(rows.take(0) + bind(rows.skip(0), native_key@, effective_key@) =~= bind(
            rows,
            native_key@,
            effective_key@,
        ));
    }
    while i < bindings.len()
        invariant
            i <= bindings@.len(),
            *bindings == *old(bindings),
            row@ == (BindingView { native_key: native_key@, effective_key: effective_key@ }),
            rows == bindings@.map_values(|row: BindingRow| row@),
            bind(rows, native_key@, effective_key@) == rows.take(i as int) + bind(
                rows.skip(i as int),
                native_key@,
                effective_key@,
            ),
        decreases bindings.len() - i,
    {
        if bindings[i].native_key.as_str().eq(native_key) {
            bindings.set(i, row);
            proof {
                assert(rows.skip(i as int).skip(1) =~= rows.skip(i + 1));
                assert(bindings@.map_values(|row: BindingRow| row@) =~= rows.take(i as int) + (
                seq![row@] + rows.skip(i + 1)));
            }
            return ;
        }
        proof {
            assert(rows.skip(i as int).skip(1) =~= rows.skip(i + 1));
            let rest = bind(rows.skip(i + 1), native_key@, effective_key@);
            assert(rows.take(i as int) + (seq![rows[i as int]] + rest) =~= rows.take(i + 1) + rest);
        }
        i += 1;
    }
    bindings.push(row);
    proof {
        assert(bindings@.map_values(|row: BindingRow| row@) =~= rows.take(rows.len() as int) + seq![
            row@,
        ]);
    }
}

fn find_alias<'s>(aliases: &'s Vec<AliasRow>, alias: &str) -> (found: Option<&'s str>)
    ensures
        opt_str_view(found) == alias_project(aliases@.map_values(|row: AliasRow| row@), alias@),
{
    let ghost rows = aliases@.map_values(|row: AliasRow| row@);
    let mut i: usize = 0;
    proof {
        assert(rows.skip(0) =~= rows);
    }
    while i < aliases.len()
        invariant
            i <= aliases@.len(),
            rows == aliases@.map_values(|row: AliasRow| row@),
            alias_project(rows, alias@) == alias_project(rows.skip(i as int), alias@),
        decreases aliases.len() - i,
    {
        if same_ignoring_case(aliases[i].alias.as_str(), alias) {
            return Some(aliases[i].effective_key.as_str());
        }
        proof {
            assert(rows.skip(i as int).skip(1) =~= rows.skip(i + 1));
        }
        i += 1;
    }
    None
}

fn first_alias<'s>(aliases: &'s Vec<AliasRow>, effective_key: &str) -> (found: Option<&'s str>)
    ensures
        opt_str_view(found) == project_alias(
            aliases@.map_values(|row: AliasRow| row@),
            effective_key@,
        ),
{
    let ghost rows = aliases@.map_values(|row: AliasRow| row@);
    let mut best: Option<&'s str> = None;
    let mut i: usize = 0;
    while i < aliases.len()
        invariant
            i <= aliases@.len(),
            rows == aliases@.map_values(|row: AliasRow| row@),
            opt_str_view(best) == project_alias(rows.take(i as int), effective_key@),
        decreases aliases.len() - i,
    {
        let row = &aliases[i];
        proof {
            assert(rows.take(i + 1).drop_last() =~= rows.take(i as int));
        }
        if row.effective_key.as_str().eq(effective_key) {
            let better = match best {
                Some(alias) => is_less(
                    to_lowered(row.alias.as_str()).as_str(),
                    to_lowered(alias).as_str(),
                ),
                None => true,
            };
            if better {
                best = Some(row.alias.as_str());
            }
        }
        i += 1;
    }
    proof {
        assert(rows.take(i as int) =~= rows);
    }
    best
}

fn find_collision<'s>(store: &'s Storage, key: &str) -> (found: Option<&'s str>)
    ensures
        opt_str_view(found) == colliding_project(store@, key@),
{
    let ghost rows = store@.bindings;
    let mut i: usize = 0;
    proof {
        assert(rows.skip(0) =~= rows);
    }
    while i < store.bindings.len()
        invariant
            i <= store.bindings@.len(),
            rows == store.bindings@.map_values(|row: BindingRow| row@),
            binding_collision(store@.bindings, key@) == binding_collision(
                rows.skip(i as int),
                key@,
            ),
        decreases store.bindings.len() - i,
    {
        if same_ignoring_case(store.bindings[i].effective_key.as_str(), key) {
            return Some(store.bindings[i].effective_key.as_str());
        }
        proof {
            assert(rows.skip(i as int).skip(1) =~= rows.skip(i + 1));
        }
        i += 1;
    }
    let ghost names = store@.aliases;
    let mut j: usize = 0;
    proof {
        assert(names.skip(0) =~= names);
    }
    while j < store.aliases.len()
        invariant
            j <= store.aliases@.len(),
            names == store.aliases@.map_values(|row: AliasRow| row@),
            binding_collision(store@.bindings, key@) is None,
            alias_collision(store@.aliases, key@) == alias_collision(names.skip(j as int), key@),
        decreases store.aliases.len() - j,
    {
        if same_ignoring_case(store.aliases[j].effective_key.as_str(), key) {
            return Some(store.aliases[j].effective_key.as_str());
        }
        proof {
            assert(names.skip(j as int).skip(1) =~= names.skip(j + 1));
        }
        j += 1;
    }
    None
}


/// Answer to a request, by the views of what it holds.
pub open spec fn answer_view(result: Result<Option<TurnRefCommitOutcome>, AppError>) -> Result<
    Option<OutcomeView>,
    ErrorView,
> {
    match result {
        Ok(Some(outcome)) => Ok(Some(outcome@)),
        Ok(None) => Ok(None),
        Err(e) => Err(e@),
    }
}

pub open spec fn turn_answer_view(result: Result<TurnRefCommitOutcome, AppError>) -> Result<
    Option<OutcomeView>,
    ErrorView,
> {
    match result {
        Ok(outcome) => Ok(Some(outcome@)),
        Err(e) => Err(e@),
    }
}

pub open spec fn turn_view(turn: Option<TurnRefCommit<'_>>) -> Option<CommitView> {
    match turn {
        Some(turn) => Some(turn@),
        None => None,
    }
}

fn owned_outcome(
    row: &TurnRow,
    parent: Option<&TurnRow>,
    alias: Option<&str>,
    reused: bool,
) -> (outcome: TurnRefCommitOutcome)
    ensures
        outcome@ == outcome_of(
            row@,
            match parent {
                Some(p) => Some(p@),
                None => None,
            },
            opt_str_view(alias),
            reused,
        ),
{
    TurnRefCommitOutcome {
        turn_ref: row.turn_ref.clone(),
        parent_turn_ref: opt_copy(&row.parent_turn_ref),
        parent_native_key: match parent {
            Some(p) => Some(p.native_key.clone()),
            None => None,
        },
        effective_key: row.effective_key.clone(),
        project_alias: opt_owned(alias),
        parent_instruction_hash: match parent {
            Some(p) => Some(p.instruction_hash.clone()),
            None => None,
        },
        parent_state_hash: match parent {
            Some(p) => Some(p.state_hash.clone()),
            None => None,
        },
        instruction_hash: row.instruction_hash.clone(),
        state_hash: row.state_hash.clone(),
        brief_snapshot: opt_copy(&row.brief_snapshot),
        state_snapshot: opt_copy(&row.state_snapshot),
        reused_existing_turn: reused,
    }
}

impl Storage {
    fn check_parent(&self, effective_key: &str, subject_key: &str, parent: &str) -> (result: Result<
        &TurnRow,
        AppError,
    >)
        ensures
            match result {
                Ok(row) => parent_refusal(self@, effective_key@, subject_key@, parent@) is None
                    && turn_by_ref(self@.turns, parent@) == Some(row@),
                Err(e) => parent_refusal(self@, effective_key@, subject_key@, parent@) == Some(e@),
            },
    {
        match find_turn(&self.turns, parent) {
            None => Err(error("TURN_REF_NOT_FOUND", "previous_turn_ref does not exist")),
            Some(row) => {
                if !row.effective_key.as_str().eq(effective_key) {
                    Err(
                        error(
                            "TURN_PROJECT_MISMATCH",
                            "previous_turn_ref belongs to another effective project",
                        ),
                    )
                } else if !row.subject_key.as_str().eq(subject_key) {
                    Err(
                        error(
                            "TURN_REF_NOT_FOUND",
                            "previous_turn_ref is not available to this ChatGPT subject",
                        ),
                    )
                } else {
                    Ok(row)
                }
            },
        }
    }

    fn check_binding(
        &self,
        native_key: &str,
        effective_key: &str,
        alias: Option<&str>,
        expected_binding: Option<&str>,
        expected_alias_binding: Option<&str>,
        turn: Option<TurnRefCommit<'_>>,
        Ghost(request): Ghost<InitializationView>,
    ) -> (result: Result<(), AppError>)
        requires
            request.native_key == native_key@,
            request.effective_key == effective_key@,
            request.alias == opt_str_view(alias),
            request.expected_binding == opt_str_view(expected_binding),
            request.expected_alias_binding == opt_str_view(expected_alias_binding),
            request.turn == turn_view(turn),
        ensures
            match result {
                Ok(_) => binding_refusal(self@, request) is None,
                Err(e) => binding_refusal(self@, request) == Some(e@),
            },
    {
        let current = find_binding(&self.bindings, native_key);
        if !opt_same(current, expected_binding) {
            return Err(
                error(
                    "SERVER_BUSY",
                    "project initialization changed concurrently; retry initialization",
                ),
            );
        }
        let fresh = match turn {
            Some(turn) => turn.parent_turn_ref.is_none(),
            None => false,
        };
        if fresh && current.is_some() && any_turn(&self.turns, native_key) {
            return Err(
                error(
                    "PREVIOUS_TURN_REF_REQUIRED",
                    "this conversation already has turn history but no continuity parent was resolved",
                ),
            );
        }
        let alias_now = match alias {
            Some(alias) => find_alias(&self.aliases, alias),
            None => None,
        };
        if alias.is_some() && !opt_same(alias_now, expected_alias_binding) {
            return Err(
                error(
                    "SERVER_BUSY",
                    "project alias changed concurrently; retry initialization",
                ),
            );
        }
        let inherits = match turn {
            Some(turn) => turn.parent_turn_ref.is_some(),
            None => false,
        };
        if current.is_none() && alias_now.is_none() && !inherits {
            if let Some(existing) = find_collision(self, effective_key) {
                let mut message = "new project key `".to_owned();
                message.append(effective_key);
                message.append("` collides with existing project key `");
                message.append(existing);
                message.append("` on case-insensitive filesystems");
                return Err(AppError::new("PROJECT_PATH_COLLISION", message));
            }
        }
        Ok(())
    }

    /// Bind a conversation to a project and, with `turn`, add a turn to it. See
    /// [`commit`].
    pub fn commit_initialization_inner(
        &mut self,
        native_key: &str,
        effective_key: &str,
        alias: Option<&str>,
        expected_binding: Option<&str>,
        expected_alias_binding: Option<&str>,
        turn: Option<TurnRefCommit<'_>>,
        now: &str,
    ) -> (result: Result<Option<TurnRefCommitOutcome>, AppError>)
        ensures
            (final(self)@, answer_view(result)) == commit(
                old(self)@,
                InitializationView {
                    native_key: native_key@,
                    effective_key: effective_key@,
                    alias: opt_str_view(alias),
                    expected_binding: opt_str_view(expected_binding),
                    expected_alias_binding: opt_str_view(expected_alias_binding),
                    turn: turn_view(turn),
                    now: now@,
                },
            ),
    {
        let ghost request = InitializationView {
            native_key: native_key@,
            effective_key: effective_key@,
            alias: opt_str_view(alias),
            expected_binding: opt_str_view(expected_binding),
            expected_alias_binding: opt_str_view(expected_alias_binding),
            turn: turn_view(turn),
            now: now@,
        };
        let ghost store = self@;
        if let Some(turn) = turn {
            if let Some(parent) = turn.parent_turn_ref {
                if let Some(child) = find_child(&self.turns, native_key, parent) {
                    proof {
                        lemma_child_has_parent(store.turns, native_key@, parent@);
                    }
                    if !child.effective_key.as_str().eq(effective_key) {
                        return Err(
                            error(
                                "TURN_PROJECT_MISMATCH",
                                "previous_turn_ref is already continued by this conversation in another project",
                            ),
                        );
                    }
                    return match self.check_parent(effective_key, turn.subject_key, parent) {
                        Err(refused) => Err(refused),
                        Ok(row) => Ok(
                            Some(
                                owned_outcome(
                                    child,
                                    Some(row),
                                    first_alias(&self.aliases, child.effective_key.as_str()),
                                    true,
                                ),
                            ),
                        ),
                    };
                }
            }
        }
        if let Err(refused) = self.check_binding(
            native_key,
            effective_key,
            alias,
            expected_binding,
            expected_alias_binding,
            turn,
            Ghost(request),
        ) {
            return Err(refused);
        }
        let mut added: Option<TurnRow> = None;
        let mut parent_copy: Option<TurnRow> = None;
        if let Some(turn) = turn {
            let mut parent_row: Option<&TurnRow> = None;
            if let Some(parent) = turn.parent_turn_ref {
                match self.check_parent(effective_key, turn.subject_key, parent) {
                    Err(refused) => {
                        return Err(refused);
                    },
                    Ok(row) => {
                        parent_row = Some(row);
                    },
                }
                if find_binding(&self.bindings, native_key).is_some() && !opt_same(
                    find_latest(&self.turns, native_key),
                    Some(parent),
                ) {
                    return Err(
                        error(
                            "STALE_TURN_REF",
                            "previous_turn_ref is not the latest turn for this conversation",
                        ),
                    );
                }
            }
            if find_turn(&self.turns, turn.turn_ref).is_some() {
                return Err(
                    error("STORAGE_ERROR", "UNIQUE constraint failed: turn_refs.turn_ref"),
                );
            }
            let row = build_turn(native_key, effective_key, turn, parent_row, now, Ghost(request));
            parent_copy = match parent_row {
                Some(p) => Some(copy_turn(p)),
                None => None,
            };
            added = Some(row);
        }
        if let Some(alias) = alias {
            if find_alias(&self.aliases, alias).is_none() {
                self.aliases.push(
                    AliasRow { alias: alias.to_owned(), effective_key: effective_key.to_owned() },
                );
            }
        }
        proof {
            assert(self@.aliases =~= with_alias(store, request));
        }
        set_binding(&mut self.bindings, native_key, effective_key);
        match added {
            None => {
                proof {
                    assert(self@ == after_commit(store, request));
                }
                Ok(None)
            },
            Some(row) => {
                let outcome = owned_outcome(
                    &row,
                    match &parent_copy {
                        Some(p) => Some(p),
                        None => None,
                    },
                    first_alias(&self.aliases, effective_key),
                    false,
                );
                self.turns.push(row);
                proof {
                    assert(self@.turns =~= store.turns.push(row@));
                    assert(self@ == after_commit(store, request));
                }
                Ok(Some(outcome))
            },
        }
    }

    /// Bind a conversation to a project without adding a turn.
    pub fn commit_initialization(
        &mut self,
        native_key: &str,
        effective_key: &str,
        alias: Option<&str>,
        expected_binding: Option<&str>,
        expected_alias_binding: Option<&str>,
    ) -> (result: Result<(), AppError>)
        ensures
            ({
                let done = commit(
                    old(self)@,
                    InitializationView {
                        native_key: native_key@,
                        effective_key: effective_key@,
                        alias: opt_str_view(alias),
                        expected_binding: opt_str_view(expected_binding),
                        expected_alias_binding: opt_str_view(expected_alias_binding),
                        turn: None,
                        now: ""@,
                    },
                );
                &&& final(self)@ == done.0
                &&& match result {
                    Ok(_) => done.1 is Ok,
                    Err(e) => done.1 == Err::<Option<OutcomeView>, ErrorView>(e@),
                }
            }),
    {
        match self.commit_initialization_inner(
            native_key,
            effective_key,
            alias,
            expected_binding,
            expected_alias_binding,
            None,
            "",
        ) {
            Ok(_) => Ok(()),
            Err(e) => Err(e),
        }
    }

    /// Bind a conversation to a project and add a turn to it.
    pub fn commit_initialization_with_turn_ref(
        &mut self,
        native_key: &str,
        effective_key: &str,
        alias: Option<&str>,
        expected_binding: Option<&str>,
        expected_alias_binding: Option<&str>,
        turn: TurnRefCommit<'_>,
        now: &str,
    ) -> (result: Result<TurnRefCommitOutcome, AppError>)
        ensures
            (final(self)@, turn_answer_view(result)) == commit(
                old(self)@,
                InitializationView {
                    native_key: native_key@,
                    effective_key: effective_key@,
                    alias: opt_str_view(alias),
                    expected_binding: opt_str_view(expected_binding),
                    expected_alias_binding: opt_str_view(expected_alias_binding),
                    turn: Some(turn@),
                    now: now@,
                },
            ),
    {
        match self.commit_initialization_inner(
            native_key,
            effective_key,
            alias,
            expected_binding,
            expected_alias_binding,
            Some(turn),
            now,
        ) {
            Ok(Some(outcome)) => Ok(outcome),
            Ok(None) => Err(
                error("STORAGE_ERROR", "turn initialization committed without a turn reference"),
            ),
            Err(e) => Err(e),
        }
    }

    pub fn effective_binding(&self, native_key: &str) -> (found: Option<String>)
        ensures
            opt_view(found) == bound_project(self@.bindings, native_key@),
    {
        opt_owned(find_binding(&self.bindings, native_key))
    }

    pub fn alias_for_effective(&self, effective_key: &str) -> (found: Option<String>)
        ensures
            opt_view(found) == project_alias(self@.aliases, effective_key@),
    {
        opt_owned(first_alias(&self.aliases, effective_key))
    }

    pub fn effective_for_alias(&self, alias: &str) -> (found: Option<String>)
        ensures
            opt_view(found) == alias_project(self@.aliases, alias@),
    {
        opt_owned(find_alias(&self.aliases, alias))
    }

    /// The project of a turn, where the turn is one of this subject's.
    pub fn turn_ref_effective_for_subject(&self, turn_ref: &str, subject_key: &str) -> (found:
        Option<String>)
        ensures
            opt_view(found) == match turn_by_ref(self@.turns, turn_ref@) {
                Some(row) if row.subject_key == subject_key@ => Some(row.effective_key),
                _ => None,
            },
    {
        match find_turn(&self.turns, turn_ref) {
            Some(row) => if row.subject_key.as_str().eq(subject_key) {
                Some(row.effective_key.clone())
            } else {
                None
            },
            None => None,
        }
    }

    /// The turn to continue in a conversation that has a project: the requested
    /// one where the conversation continued it before, else the latest.
    pub fn continuity_parent_for_bound_native(
        &self,
        native_key: &str,
        requested_turn_ref: Option<&str>,
    ) -> (parent: Option<String>)
        ensures
            opt_view(parent) == continuity_parent(
                self@.turns,
                native_key@,
                opt_str_view(requested_turn_ref),
            ),
    {
        if let Some(requested) = requested_turn_ref {
            if find_child(&self.turns, native_key, requested).is_some() {
                return Some(requested.to_owned());
            }
        }
        opt_owned(find_latest(&self.turns, native_key))
    }

    /// The project of a conversation, which becomes its own where it has none.
    pub fn ensure_binding(&mut self, native_key: &str) -> (effective: String)
        ensures
            match bound_project(old(self)@.bindings, native_key@) {
                Some(existing) => effective@ == existing && final(self)@ == old(self)@,
                None => effective@ == native_key@ && final(self)@ == (StorageView {
                    bindings: bind(old(self)@.bindings, native_key@, native_key@),
                    ..old(self)@
                }),
            },
    {
        if let Some(existing) = find_binding(&self.bindings, native_key) {
            return existing.to_owned();
        }
        set_binding(&mut self.bindings, native_key, native_key);
        native_key.to_owned()
    }

    /// Join the project that an alias names, or give the name to the
    /// conversation's own project. The answer says whether it joined.
    pub fn bind_alias(&mut self, native_key: &str, alias: &str) -> (answer: (String, bool))
        ensures
            ({
                let named = alias_project(old(self)@.aliases, alias@);
                let bound = bound_project(old(self)@.bindings, native_key@);
                let effective = match (named, bound) {
                    (Some(key), _) => key,
                    (None, Some(key)) => key,
                    (None, None) => native_key@,
                };
                &&& answer.0@ == effective
                &&& answer.1 == (named is Some)
                &&& final(self)@ == (StorageView {
                    aliases: if named is Some {
                        old(self)@.aliases
                    } else {
                        old(self)@.aliases.push(
                            AliasView { alias: alias@, effective_key: effective },
                        )
                    },
                    bindings: bind(old(self)@.bindings, native_key@, effective),
                    ..old(self)@
                })
            }),
    {
        let ghost before = self@.aliases;
        let (effective, joined) = match find_alias(&self.aliases, alias) {
            Some(key) => (key.to_owned(), true),
            None => match find_binding(&self.bindings, native_key) {
                Some(key) => (key.to_owned(), false),
                None => (native_key.to_owned(), false),
            },
        };
        if !joined {
            self.aliases.push(
                AliasRow { alias: alias.to_owned(), effective_key: effective.clone() },
            );
            proof {
                assert(self@.aliases =~= before.push(
                    AliasView { alias: alias@, effective_key: effective@ },
                ));
            }
        }
        set_binding(&mut self.bindings, native_key, effective.as_str());
        (effective, joined)
    }
}

pub open spec fn continuity_parent(
    turns: Seq<TurnView>,
    native_key: Seq<char>,
    requested: Option<Seq<char>>,
) -> Option<Seq<char>> {
    match requested {
        Some(parent) if turn_by_parent(turns, native_key, parent) is Some => Some(parent),
        _ => latest_turn(turns, native_key),
    }
}

fn copy_turn(row: &TurnRow) -> (copied: TurnRow)
    ensures
        copied@ == row@,
{
    TurnRow {
        turn_ref: row.turn_ref.clone(),
        native_key: row.native_key.clone(),
        effective_key: row.effective_key.clone(),
        subject_key: row.subject_key.clone(),
        parent_turn_ref: opt_copy(&row.parent_turn_ref),
        instruction_hash: row.instruction_hash.clone(),
        state_hash: row.state_hash.clone(),
        brief_snapshot: opt_copy(&row.brief_snapshot),
        state_snapshot: opt_copy(&row.state_snapshot),
        created_at: row.created_at.clone(),
    }
}

fn build_turn(
    native_key: &str,
    effective_key: &str,
    turn: TurnRefCommit<'_>,
    parent: Option<&TurnRow>,
    now: &str,
    Ghost(request): Ghost<InitializationView>,
) -> (row: TurnRow)
    requires
        request.native_key == native_key@,
        request.effective_key == effective_key@,
        request.now == now@,
    ensures
        row@ == new_turn(
            request,
            turn@,
            match parent {
                Some(p) => Some(p@),
                None => None,
            },
        ),
{
    let (whole, state) = match parent {
        None => (true, true),
        Some(p) => {
            let branched = turn.force_full_brief || !p.native_key.as_str().eq(native_key);
            (
                branched || !p.instruction_hash.as_str().eq(turn.instruction_hash),
                branched || !p.state_hash.as_str().eq(turn.state_hash),
            )
        },
    };
    TurnRow {
        turn_ref: turn.turn_ref.to_owned(),
        native_key: native_key.to_owned(),
        effective_key: effective_key.to_owned(),
        subject_key: turn.subject_key.to_owned(),
        parent_turn_ref: opt_owned(turn.parent_turn_ref),
        instruction_hash: turn.instruction_hash.to_owned(),
        state_hash: turn.state_hash.to_owned(),
        brief_snapshot: if whole {
            Some(turn.brief_snapshot.to_owned())
        } else {
            None
        },
        state_snapshot: if !whole && state {
            opt_owned(turn.state_snapshot)
        } else {
            None
        },
        created_at: now.to_owned(),
    }
}

/// A turn found as a child of `parent` names that parent.
proof fn lemma_child_has_parent(turns: Seq<TurnView>, native_key: Seq<char>, parent: Seq<char>)
    ensures
        match turn_by_parent(turns, native_key, parent) {
            Some(child) => child.native_key == native_key && child.parent_turn_ref == Some(parent),
            None => true,
        },
    decreases turns.len(),
{
    if turns.len() > 0 {
        lemma_child_has_parent(turns.skip(1), native_key, parent);
    }
}

}
