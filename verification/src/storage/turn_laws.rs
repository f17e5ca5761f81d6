//! What always holds of conversations, aliases and turns.
use vstd::prelude::*;

use crate::storage::turns::{
    alias_project, bind, binding_refusal, bound_project, colliding_project, commit,
    continuity_parent, existing_child, latest_turn, new_turn, parent_row, project_alias,
    requested_parent, turn_by_parent, turn_by_ref, InitializationView,
};
use crate::storage::{AliasView, BindingView, StorageView, TurnView};
use crate::text::{lemma_less_irreflexive, lemma_less_transitive, lowered, text_less};

verus! {

/// No two turns share a reference, and a conversation continues a turn at most
/// once.
pub open spec fn turns_distinct(turns: Seq<TurnView>) -> bool {
    forall|i: int, j: int|
        0 <= i < j < turns.len() ==> (#[trigger] turns[i]).turn_ref != (
        #[trigger] turns[j]).turn_ref && !(turns[i].native_key == turns[j].native_key
            && turns[i].parent_turn_ref is Some && turns[i].parent_turn_ref
            == turns[j].parent_turn_ref)
}

/// Turn `j` is what turn `i` continues: it came before, in the same project and
/// for the same subject.
pub open spec fn continues(turns: Seq<TurnView>, i: int, j: int) -> bool {
    &&& 0 <= j < i < turns.len()
    &&& turns[i].parent_turn_ref == Some(turns[j].turn_ref)
    &&& turns[j].effective_key == turns[i].effective_key
    &&& turns[j].subject_key == turns[i].subject_key
}

/// Every turn with a parent continues one that is there.
pub open spec fn turns_chained(turns: Seq<TurnView>) -> bool {
    forall|i: int|
        0 <= i < turns.len() && (#[trigger] turns[i]).parent_turn_ref is Some ==> exists|j: int|
            #[trigger] continues(turns, i, j)
}

pub open spec fn aliases_distinct(aliases: Seq<AliasView>) -> bool {
    forall|i: int, j: int|
        0 <= i < j < aliases.len() ==> lowered((#[trigger] aliases[i]).alias) != lowered(
            (#[trigger] aliases[j]).alias,
        )
}

pub open spec fn bindings_distinct(bindings: Seq<BindingView>) -> bool {
    forall|i: int, j: int|
        0 <= i < j < bindings.len() ==> (#[trigger] bindings[i]).native_key != (
        #[trigger] bindings[j]).native_key
}

/// What every operation keeps true of conversations, aliases and turns.
pub open spec fn history_valid(store: StorageView) -> bool {
    &&& turns_distinct(store.turns)
    &&& turns_chained(store.turns)
    &&& aliases_distinct(store.aliases)
    &&& bindings_distinct(store.bindings)
}

proof fn lemma_turn_by_ref(turns: Seq<TurnView>, turn_ref: Seq<char>)
    ensures
        match turn_by_ref(turns, turn_ref) {
            Some(row) => row.turn_ref == turn_ref && exists|i: int|
                0 <= i < turns.len() && #[trigger] turns[i] == row,
            None => forall|i: int|
                0 <= i < turns.len() ==> (#[trigger] turns[i]).turn_ref != turn_ref,
        },
    decreases turns.len(),
{
    if turns.len() > 0 && turns[0].turn_ref != turn_ref {
        let rest = turns.skip(1);
        lemma_turn_by_ref(rest, turn_ref);
        if let Some(row) = turn_by_ref(rest, turn_ref) {
            let i = choose|i: int| 0 <= i < rest.len() && #[trigger] rest[i] == row;
            assert(turns[i + 1] == row);
        } else {
            assert forall|i: int| 0 <= i < turns.len() implies (#[trigger] turns[i]).turn_ref
                != turn_ref by {
                if i > 0 {
                    assert(rest[i - 1] == turns[i]);
                }
            }
        }
    } else if turns.len() > 0 {
        assert(turns[0].turn_ref == turn_ref);
    }
}

proof fn lemma_turn_by_parent(turns: Seq<TurnView>, native_key: Seq<char>, parent: Seq<char>)
    ensures
        match turn_by_parent(turns, native_key, parent) {
            Some(row) => row.native_key == native_key && row.parent_turn_ref == Some(parent)
                && exists|i: int| 0 <= i < turns.len() && #[trigger] turns[i] == row,
            None => forall|i: int|
                0 <= i < turns.len() ==> !((#[trigger] turns[i]).native_key == native_key
                    && turns[i].parent_turn_ref == Some(parent)),
        },
    decreases turns.len(),
{
    if turns.len() > 0 && !(turns[0].native_key == native_key && turns[0].parent_turn_ref == Some(
        parent,
    )) {
        let rest = turns.skip(1);
        lemma_turn_by_parent(rest, native_key, parent);
        if let Some(row) = turn_by_parent(rest, native_key, parent) {
            let i = choose|i: int| 0 <= i < rest.len() && #[trigger] rest[i] == row;
            assert(turns[i + 1] == row);
        } else {
            assert forall|i: int| 0 <= i < turns.len() implies !((
            #[trigger] turns[i]).native_key == native_key && turns[i].parent_turn_ref == Some(
                parent,
            )) by {
                if i > 0 {
                    assert(rest[i - 1] == turns[i]);
                }
            }
        }
    } else if turns.len() > 0 {
        assert(turns[0].native_key == native_key);
    }
}

proof fn lemma_turn_by_ref_push(turns: Seq<TurnView>, row: TurnView, turn_ref: Seq<char>)
    ensures
        turn_by_ref(turns.push(row), turn_ref) == match turn_by_ref(turns, turn_ref) {
            Some(found) => Some(found),
            None => if row.turn_ref == turn_ref {
                Some(row)
            } else {
                None
            },
        },
    decreases turns.len(),
{
    if turns.len() > 0 {
        assert(turns.push(row).skip(1) =~= turns.skip(1).push(row));
        lemma_turn_by_ref_push(turns.skip(1), row, turn_ref);
    } else {
        assert(turns.push(row).skip(1) =~= Seq::<TurnView>::empty());
        assert(turn_by_ref(Seq::<TurnView>::empty(), turn_ref) is None);
    }
}

proof fn lemma_turn_by_parent_push(
    turns: Seq<TurnView>,
    row: TurnView,
    native_key: Seq<char>,
    parent: Seq<char>,
)
    ensures
        turn_by_parent(turns.push(row), native_key, parent) == match turn_by_parent(
            turns,
            native_key,
            parent,
        ) {
            Some(found) => Some(found),
            None => if row.native_key == native_key && row.parent_turn_ref == Some(parent) {
                Some(row)
            } else {
                None
            },
        },
    decreases turns.len(),
{
    if turns.len() > 0 {
        assert(turns.push(row).skip(1) =~= turns.skip(1).push(row));
        lemma_turn_by_parent_push(turns.skip(1), row, native_key, parent);
    } else {
        assert(turns.push(row).skip(1) =~= Seq::<TurnView>::empty());
        assert(turn_by_parent(Seq::<TurnView>::empty(), native_key, parent) is None);
    }
}

proof fn lemma_alias_project(aliases: Seq<AliasView>, alias: Seq<char>)
    ensures
        alias_project(aliases, alias) is None ==> forall|i: int|
            0 <= i < aliases.len() ==> lowered((#[trigger] aliases[i]).alias) != lowered(alias),
    decreases aliases.len(),
{
    if aliases.len() > 0 && lowered(aliases[0].alias) != lowered(alias) {
        let rest = aliases.skip(1);
        lemma_alias_project(rest, alias);
        if alias_project(rest, alias) is None {
            assert forall|i: int| 0 <= i < aliases.len() implies lowered(
                (#[trigger] aliases[i]).alias,
            ) != lowered(alias) by {
                if i > 0 {
                    assert(rest[i - 1] == aliases[i]);
                }
            }
        }
    }
}

proof fn lemma_bind_keys(bindings: Seq<BindingView>, native_key: Seq<char>, effective: Seq<char>)
    ensures
        forall|i: int|
            0 <= i < bind(bindings, native_key, effective).len() ==> {
                let key = (#[trigger] bind(bindings, native_key, effective)[i]).native_key;
                key == native_key || exists|k: int|
                    0 <= k < bindings.len() && (#[trigger] bindings[k]).native_key == key
            },
        bindings_distinct(bindings) ==> bindings_distinct(bind(bindings, native_key, effective)),
    decreases bindings.len(),
{
    let after = bind(bindings, native_key, effective);
    if bindings.len() > 0 {
        let rest = bindings.skip(1);
        if bindings[0].native_key == native_key {
            assert forall|i: int| 0 <= i < after.len() implies {
                let key = (#[trigger] after[i]).native_key;
                key == native_key || exists|k: int|
                    0 <= k < bindings.len() && (#[trigger] bindings[k]).native_key == key
            } by {
                if i > 0 {
                    assert(after[i] == bindings[i]);
                }
            }
            if bindings_distinct(bindings) {
                assert forall|i: int, j: int| 0 <= i < j < after.len() implies (
                #[trigger] after[i]).native_key != (#[trigger] after[j]).native_key by {
                    assert(after[j] == bindings[j]);
                    if i > 0 {
                        assert(after[i] == bindings[i]);
                    } else {
                        assert(bindings[0].native_key != bindings[j].native_key);
                    }
                }
            }
        } else {
            lemma_bind_keys(rest, native_key, effective);
            let tail = bind(rest, native_key, effective);
            assert forall|i: int| 0 <= i < after.len() implies {
                let key = (#[trigger] after[i]).native_key;
                key == native_key || exists|k: int|
                    0 <= k < bindings.len() && (#[trigger] bindings[k]).native_key == key
            } by {
                if i > 0 {
                    assert(after[i] == tail[i - 1]);
                    let key = after[i].native_key;
                    if key != native_key {
                        let k = choose|k: int|
                            0 <= k < rest.len() && (#[trigger] rest[k]).native_key == key;
                        assert(bindings[k + 1].native_key == key);
                    }
                } else {
                    assert(bindings[0].native_key == after[0].native_key);
                }
            }
            if bindings_distinct(bindings) {
                assert(bindings_distinct(rest)) by {
                    assert forall|i: int, j: int| 0 <= i < j < rest.len() implies (
                    #[trigger] rest[i]).native_key != (#[trigger] rest[j]).native_key by {
                        assert(rest[i] == bindings[i + 1] && rest[j] == bindings[j + 1]);
                    }
                }
                assert forall|i: int, j: int| 0 <= i < j < after.len() implies (
                #[trigger] after[i]).native_key != (#[trigger] after[j]).native_key by {
                    assert(after[j] == tail[j - 1]);
                    if i > 0 {
                        assert(after[i] == tail[i - 1]);
                    } else {
                        let key = tail[j - 1].native_key;
                        if key != native_key {
                            let k = choose|k: int|
                                0 <= k < rest.len() && (#[trigger] rest[k]).native_key == key;
                            assert(bindings[k + 1].native_key == key);
                            assert(bindings[0].native_key != bindings[k + 1].native_key);
                        }
                    }
                }
            }
        }
    }
}

/// Binding a conversation binds it, and no other.
pub proof fn binding_is_read_back(
    bindings: Seq<BindingView>,
    native_key: Seq<char>,
    effective: Seq<char>,
    other: Seq<char>,
)
    ensures
        bound_project(bind(bindings, native_key, effective), native_key) == Some(effective),
        other != native_key ==> bound_project(bind(bindings, native_key, effective), other)
            == bound_project(bindings, other),
    decreases bindings.len(),
{
    let after = bind(bindings, native_key, effective);
    if bindings.len() == 0 {
        assert(after.skip(1) =~= bindings);
    } else if bindings[0].native_key == native_key {
        assert(after.skip(1) =~= bindings.skip(1));
    } else {
        binding_is_read_back(bindings.skip(1), native_key, effective, other);
        assert(after.skip(1) =~= bind(bindings.skip(1), native_key, effective));
    }
}

/// A refused request changes nothing.
pub proof fn refused_commit_changes_nothing(store: StorageView, request: InitializationView)
    ensures
        commit(store, request).1 is Err ==> commit(store, request).0 == store,
{
}

/// Turns are only ever added, one at most, behind those that are there.
pub proof fn turns_are_only_added(store: StorageView, request: InitializationView)
    ensures
        store.turns.is_prefix_of(commit(store, request).0.turns),
        commit(store, request).0.turns.len() <= store.turns.len() + 1,
        store.aliases.is_prefix_of(commit(store, request).0.aliases),
        request.turn is None ==> commit(store, request).0.turns == store.turns,
{
}

/// Requests keep references distinct, each turn behind the one it continues,
/// aliases distinct whatever their case, and one project to a conversation.
pub proof fn commit_keeps_history_valid(store: StorageView, request: InitializationView)
    requires
        history_valid(store),
    ensures
        history_valid(commit(store, request).0),
{
    let after = commit(store, request).0;
    if after != store {
        lemma_bind_keys(store.bindings, request.native_key, request.effective_key);
        if let Some(alias) = request.alias {
            lemma_alias_project(store.aliases, alias);
        }
        if let Some(turn) = request.turn {
            lemma_turn_by_ref(store.turns, turn.turn_ref);
            let row = new_turn(request, turn, parent_row(store, request));
            if let Some(parent) = turn.parent_turn_ref {
                lemma_turn_by_ref(store.turns, parent);
                lemma_turn_by_parent(store.turns, request.native_key, parent);
                let found = turn_by_ref(store.turns, parent)->0;
                let k = choose|k: int|
                    0 <= k < store.turns.len() && #[trigger] store.turns[k] == found;
                assert(after.turns[k] == found);
                assert(continues(after.turns, store.turns.len() as int, k));
            }
            assert forall|i: int|
                0 <= i < after.turns.len() && (
                #[trigger] after.turns[i]).parent_turn_ref is Some implies exists|j: int|
                #[trigger] continues(after.turns, i, j) by {
                if i < store.turns.len() {
                    assert(after.turns[i] == store.turns[i]);
                    let j = choose|j: int| #[trigger] continues(store.turns, i, j);
                    assert(continues(after.turns, i, j));
                }
            }
            assert(turns_distinct(after.turns)) by {
                assert forall|i: int, j: int| 0 <= i < j < after.turns.len() implies (
                #[trigger] after.turns[i]).turn_ref != (#[trigger] after.turns[j]).turn_ref && !(
                after.turns[i].native_key == after.turns[j].native_key
                    && after.turns[i].parent_turn_ref is Some && after.turns[i].parent_turn_ref
                    == after.turns[j].parent_turn_ref) by {
                    assert(after.turns[i] == store.turns[i]);
                    if j < store.turns.len() {
                        assert(after.turns[j] == store.turns[j]);
                    } else {
                        assert(after.turns[j] == row);
                    }
                }
            }
        }
    }
}

/// A request that adds a turn binds the conversation to the project, and the
/// turn becomes the latest one, under its reference.
pub proof fn added_turn_is_read_back(store: StorageView, request: InitializationView)
    requires
        request.turn is Some,
        commit(store, request).1 is Ok,
        !(commit(store, request).1->Ok_0->0).reused_existing_turn,
    ensures
        ({
            let after = commit(store, request).0;
            let turn = request.turn->0;
            let row = new_turn(request, turn, parent_row(store, request));
            &&& bound_project(after.bindings, request.native_key) == Some(request.effective_key)
            &&& turn_by_ref(after.turns, turn.turn_ref) == Some(row)
            &&& latest_turn(after.turns, request.native_key) == Some(turn.turn_ref)
            &&& turn_by_parent(after.turns, request.native_key, turn.turn_ref) is None
                ==> continuity_parent(after.turns, request.native_key, Some(turn.turn_ref)) == Some(
                turn.turn_ref,
            )
        }),
{
    let turn = request.turn->0;
    let row = new_turn(request, turn, parent_row(store, request));
    binding_is_read_back(
        store.bindings,
        request.native_key,
        request.effective_key,
        request.native_key,
    );
    lemma_turn_by_ref_push(store.turns, row, turn.turn_ref);
}

/// Asked again for a turn behind the same parent, a conversation is given the
/// turn that stands there, and nothing is stored.
pub proof fn repeated_turn_is_reused(
    store: StorageView,
    request: InitializationView,
    again: InitializationView,
)
    requires
        request.turn is Some,
        requested_parent(request) is Some,
        commit(store, request).1 is Ok,
        again.turn is Some,
        again.native_key == request.native_key,
        again.effective_key == request.effective_key,
        requested_parent(again) == requested_parent(request),
        (again.turn->0).subject_key == (request.turn->0).subject_key,
    ensures
        ({
            let after = commit(store, request).0;
            let first = commit(store, request).1->Ok_0->0;
            let second = commit(after, again);
            &&& second.0 == after
            &&& second.1 is Ok
            &&& second.1->Ok_0 is Some
            &&& (second.1->Ok_0->0).turn_ref == first.turn_ref
            &&& (second.1->Ok_0->0).brief_snapshot == first.brief_snapshot
            &&& (second.1->Ok_0->0).state_snapshot == first.state_snapshot
            &&& (second.1->Ok_0->0).parent_native_key == first.parent_native_key
            &&& (second.1->Ok_0->0).project_alias == first.project_alias
            &&& (second.1->Ok_0->0).reused_existing_turn
        }),
{
    let parent = requested_parent(request)->0;
    let turn = request.turn->0;
    if existing_child(store, request) is None {
        let row = new_turn(request, turn, parent_row(store, request));
        lemma_turn_by_parent_push(store.turns, row, request.native_key, parent);
        lemma_turn_by_ref_push(store.turns, row, parent);
    } else {
        lemma_turn_by_parent(store.turns, request.native_key, parent);
    }
}

/// A conversation that has moved on cannot branch off an older turn: a parent
/// that it never continued and that is not its latest turn is refused.
pub proof fn older_turn_is_stale(store: StorageView, request: InitializationView)
    requires
        request.turn is Some,
        requested_parent(request) is Some,
        existing_child(store, request) is None,
        bound_project(store.bindings, request.native_key) is Some,
        latest_turn(store.turns, request.native_key) != requested_parent(request),
    ensures
        commit(store, request).1 is Err,
        binding_refusal(store, request) is None && crate::storage::turns::parent_refusal(
            store,
            request.effective_key,
            (request.turn->0).subject_key,
            requested_parent(request)->0,
        ) is None ==> commit(store, request).1 == Err::<
            Option<crate::storage::turns::OutcomeView>,
            crate::error::ErrorView,
        >(
            crate::error::error_view(
                "STALE_TURN_REF",
                "previous_turn_ref is not the latest turn for this conversation",
            ),
        ),
{
}

/// A project that is neither joined nor inherited is new: no known project has
/// a key that differs from its key at most in the case of letters.
pub proof fn new_project_key_is_free(store: StorageView, request: InitializationView)
    requires
        bound_project(store.bindings, request.native_key) is None,
        request.alias is None || alias_project(store.aliases, request.alias->0) is None,
        requested_parent(request) is None,
        commit(store, request).1 is Ok,
    ensures
        forall|i: int|
            0 <= i < store.bindings.len() ==> lowered(
                (#[trigger] store.bindings[i]).effective_key,
            ) != lowered(request.effective_key),
        forall|i: int|
            0 <= i < store.aliases.len() ==> lowered((#[trigger] store.aliases[i]).effective_key)
                != lowered(request.effective_key),
{
    assert(colliding_project(store, request.effective_key) is None);
    lemma_no_binding_collision(store.bindings, request.effective_key);
    lemma_no_alias_collision(store.aliases, request.effective_key);
}

proof fn lemma_no_binding_collision(bindings: Seq<BindingView>, key: Seq<char>)
    requires
        crate::storage::turns::binding_collision(bindings, key) is None,
    ensures
        forall|i: int|
            0 <= i < bindings.len() ==> lowered((#[trigger] bindings[i]).effective_key) != lowered(
                key,
            ),
    decreases bindings.len(),
{
    if bindings.len() > 0 {
        let rest = bindings.skip(1);
        lemma_no_binding_collision(rest, key);
        assert forall|i: int| 0 <= i < bindings.len() implies lowered(
            (#[trigger] bindings[i]).effective_key,
        ) != lowered(key) by {
            if i > 0 {
                assert(rest[i - 1] == bindings[i]);
            }
        }
    }
}

proof fn lemma_no_alias_collision(aliases: Seq<AliasView>, key: Seq<char>)
    requires
        crate::storage::turns::alias_collision(aliases, key) is None,
    ensures
        forall|i: int|
            0 <= i < aliases.len() ==> lowered((#[trigger] aliases[i]).effective_key) != lowered(
                key,
            ),
    decreases aliases.len(),
{
    if aliases.len() > 0 {
        let rest = aliases.skip(1);
        lemma_no_alias_collision(rest, key);
        assert forall|i: int| 0 <= i < aliases.len() implies lowered(
            (#[trigger] aliases[i]).effective_key,
        ) != lowered(key) by {
            if i > 0 {
                assert(rest[i - 1] == aliases[i]);
            }
        }
    }
}

/// An alias names the same project in any case of its letters.
pub proof fn alias_case_does_not_matter(aliases: Seq<AliasView>, a: Seq<char>, b: Seq<char>)
    requires
        lowered(a) == lowered(b),
    ensures
        alias_project(aliases, a) == alias_project(aliases, b),
    decreases aliases.len(),
{
    if aliases.len() > 0 {
        alias_case_does_not_matter(aliases.skip(1), a, b);
    }
}

/// A request that is carried out leaves its alias naming a project: the one it
/// named before, else the requested one. Every other alias keeps its project.
pub proof fn alias_is_read_back(
    store: StorageView,
    request: InitializationView,
    alias: Seq<char>,
)
    requires
        commit(store, request).0 != store,
    ensures
        ({
            let after = commit(store, request).0;
            let before = alias_project(store.aliases, alias);
            alias_project(after.aliases, alias) == if before is Some {
                before
            } else if request.alias is Some && lowered(request.alias->0) == lowered(alias) {
                Some(request.effective_key)
            } else {
                None
            }
        }),
{
    let after = commit(store, request).0;
    if let Some(wanted) = request.alias {
        if alias_project(store.aliases, wanted) is None {
            lemma_alias_push(
                store.aliases,
                AliasView { alias: wanted, effective_key: request.effective_key },
                alias,
            );
        } else if lowered(wanted) == lowered(alias) {
            alias_case_does_not_matter(store.aliases, wanted, alias);
        }
    }
}

proof fn lemma_alias_push(aliases: Seq<AliasView>, row: AliasView, alias: Seq<char>)
    ensures
        alias_project(aliases.push(row), alias) == match alias_project(aliases, alias) {
            Some(found) => Some(found),
            None => if lowered(row.alias) == lowered(alias) {
                Some(row.effective_key)
            } else {
                None
            },
        },
    decreases aliases.len(),
{
    if aliases.len() > 0 {
        assert(aliases.push(row).skip(1) =~= aliases.skip(1).push(row));
        lemma_alias_push(aliases.skip(1), row, alias);
    } else {
        assert(aliases.push(row).skip(1) =~= Seq::<AliasView>::empty());
        assert(alias_project(Seq::<AliasView>::empty(), alias) is None);
    }
}

/// The alias shown for a project is one of its aliases, and none of them comes
/// before it.
pub proof fn shown_alias_comes_first(aliases: Seq<AliasView>, effective_key: Seq<char>)
    ensures
        match project_alias(aliases, effective_key) {
            Some(alias) => {
                &&& exists|i: int|
                    0 <= i < aliases.len() && (#[trigger] aliases[i]).alias == alias
                        && aliases[i].effective_key == effective_key
                &&& forall|i: int|
                    0 <= i < aliases.len() && (#[trigger] aliases[i]).effective_key == effective_key
                        ==> !text_less(lowered(aliases[i].alias), lowered(alias))
            },
            None => forall|i: int|
                0 <= i < aliases.len() ==> (#[trigger] aliases[i]).effective_key != effective_key,
        },
    decreases aliases.len(),
{
    if aliases.len() > 0 {
        let rest = aliases.drop_last();
        let row = aliases.last();
        shown_alias_comes_first(rest, effective_key);
        assert forall|i: int| 0 <= i < rest.len() implies #[trigger] aliases[i] == rest[i] by {}
        let before = project_alias(rest, effective_key);
        let now = project_alias(aliases, effective_key);
        if let Some(alias) = now {
            if before == now && before is Some {
                let k = choose|i: int|
                    0 <= i < rest.len() && (#[trigger] rest[i]).alias == alias
                        && rest[i].effective_key == effective_key;
                assert(aliases[k].alias == alias);
            } else {
                assert(aliases[aliases.len() - 1].alias == alias);
            }
            assert forall|i: int|
                0 <= i < aliases.len() && (
                #[trigger] aliases[i]).effective_key == effective_key implies !text_less(
                lowered(aliases[i].alias),
                lowered(alias),
            ) by {
                lemma_less_irreflexive(lowered(alias));
                if i < rest.len() {
                    assert(rest[i] == aliases[i]);
                    if let Some(old_alias) = before {
                        assert(!text_less(lowered(rest[i].alias), lowered(old_alias)));
                        if old_alias != alias && text_less(lowered(rest[i].alias), lowered(alias)) {
                            lemma_less_transitive(
                                lowered(rest[i].alias),
                                lowered(alias),
                                lowered(old_alias),
                            );
                        }
                    }
                }
            }
        }
    }
}

/// A stored turn is found by its reference, and by what it continues in its
/// conversation.
pub proof fn stored_turn_is_found(turns: Seq<TurnView>, i: int)
    requires
        turns_distinct(turns),
        0 <= i < turns.len(),
    ensures
        turn_by_ref(turns, turns[i].turn_ref) == Some(turns[i]),
        turns[i].parent_turn_ref is Some ==> turn_by_parent(
            turns,
            turns[i].native_key,
            turns[i].parent_turn_ref->0,
        ) == Some(turns[i]),
{
    lemma_turn_by_ref(turns, turns[i].turn_ref);
    let found = turn_by_ref(turns, turns[i].turn_ref)->0;
    let k = choose|k: int| 0 <= k < turns.len() && #[trigger] turns[k] == found;
    if k < i {
        assert(turns[k].turn_ref != turns[i].turn_ref);
    } else if i < k {
        assert(turns[i].turn_ref != turns[k].turn_ref);
    }
    if let Some(parent) = turns[i].parent_turn_ref {
        lemma_turn_by_parent(turns, turns[i].native_key, parent);
        let child = turn_by_parent(turns, turns[i].native_key, parent)->0;
        let k = choose|k: int| 0 <= k < turns.len() && #[trigger] turns[k] == child;
        if k < i {
            assert(turns[k].turn_ref != turns[i].turn_ref);
        } else if i < k {
            assert(turns[i].turn_ref != turns[k].turn_ref);
        }
    }
}

/// The latest turn of a conversation is one of its own, with none behind it.
pub proof fn latest_turn_is_the_last(turns: Seq<TurnView>, native_key: Seq<char>)
    ensures
        match latest_turn(turns, native_key) {
            Some(found) => exists|i: int|
                0 <= i < turns.len() && (#[trigger] turns[i]).native_key == native_key
                    && turns[i].turn_ref == found && forall|j: int|
                    i < j < turns.len() ==> (#[trigger] turns[j]).native_key != native_key,
            None => forall|i: int|
                0 <= i < turns.len() ==> (#[trigger] turns[i]).native_key != native_key,
        },
    decreases turns.len(),
{
    if turns.len() > 0 {
        let last = turns.len() - 1;
        let rest = turns.drop_last();
        if turns[last].native_key == native_key {
            assert(turns[last].turn_ref == latest_turn(turns, native_key)->0);
        } else {
            latest_turn_is_the_last(rest, native_key);
            assert forall|i: int| 0 <= i < rest.len() implies #[trigger] turns[i] == rest[i] by {}
            if let Some(found) = latest_turn(rest, native_key) {
                let i = choose|i: int|
                    0 <= i < rest.len() && (#[trigger] rest[i]).native_key == native_key
                        && rest[i].turn_ref == found && forall|j: int|
                        i < j < rest.len() ==> (#[trigger] rest[j]).native_key != native_key;
                assert(turns[i].native_key == native_key);
                assert forall|j: int| i < j < turns.len() implies (#[trigger] turns[j]).native_key
                    != native_key by {
                    if j < last {
                        assert(rest[j] == turns[j]);
                    }
                }
            }
        }
    }
}

/// A conversation is bound to the project that its row names, and to none
/// without a row.
pub proof fn stored_binding_is_found(bindings: Seq<BindingView>, native_key: Seq<char>)
    requires
        bindings_distinct(bindings),
    ensures
        forall|i: int|
            0 <= i < bindings.len() && (#[trigger] bindings[i]).native_key == native_key
                ==> bound_project(bindings, native_key) == Some(bindings[i].effective_key),
        (forall|i: int|
            0 <= i < bindings.len() ==> (#[trigger] bindings[i]).native_key != native_key)
            ==> bound_project(bindings, native_key) is None,
    decreases bindings.len(),
{
    if bindings.len() > 0 {
        let rest = bindings.skip(1);
        assert forall|i: int, j: int| 0 <= i < j < rest.len() implies (
        #[trigger] rest[i]).native_key != (#[trigger] rest[j]).native_key by {
            assert(rest[i] == bindings[i + 1] && rest[j] == bindings[j + 1]);
        }
        stored_binding_is_found(rest, native_key);
        assert forall|i: int|
            0 <= i < bindings.len() && (#[trigger] bindings[i]).native_key
                == native_key implies bound_project(bindings, native_key) == Some(
            bindings[i].effective_key,
        ) by {
            if i > 0 {
                assert(bindings[0].native_key != bindings[i].native_key);
                assert(rest[i - 1] == bindings[i]);
            }
        }
        if forall|i: int|
            0 <= i < bindings.len() ==> (#[trigger] bindings[i]).native_key != native_key {
            assert forall|i: int| 0 <= i < rest.len() implies (#[trigger] rest[i]).native_key
                != native_key by {
                assert(rest[i] == bindings[i + 1]);
            }
        }
    }
}

/// An alias names the project of its row, whatever the case of its letters, and
/// none without a row.
pub proof fn stored_alias_is_found(aliases: Seq<AliasView>, alias: Seq<char>)
    requires
        aliases_distinct(aliases),
    ensures
        forall|i: int|
            0 <= i < aliases.len() && lowered((#[trigger] aliases[i]).alias) == lowered(alias)
                ==> alias_project(aliases, alias) == Some(aliases[i].effective_key),
        (forall|i: int|
            0 <= i < aliases.len() ==> lowered((#[trigger] aliases[i]).alias) != lowered(alias))
            ==> alias_project(aliases, alias) is None,
    decreases aliases.len(),
{
    if aliases.len() > 0 {
        let rest = aliases.skip(1);
        assert forall|i: int, j: int| 0 <= i < j < rest.len() implies lowered(
            (#[trigger] rest[i]).alias,
        ) != lowered((#[trigger] rest[j]).alias) by {
            assert(rest[i] == aliases[i + 1] && rest[j] == aliases[j + 1]);
        }
        stored_alias_is_found(rest, alias);
        assert forall|i: int|
            0 <= i < aliases.len() && lowered((#[trigger] aliases[i]).alias) == lowered(
                alias,
            ) implies alias_project(aliases, alias) == Some(aliases[i].effective_key) by {
            if i > 0 {
                assert(lowered(aliases[0].alias) != lowered(aliases[i].alias));
                assert(rest[i - 1] == aliases[i]);
            }
        }
        if forall|i: int|
            0 <= i < aliases.len() ==> lowered((#[trigger] aliases[i]).alias) != lowered(alias) {
            assert forall|i: int| 0 <= i < rest.len() implies lowered((#[trigger] rest[i]).alias)
                != lowered(alias) by {
                assert(rest[i] == aliases[i + 1]);
            }
        }
    }
}

/// A new turn is stored, and answered, as it was asked for: under its own
/// reference, conversation, project, subject, parent, hashes and time.
pub proof fn added_turn_is_as_requested(store: StorageView, request: InitializationView)
    requires
        request.turn is Some,
        commit(store, request).1 is Ok,
        !(commit(store, request).1->Ok_0->0).reused_existing_turn,
    ensures
        ({
            let turn = request.turn->0;
            let after = commit(store, request).0;
            let row = after.turns.last();
            let answer = commit(store, request).1->Ok_0->0;
            &&& after.turns == store.turns.push(row)
            &&& row.turn_ref == turn.turn_ref && answer.turn_ref == turn.turn_ref
            &&& row.native_key == request.native_key
            &&& row.effective_key == request.effective_key && answer.effective_key
                == request.effective_key
            &&& row.subject_key == turn.subject_key
            &&& row.parent_turn_ref == turn.parent_turn_ref && answer.parent_turn_ref
                == turn.parent_turn_ref
            &&& row.instruction_hash == turn.instruction_hash && answer.instruction_hash
                == turn.instruction_hash
            &&& row.state_hash == turn.state_hash && answer.state_hash == turn.state_hash
            &&& row.created_at == request.now
            &&& answer.brief_snapshot == row.brief_snapshot
            &&& answer.state_snapshot == row.state_snapshot
            &&& answer.project_alias == project_alias(after.aliases, request.effective_key)
            &&& after.projects == store.projects
        }),
{
}

/// What a turn that continues another hands back. In the same conversation,
/// under the same instructions and without a demand for all of it, there is no
/// brief, and there is the state exactly if its hash is not the parent's.
/// Otherwise there is the whole brief, and no state beside it.
pub proof fn continued_turn_tells_what_changed(
    store: StorageView,
    request: InitializationView,
    p: int,
)
    requires
        turns_distinct(store.turns),
        0 <= p < store.turns.len(),
        request.turn is Some,
        (request.turn->0).parent_turn_ref == Some(store.turns[p].turn_ref),
        commit(store, request).1 is Ok,
        !(commit(store, request).1->Ok_0->0).reused_existing_turn,
    ensures
        ({
            let turn = request.turn->0;
            let parent = store.turns[p];
            let row = commit(store, request).0.turns.last();
            let answer = commit(store, request).1->Ok_0->0;
            let same = parent.native_key == request.native_key && parent.instruction_hash
                == turn.instruction_hash && !turn.force_full_brief;
            &&& answer.parent_native_key == Some(parent.native_key)
            &&& answer.parent_instruction_hash == Some(parent.instruction_hash)
            &&& answer.parent_state_hash == Some(parent.state_hash)
            &&& same ==> row.brief_snapshot is None && answer.brief_snapshot is None
            &&& same && parent.state_hash != turn.state_hash ==> row.state_snapshot
                == turn.state_snapshot && answer.state_snapshot == turn.state_snapshot
            &&& same && parent.state_hash == turn.state_hash ==> row.state_snapshot is None
                && answer.state_snapshot is None
            &&& !same ==> row.brief_snapshot == Some(turn.brief_snapshot) && answer.brief_snapshot
                == Some(turn.brief_snapshot)
            &&& !same ==> row.state_snapshot is None && answer.state_snapshot is None
        }),
{
    stored_turn_is_found(store.turns, p);
}

/// A turn that continues none hands back the whole brief.
pub proof fn first_turn_tells_everything(store: StorageView, request: InitializationView)
    requires
        request.turn is Some,
        (request.turn->0).parent_turn_ref is None,
        commit(store, request).1 is Ok,
    ensures
        ({
            let turn = request.turn->0;
            let row = commit(store, request).0.turns.last();
            let answer = commit(store, request).1->Ok_0->0;
            &&& commit(store, request).1->Ok_0 is Some
            &&& !answer.reused_existing_turn
            &&& answer.parent_native_key is None
            &&& answer.parent_instruction_hash is None
            &&& answer.parent_state_hash is None
            &&& row.brief_snapshot == Some(turn.brief_snapshot)
            &&& answer.brief_snapshot == Some(turn.brief_snapshot)
            &&& row.state_snapshot is None && answer.state_snapshot is None
        }),
{
}

/// Where the conversation already continued the parent, in the requested project
/// and for the requested subject, the answer is the turn that stands there, and
/// nothing is stored.
#[verifier::rlimit(40)]
pub proof fn standing_turn_is_answered(
    store: StorageView,
    request: InitializationView,
    p: int,
    c: int,
)
    requires
        turns_distinct(store.turns),
        0 <= p < store.turns.len(),
        0 <= c < store.turns.len(),
        request.turn is Some,
        (request.turn->0).parent_turn_ref == Some(store.turns[p].turn_ref),
        store.turns[c].native_key == request.native_key,
        store.turns[c].parent_turn_ref == Some(store.turns[p].turn_ref),
    ensures
        commit(store, request).0 == store,
        commit(store, request).1 is Ok <==> store.turns[c].effective_key == request.effective_key
            && store.turns[p].effective_key == request.effective_key
            && store.turns[p].subject_key == (request.turn->0).subject_key,
        commit(store, request).1 is Ok ==> {
            let row = store.turns[c];
            let parent = store.turns[p];
            let answer = commit(store, request).1->Ok_0->0;
            &&& commit(store, request).1->Ok_0 is Some
            &&& answer.reused_existing_turn
            &&& answer.turn_ref == row.turn_ref
            &&& answer.parent_turn_ref == row.parent_turn_ref
            &&& answer.effective_key == row.effective_key
            &&& answer.instruction_hash == row.instruction_hash
            &&& answer.state_hash == row.state_hash
            &&& answer.brief_snapshot == row.brief_snapshot
            &&& answer.state_snapshot == row.state_snapshot
            &&& answer.parent_native_key == Some(parent.native_key)
            &&& answer.parent_instruction_hash == Some(parent.instruction_hash)
            &&& answer.parent_state_hash == Some(parent.state_hash)
            &&& answer.project_alias == project_alias(store.aliases, row.effective_key)
        },
{
    stored_turn_is_found(store.turns, p);
    stored_turn_is_found(store.turns, c);
}

/// A parent that is not there is not continued, nor one of another project or
/// of another subject.
pub proof fn foreign_parent_is_not_continued(store: StorageView, request: InitializationView)
    requires
        turns_distinct(store.turns),
        request.turn is Some,
        (request.turn->0).parent_turn_ref is Some,
        commit(store, request).1 is Ok,
    ensures
        exists|p: int|
            0 <= p < store.turns.len() && Some((#[trigger] store.turns[p]).turn_ref) == (
            request.turn->0).parent_turn_ref && store.turns[p].effective_key
                == request.effective_key && store.turns[p].subject_key == (
            request.turn->0).subject_key,
{
    let parent = (request.turn->0).parent_turn_ref->0;
    lemma_turn_by_ref(store.turns, parent);
    let row = turn_by_ref(store.turns, parent)->0;
    let p = choose|p: int| 0 <= p < store.turns.len() && #[trigger] store.turns[p] == row;
    assert(Some(store.turns[p].turn_ref) == (request.turn->0).parent_turn_ref);
}

/// What a new turn needs: the binding and the alias are those that the caller
/// saw, the parent is there, in the project and of the subject, it is the latest
/// turn of a conversation that is bound, a bound conversation with turns names
/// its parent, a project that is new has a key that no other could be taken for,
/// and the reference is new.
#[verifier::rlimit(40)]
pub proof fn acceptable_turn_is_added(store: StorageView, request: InitializationView, p: int)
    requires
        turns_distinct(store.turns),
        request.turn is Some,
        (request.turn->0).parent_turn_ref is Some ==> 0 <= p < store.turns.len() && (
        request.turn->0).parent_turn_ref == Some(store.turns[p].turn_ref),
        forall|c: int|
            0 <= c < store.turns.len() ==> !((#[trigger] store.turns[c]).native_key
                == request.native_key && store.turns[c].parent_turn_ref is Some
                && store.turns[c].parent_turn_ref == (request.turn->0).parent_turn_ref),
    ensures
        ({
            let turn = request.turn->0;
            let bound = bound_project(store.bindings, request.native_key);
            let named = match request.alias {
                Some(alias) => alias_project(store.aliases, alias),
                None => None,
            };
            commit(store, request).1 is Ok <==> {
                &&& bound == request.expected_binding
                &&& request.alias is Some ==> named == request.expected_alias_binding
                &&& turn.parent_turn_ref is None ==> bound is None || forall|i: int|
                    0 <= i < store.turns.len() ==> (#[trigger] store.turns[i]).native_key
                        != request.native_key
                &&& turn.parent_turn_ref is None && bound is None && named is None ==> (forall|
                    i: int,
                |
                    0 <= i < store.bindings.len() ==> lowered(
                        (#[trigger] store.bindings[i]).effective_key,
                    ) != lowered(request.effective_key)) && (forall|i: int|
                    0 <= i < store.aliases.len() ==> lowered(
                        (#[trigger] store.aliases[i]).effective_key,
                    ) != lowered(request.effective_key))
                &&& turn.parent_turn_ref is Some ==> store.turns[p].effective_key
                    == request.effective_key && store.turns[p].subject_key == turn.subject_key && (
                bound is None || latest_turn(store.turns, request.native_key)
                    == turn.parent_turn_ref)
                &&& forall|i: int|
                    0 <= i < store.turns.len() ==> (#[trigger] store.turns[i]).turn_ref
                        != turn.turn_ref
            }
        }),
{
    let turn = request.turn->0;
    lemma_turn_by_ref(store.turns, turn.turn_ref);
    if let Some(parent) = turn.parent_turn_ref {
        stored_turn_is_found(store.turns, p);
        lemma_turn_by_parent(store.turns, request.native_key, parent);
    }
    lemma_binding_collision(store.bindings, request.effective_key);
    lemma_alias_collision(store.aliases, request.effective_key);
}

proof fn lemma_binding_collision(bindings: Seq<BindingView>, key: Seq<char>)
    ensures
        crate::storage::turns::binding_collision(bindings, key) is None <==> forall|i: int|
            0 <= i < bindings.len() ==> lowered((#[trigger] bindings[i]).effective_key) != lowered(
                key,
            ),
    decreases bindings.len(),
{
    if bindings.len() > 0 {
        let rest = bindings.skip(1);
        lemma_binding_collision(rest, key);
        assert forall|i: int| 0 <= i < rest.len() implies #[trigger] rest[i] == bindings[i + 1] by {
        }
        assert forall|i: int| 0 < i < bindings.len() implies #[trigger] bindings[i] == rest[i
            - 1] by {}
    }
}

proof fn lemma_alias_collision(aliases: Seq<AliasView>, key: Seq<char>)
    ensures
        crate::storage::turns::alias_collision(aliases, key) is None <==> forall|i: int|
            0 <= i < aliases.len() ==> lowered((#[trigger] aliases[i]).effective_key) != lowered(
                key,
            ),
    decreases aliases.len(),
{
    if aliases.len() > 0 {
        let rest = aliases.skip(1);
        lemma_alias_collision(rest, key);
        assert forall|i: int| 0 <= i < rest.len() implies #[trigger] rest[i] == aliases[i + 1] by {
        }
        assert forall|i: int| 0 < i < aliases.len() implies #[trigger] aliases[i] == rest[i - 1] by {
        }
    }
}

/// A request that says which turn to continue goes on there only where its conversation has
/// already done so; else it goes on from its latest turn.
pub proof fn conversation_goes_on_from_its_latest_turn(
    turns: Seq<TurnView>,
    native_key: Seq<char>,
    parent: Seq<char>,
)
    ensures
        continuity_parent(turns, native_key, None) == latest_turn(turns, native_key),
        (exists|i: int|
            0 <= i < turns.len() && (#[trigger] turns[i]).native_key == native_key
                && turns[i].parent_turn_ref == Some(parent)) ==> continuity_parent(
            turns,
            native_key,
            Some(parent),
        ) == Some(parent),
        (forall|i: int|
            0 <= i < turns.len() ==> !((#[trigger] turns[i]).native_key == native_key
                && turns[i].parent_turn_ref == Some(parent))) ==> continuity_parent(
            turns,
            native_key,
            Some(parent),
        ) == latest_turn(turns, native_key),
{
    lemma_turn_by_parent(turns, native_key, parent);
    if let Some(row) = turn_by_parent(turns, native_key, parent) {
        let i = choose|i: int| 0 <= i < turns.len() && #[trigger] turns[i] == row;
        assert(turns[i].native_key == native_key);
    }
}

/// What a new turn is refused for: a binding or an alias that is not what the caller saw, a
/// parent that is missing where one is needed, that is not there, not in the project, not of
/// the subject or not the latest, and a reference that is taken.
#[verifier::rlimit(40)]
pub proof fn refusal_says_why(store: StorageView, request: InitializationView, p: int)
    requires
        turns_distinct(store.turns),
        request.turn is Some,
        forall|c: int|
            0 <= c < store.turns.len() ==> !((#[trigger] store.turns[c]).native_key
                == request.native_key && store.turns[c].parent_turn_ref is Some
                && store.turns[c].parent_turn_ref == (request.turn->0).parent_turn_ref),
    ensures
        ({
            let turn = request.turn->0;
            let bound = bound_project(store.bindings, request.native_key);
            let answer = commit(store, request).1;
            let fresh = bound == request.expected_binding && (request.alias is None
                || alias_project(store.aliases, request.alias->0)
                == request.expected_alias_binding);
            let parent = store.turns[p];
            let found = 0 <= p < store.turns.len() && turn.parent_turn_ref == Some(parent.turn_ref);
            &&& bound != request.expected_binding ==> answer is Err && (answer->Err_0).code
                == "SERVER_BUSY"@
            &&& bound == request.expected_binding && bound is Some && turn.parent_turn_ref is None
                && 0 <= p < store.turns.len() && parent.native_key == request.native_key ==> answer
                is Err && (answer->Err_0).code == "PREVIOUS_TURN_REF_REQUIRED"@
            &&& bound == request.expected_binding && turn.parent_turn_ref is Some && !fresh
                ==> answer is Err && (answer->Err_0).code == "SERVER_BUSY"@
            &&& fresh && turn.parent_turn_ref is Some && (forall|i: int|
                0 <= i < store.turns.len() ==> Some((#[trigger] store.turns[i]).turn_ref)
                    != turn.parent_turn_ref) ==> answer is Err && (answer->Err_0).code
                == "TURN_REF_NOT_FOUND"@
            &&& fresh && found && parent.effective_key != request.effective_key ==> answer is Err
                && (answer->Err_0).code == "TURN_PROJECT_MISMATCH"@
            &&& fresh && found && parent.effective_key == request.effective_key
                && parent.subject_key != turn.subject_key ==> answer is Err && (answer->Err_0).code
                == "TURN_REF_NOT_FOUND"@
            &&& fresh && found && parent.effective_key == request.effective_key
                && parent.subject_key == turn.subject_key && bound is Some && latest_turn(
                store.turns,
                request.native_key,
            ) != turn.parent_turn_ref ==> answer is Err && (answer->Err_0).code
                == "STALE_TURN_REF"@
        }),
{
    let turn = request.turn->0;
    if let Some(parent) = turn.parent_turn_ref {
        lemma_turn_by_ref(store.turns, parent);
        lemma_turn_by_parent(store.turns, request.native_key, parent);
        if 0 <= p < store.turns.len() && store.turns[p].turn_ref == parent {
            stored_turn_is_found(store.turns, p);
        }
        if let Some(row) = turn_by_ref(store.turns, parent) {
            let i = choose|i: int| 0 <= i < store.turns.len() && #[trigger] store.turns[i] == row;
            assert(Some(store.turns[i].turn_ref) == turn.parent_turn_ref);
        }
    } else if 0 <= p < store.turns.len() && store.turns[p].native_key == request.native_key {
        assert(crate::storage::turns::has_turn(store.turns, request.native_key));
    }
}

/// A request without a turn binds its conversation exactly if the binding and the alias are
/// those that the caller saw, and the key of a project that is new could be taken for no
/// other. It adds its alias where nothing has it yet, and no turn.
pub proof fn conversation_is_bound(
    store: StorageView,
    request: InitializationView,
    other: Seq<char>,
)
    requires
        request.turn is None,
        other != request.native_key,
    ensures
        ({
            let (after, answer) = commit(store, request);
            let bound = bound_project(store.bindings, request.native_key);
            let named = match request.alias {
                Some(alias) => alias_project(store.aliases, alias),
                None => None,
            };
            &&& answer is Ok <==> {
                &&& bound == request.expected_binding
                &&& request.alias is Some ==> named == request.expected_alias_binding
                &&& bound is None && named is None ==> (forall|i: int|
                    0 <= i < store.bindings.len() ==> lowered(
                        (#[trigger] store.bindings[i]).effective_key,
                    ) != lowered(request.effective_key)) && (forall|i: int|
                    0 <= i < store.aliases.len() ==> lowered(
                        (#[trigger] store.aliases[i]).effective_key,
                    ) != lowered(request.effective_key))
            }
            &&& answer is Ok ==> {
                &&& answer->Ok_0 is None
                &&& bound_project(after.bindings, request.native_key) == Some(
                    request.effective_key,
                )
                &&& bound_project(after.bindings, other) == bound_project(store.bindings, other)
                &&& request.alias is Some && named is None ==> after.aliases == store.aliases.push(
                    AliasView { alias: request.alias->0, effective_key: request.effective_key },
                )
                &&& request.alias is None || named is Some ==> after.aliases == store.aliases
                &&& after.turns == store.turns && after.projects == store.projects
            }
        }),
{
    lemma_binding_collision(store.bindings, request.effective_key);
    lemma_alias_collision(store.aliases, request.effective_key);
    binding_is_read_back(store.bindings, request.native_key, request.effective_key, other);
}

}
