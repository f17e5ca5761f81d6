//! What always holds of plans.
use vstd::prelude::*;

use crate::error::{error_view, ErrorView};
use crate::json::{field, json_text, parses_to, JsonView};
use crate::storage::plans::{
    decoded_item, decoded_items, decoded_plan, in_progress_count, item_refusal, items_bytes,
    items_refusal, plan_json, plan_json_decodes, plan_refusal, ItemView, PlanView,
};
use crate::storage::projects::{set_plan, stored_plan};
use crate::storage::StorageView;
use crate::text::{blank, utf8_len};

verus! {

/// The bytes of the texts of the steps, summed up: before step `i` there are
/// `sums[i]`.
pub open spec fn sums_of(sums: Seq<int>, items: Seq<ItemView>) -> bool {
    &&& sums.len() == items.len() + 1
    &&& sums[0] == 0
    &&& forall|i: int|
        0 <= i < items.len() ==> sums[i + 1] == sums[i] + utf8_len((#[trigger] items[i]).step)
            + utf8_len(items[i].status)
}

proof fn lemma_items_bytes(items: Seq<ItemView>, sums: Seq<int>)
    requires
        sums_of(sums, items),
    ensures
        items_bytes(items) == sums.last(),
    decreases items.len(),
{
    if items.len() > 0 {
        let rest = items.drop_last();
        let fewer = sums.drop_last();
        assert forall|i: int| 0 <= i < rest.len() implies fewer[i + 1] == fewer[i] + utf8_len(
            (#[trigger] rest[i]).step,
        ) + utf8_len(rest[i].status) by {
            assert(rest[i] == items[i]);
            assert(sums[i + 1] == sums[i] + utf8_len(items[i].step) + utf8_len(items[i].status));
        }
        lemma_items_bytes(rest, fewer);
        let last = items.len() - 1;
        assert(sums[last + 1] == sums[last] + utf8_len(items[last].step) + utf8_len(
            items[last].status,
        ));
    }
}

proof fn lemma_items_refusal(items: Seq<ItemView>)
    ensures
        items_refusal(items) is None <==> forall|i: int|
            0 <= i < items.len() ==> item_refusal(#[trigger] items[i]) is None,
        items_refusal(items) is Some ==> exists|i: int|
            0 <= i < items.len() && item_refusal(#[trigger] items[i]) is Some && items_refusal(
                items,
            ) == item_refusal(items[i]) && forall|j: int|
                0 <= j < i ==> item_refusal(#[trigger] items[j]) is None,
    decreases items.len(),
{
    if items.len() > 0 {
        let rest = items.drop_last();
        lemma_items_refusal(rest);
        assert forall|i: int| 0 <= i < rest.len() implies #[trigger] rest[i] == items[i] by {}
        assert forall|i: int| 0 <= i < rest.len() implies #[trigger] items[i] == rest[i] by {}
        if items_refusal(rest) is Some {
            let i = choose|i: int|
                0 <= i < rest.len() && item_refusal(#[trigger] rest[i]) is Some && items_refusal(
                    rest,
                ) == item_refusal(rest[i]) && forall|j: int|
                    0 <= j < i ==> item_refusal(#[trigger] rest[j]) is None;
            assert(item_refusal(items[i]) is Some);
            assert forall|j: int| 0 <= j < i implies item_refusal(#[trigger] items[j]) is None by {
                assert(rest[j] == items[j]);
            }
        } else if item_refusal(items.last()) is Some {
            let i = items.len() - 1;
            assert(item_refusal(items[i]) is Some);
            assert forall|j: int| 0 <= j < i implies item_refusal(#[trigger] items[j]) is None by {
                assert(rest[j] == items[j]);
            }
        }
    }
}

/// Two steps that are both in progress.
pub open spec fn two_in_progress(items: Seq<ItemView>) -> bool {
    exists|i: int, j: int|
        0 <= i < j < items.len() && (#[trigger] items[i]).status == "in_progress"@ && (
        #[trigger] items[j]).status == "in_progress"@
}

proof fn lemma_in_progress(items: Seq<ItemView>)
    ensures
        in_progress_count(items) == 0 <==> forall|i: int|
            0 <= i < items.len() ==> (#[trigger] items[i]).status != "in_progress"@,
        in_progress_count(items) > 1 <==> two_in_progress(items),
    decreases items.len(),
{
    if items.len() > 0 {
        let rest = items.drop_last();
        let last = items.len() - 1;
        lemma_in_progress(rest);
        assert forall|i: int| 0 <= i < rest.len() implies #[trigger] rest[i] == items[i] by {}
        assert forall|i: int| 0 <= i < rest.len() implies #[trigger] items[i] == rest[i] by {}
        if two_in_progress(rest) {
            let (i, j) = choose|i: int, j: int|
                0 <= i < j < rest.len() && (#[trigger] rest[i]).status == "in_progress"@ && (
                #[trigger] rest[j]).status == "in_progress"@;
            assert(items[i].status == "in_progress"@ && items[j].status == "in_progress"@);
        } else if two_in_progress(items) {
            let (i, j) = choose|i: int, j: int|
                0 <= i < j < items.len() && (#[trigger] items[i]).status == "in_progress"@ && (
                #[trigger] items[j]).status == "in_progress"@;
            if j < last {
                assert(rest[i].status == "in_progress"@ && rest[j].status == "in_progress"@);
            } else {
                assert(rest[i].status == "in_progress"@);
            }
        } else if in_progress_count(rest) > 0 && items.last().status == "in_progress"@ {
            let i = choose|i: int|
                0 <= i < rest.len() && (#[trigger] rest[i]).status == "in_progress"@;
            assert(items[i].status == "in_progress"@ && items[last].status == "in_progress"@);
        }
    }
}

/// A plan is taken exactly if it has at most a hundred steps, each with
/// something in it, within its limit and with one of three statuses, no two
/// distinct steps of it are in progress, and its texts are within their limits.
pub proof fn acceptable_plan_is_taken(
    explanation: Option<Seq<char>>,
    items: Seq<ItemView>,
    sums: Seq<int>,
)
    requires
        sums_of(sums, items),
    ensures
        (plan_refusal(explanation, items) is None) == {
            let explained: int = match explanation {
                Some(text) => utf8_len(text) as int,
                None => 0,
            };
            &&& items.len() <= 100
            &&& explained <= 16_384
            &&& forall|i: int|
                0 <= i < items.len() ==> !blank((#[trigger] items[i]).step) && utf8_len(
                    items[i].step,
                ) <= 4096 && (items[i].status == "pending"@ || items[i].status == "in_progress"@
                    || items[i].status == "completed"@)
            &&& forall|i: int, j: int|
                0 <= i < j < items.len() ==> !((#[trigger] items[i]).status == "in_progress"@ && (
                #[trigger] items[j]).status == "in_progress"@)
            &&& explained + sums.last() <= 262_144
        },
{
    lemma_items_bytes(items, sums);
    lemma_items_refusal(items);
    lemma_in_progress(items);
    assert forall|i: int| 0 <= i < items.len() implies (item_refusal(#[trigger] items[i]) is None
        <==> !blank(items[i].step) && utf8_len(items[i].step) <= 4096 && (items[i].status
        == "pending"@ || items[i].status == "in_progress"@ || items[i].status
        == "completed"@)) by {}
}

/// A plan whose steps could each be taken, with two distinct steps in progress,
/// is refused for that.
pub proof fn two_steps_in_progress_are_refused(
    explanation: Option<Seq<char>>,
    items: Seq<ItemView>,
    a: int,
    b: int,
)
    requires
        0 <= a < b < items.len() <= 100,
        explanation is Some ==> utf8_len(explanation->0) <= 16_384,
        forall|i: int|
            0 <= i < items.len() ==> !blank((#[trigger] items[i]).step) && utf8_len(items[i].step)
                <= 4096 && (items[i].status == "pending"@ || items[i].status == "in_progress"@
                || items[i].status == "completed"@),
        items[a].status == "in_progress"@,
        items[b].status == "in_progress"@,
    ensures
        plan_refusal(explanation, items) == Some(
            error_view("INVALID_INPUT", "plan may contain at most one in_progress item"),
        ),
{
    lemma_items_refusal(items);
    lemma_in_progress(items);
    assert(two_in_progress(items));
    assert forall|i: int| 0 <= i < items.len() implies item_refusal(
        #[trigger] items[i],
    ) is None by {}
}

/// Of the steps that could not be taken the first decides what a plan is refused
/// for: it is blank, it is too long, or its status is none.
pub proof fn first_bad_step_is_told(
    explanation: Option<Seq<char>>,
    items: Seq<ItemView>,
    bad: int,
)
    requires
        0 <= bad < items.len() <= 100,
        explanation is Some ==> utf8_len(explanation->0) <= 16_384,
        forall|i: int|
            0 <= i < bad ==> !blank((#[trigger] items[i]).step) && utf8_len(items[i].step) <= 4096
                && (items[i].status == "pending"@ || items[i].status == "in_progress"@
                || items[i].status == "completed"@),
    ensures
        blank(items[bad].step) ==> plan_refusal(explanation, items) == Some(
            error_view("INVALID_INPUT", "plan steps must not be empty"),
        ),
        !blank(items[bad].step) && utf8_len(items[bad].step) > 4096 ==> plan_refusal(
            explanation,
            items,
        ) == Some(error_view("INPUT_TOO_LARGE", "plan step exceeds 4096 bytes")),
        !blank(items[bad].step) && utf8_len(items[bad].step) <= 4096 && items[bad].status
            != "pending"@ && items[bad].status != "in_progress"@ && items[bad].status
            != "completed"@ ==> plan_refusal(explanation, items) == Some(
            error_view("INVALID_INPUT", "invalid plan item status"),
        ),
{
    lemma_items_refusal(items);
    assert forall|i: int| 0 <= i < bad implies item_refusal(#[trigger] items[i]) is None by {}
    if items_refusal(items) is Some {
        let i = choose|i: int|
            0 <= i < items.len() && item_refusal(#[trigger] items[i]) is Some && items_refusal(
                items,
            ) == item_refusal(items[i]) && forall|j: int|
                0 <= j < i ==> item_refusal(#[trigger] items[j]) is None;
        assert(i >= bad);
        if i > bad {
            assert(item_refusal(items[bad]) is None);
        }
    } else {
        assert(item_refusal(items[bad]) is None);
    }
}

/// Before its steps are looked at, a plan is refused for their number, then for
/// its explanation.
pub proof fn large_plan_is_refused(explanation: Option<Seq<char>>, items: Seq<ItemView>)
    ensures
        items.len() > 100 ==> plan_refusal(explanation, items) == Some(
            error_view("RESOURCE_LIMIT_EXCEEDED", "plan exceeds 100 items"),
        ),
        items.len() <= 100 && explanation is Some && utf8_len(explanation->0) > 16_384
            ==> plan_refusal(explanation, items) == Some(
            error_view("INPUT_TOO_LARGE", "plan explanation exceeds 16384 bytes"),
        ),
{
}

/// A stored step is a text, which is then pending; or an object with both texts under
/// their names; or two texts, the step before the status. Nothing else is one.
pub proof fn stored_step_is_read(value: JsonView, step: Seq<char>, status: Seq<char>)
    ensures
        decoded_item(JsonView::Text(step)) == Some(ItemView { step, status: "pending"@ }),
        value is Object && field(value, "step"@) == Some(JsonView::Text(step)) && field(
            value,
            "status"@,
        ) == Some(JsonView::Text(status)) ==> decoded_item(value) == Some(
            ItemView { step, status },
        ),
        decoded_item(JsonView::Array(seq![JsonView::Text(step), JsonView::Text(status)])) == Some(
            ItemView { step, status },
        ),
        value is Null || value is Bool || value is Number ==> decoded_item(value) is None,
        value is Object && (field(value, "step"@) is None || field(value, "status"@) is None)
            ==> decoded_item(value) is None,
        value is Array && value->Array_0.len() != 2 ==> decoded_item(value) is None,
{
}

/// Stored steps are read if each of them is, each in its place.
pub proof fn stored_steps_are_read(values: Seq<JsonView>)
    ensures
        decoded_items(values) is Some <==> forall|i: int|
            0 <= i < values.len() ==> decoded_item(#[trigger] values[i]) is Some,
        decoded_items(values) is Some ==> {
            let items = decoded_items(values)->0;
            &&& items.len() == values.len()
            &&& forall|i: int|
                0 <= i < values.len() ==> decoded_item(#[trigger] values[i]) == Some(items[i])
        },
    decreases values.len(),
{
    if values.len() > 0 {
        let rest = values.drop_last();
        let last = values.len() - 1;
        stored_steps_are_read(rest);
        assert forall|i: int| 0 <= i < rest.len() implies #[trigger] rest[i] == values[i] by {}
        assert forall|i: int| 0 <= i < rest.len() implies #[trigger] values[i] == rest[i] by {}
        assert(values[last] == values.last());
    }
}

/// A stored plan is an array of steps, or an object with such an array and perhaps an
/// explanation. It is read exactly if it is one that could be stored.
pub proof fn stored_plan_is_read(
    value: JsonView,
    values: Seq<JsonView>,
    items: Seq<ItemView>,
    updated_at: Seq<char>,
)
    requires
        value == JsonView::Array(values) || field(value, "items"@) == Some(JsonView::Array(values)),
        decoded_items(values) == Some(items),
    ensures
        ({
            let explanation = match field(value, "explanation"@) {
                Some(JsonView::Text(text)) => Some(text),
                _ => None,
            };
            &&& plan_refusal(explanation, items) is None ==> decoded_plan(value, updated_at) == Ok::<
                PlanView,
                ErrorView,
            >(PlanView { explanation, items, updated_at })
            &&& plan_refusal(explanation, items) is Some ==> decoded_plan(value, updated_at)
                == Err::<PlanView, ErrorView>(plan_refusal(explanation, items)->0)
        }),
{
}

/// A plan that is made the plan of a project is stored whole: where its text is read back
/// by the JSON library, the plan is. Nothing else that is stored changes.
pub proof fn set_plan_is_read_back(
    store: StorageView,
    project: Seq<char>,
    plan: PlanView,
    encoded: Seq<char>,
    other: Seq<char>,
)
    requires
        set_plan(store, project, plan).1 is Ok,
        json_text(plan_json(plan)) == Some(encoded),
        parses_to(encoded, plan_json(plan)),
    ensures
        ({
            let after = set_plan(store, project, plan).0;
            &&& after.projects.contains_key(project)
            &&& stored_plan(after.projects[project].plan) == Ok::<Option<PlanView>, ErrorView>(
                Some(plan),
            )
            &&& after.projects[project].tasks == store.projects[project].tasks
            &&& after.projects[project].memories == store.projects[project].memories
            &&& after.projects[project].archive == store.projects[project].archive
            &&& other != project && store.projects.contains_key(other) ==> after.projects[other]
                == store.projects[other]
            &&& after.turns == store.turns && after.bindings == store.bindings && after.aliases
                == store.aliases
        }),
{
    plan_json_decodes(plan);
}

/// A plan that is refused, has no text, or one too long to be stored changes nothing.
pub proof fn refused_plan_changes_nothing(store: StorageView, project: Seq<char>, plan: PlanView)
    ensures
        set_plan(store, project, plan).1 is Err ==> set_plan(store, project, plan).0 == store,
        set_plan(store, project, plan).1 is Ok <==> plan_refusal(plan.explanation, plan.items)
            is None && json_text(plan_json(plan)) is Some && utf8_len(
            json_text(plan_json(plan))->0,
        ) <= 524_288,
        set_plan(store, project, plan).1 is Ok ==> set_plan(store, project, plan).1->Ok_0 == plan,
{
}

}
