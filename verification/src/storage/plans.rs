//! The plan of a project, kept as a JSON text.
use vstd::prelude::*;

use crate::error::{error, error_view, unit_view, AppError, ErrorView};
use crate::json::{
    field, from_text, items_of, json_parsed, json_text, parsed_layers, parses_to, push_field,
    reads_back, text_of, to_text, views, well_ordered, JsonValue, JsonView,
};
use crate::storage::notes::{input_too_large, resource_limit};
use crate::text::{blank, byte_len, is_blank, opt_str, opt_str_view, opt_view, text_less, utf8_len};

verus! {

pub const PLAN_MAX_ITEMS: usize = 100;

pub const PLAN_ITEM_MAX_BYTES: usize = 4096;

pub const PLAN_EXPLANATION_MAX_BYTES: usize = 16_384;

pub const PLAN_MAX_TOTAL_BYTES: usize = 262_144;

pub const PLAN_STORAGE_MAX_BYTES: usize = 524_288;

#[derive(Clone, Debug, PartialEq, Eq)]
pub struct PlanItemRecord {
    pub step: String,
    pub status: String,
}

#[derive(Clone, Debug, PartialEq, Eq)]
pub struct PlanRecord {
    pub explanation: Option<String>,
    pub items: Vec<PlanItemRecord>,
    pub updated_at: String,
}

/// A plan as it is stored.
pub struct PlanRow {
    pub value: String,
    pub updated_at: String,
}

pub struct ItemView {
    pub step: Seq<char>,
    pub status: Seq<char>,
}

pub struct PlanView {
    pub explanation: Option<Seq<char>>,
    pub items: Seq<ItemView>,
    pub updated_at: Seq<char>,
}

pub struct PlanRowView {
    pub value: Seq<char>,
    pub updated_at: Seq<char>,
}

impl View for PlanItemRecord {
    type V = ItemView;

    open spec fn view(&self) -> ItemView {
        ItemView { step: self.step@, status: self.status@ }
    }
}

pub open spec fn items_view(items: Seq<PlanItemRecord>) -> Seq<ItemView> {
    items.map_values(|item: PlanItemRecord| item@)
}

impl View for PlanRecord {
    type V = PlanView;

    open spec fn view(&self) -> PlanView {
        PlanView {
            explanation: opt_view(self.explanation),
            items: items_view(self.items@),
            updated_at: self.updated_at@,
        }
    }
}

impl View for PlanRow {
    type V = PlanRowView;

    open spec fn view(&self) -> PlanRowView {
        PlanRowView { value: self.value@, updated_at: self.updated_at@ }
    }
}

/// Why a step is not accepted.
pub open spec fn item_refusal(item: ItemView) -> Option<ErrorView> {
    if blank(item.step) {
        Some(error_view("INVALID_INPUT", "plan steps must not be empty"))
    } else if utf8_len(item.step) > PLAN_ITEM_MAX_BYTES {
        Some(error_view("INPUT_TOO_LARGE", "plan step exceeds 4096 bytes"))
    } else if item.status != "pending"@ && item.status != "in_progress"@ && item.status
        != "completed"@ {
        Some(error_view("INVALID_INPUT", "invalid plan item status"))
    } else {
        None
    }
}

/// The first reason why one of the steps is not accepted.
pub open spec fn items_refusal(items: Seq<ItemView>) -> Option<ErrorView>
    decreases items.len(),
{
    if items.len() == 0 {
        None
    } else if items_refusal(items.drop_last()) is Some {
        items_refusal(items.drop_last())
    } else {
        item_refusal(items.last())
    }
}

pub open spec fn in_progress_count(items: Seq<ItemView>) -> nat
    decreases items.len(),
{
    if items.len() == 0 {
        0
    } else {
        in_progress_count(items.drop_last()) + if items.last().status == "in_progress"@ {
            1nat
        } else {
            0nat
        }
    }
}

pub open spec fn items_bytes(items: Seq<ItemView>) -> nat
    decreases items.len(),
{
    if items.len() == 0 {
        0
    } else {
        items_bytes(items.drop_last()) + utf8_len(items.last().step) + utf8_len(items.last().status)
    }
}

pub open spec fn explanation_bytes(explanation: Option<Seq<char>>) -> nat {
    match explanation {
        Some(text) => utf8_len(text),
        None => 0,
    }
}

/// Why a plan is not accepted.
pub open spec fn plan_refusal(explanation: Option<Seq<char>>, items: Seq<ItemView>) -> Option<
    ErrorView,
> {
    if items.len() > PLAN_MAX_ITEMS {
        Some(error_view("RESOURCE_LIMIT_EXCEEDED", "plan exceeds 100 items"))
    } else if explanation_bytes(explanation) > PLAN_EXPLANATION_MAX_BYTES {
        Some(error_view("INPUT_TOO_LARGE", "plan explanation exceeds 16384 bytes"))
    } else if items_refusal(items) is Some {
        items_refusal(items)
    } else if in_progress_count(items) > 1 {
        Some(error_view("INVALID_INPUT", "plan may contain at most one in_progress item"))
    } else if explanation_bytes(explanation) + items_bytes(items) > PLAN_MAX_TOTAL_BYTES {
        Some(error_view("INPUT_TOO_LARGE", "plan exceeds 262144 bytes"))
    } else {
        None
    }
}

fn check_item(item: &PlanItemRecord) -> (result: Result<(), AppError>)
    ensures
        match result {
            Ok(_) => item_refusal(item@) is None && utf8_len(item@.status) <= 11,
            Err(e) => item_refusal(item@) == Some(e@),
        },
{
    if is_blank(item.step.as_str()) {
        return Err(error("INVALID_INPUT", "plan steps must not be empty"));
    }
    if byte_len(item.step.as_str()) > PLAN_ITEM_MAX_BYTES {
        return Err(input_too_large("plan step exceeds 4096 bytes"));
    }
    let status = item.status.as_str();
    if !status.eq("pending") && !status.eq("in_progress") && !status.eq("completed") {
        return Err(error("INVALID_INPUT", "invalid plan item status"));
    }
    proof {
        reveal_strlit("pending");
        reveal_strlit("in_progress");
        reveal_strlit("completed");
        vstd::utf8::is_ascii_chars_encode_utf8(item.status@);
    }
    Ok(())
}

pub fn validate_plan(explanation: Option<&str>, items: &Vec<PlanItemRecord>) -> (result: Result<
    (),
    AppError,
>)
    ensures
        unit_view(result) == match plan_refusal(opt_str_view(explanation), items_view(items@)) {
            Some(e) => Err(e),
            None => Ok(()),
        },
{
    let ghost rows = items_view(items@);
    if items.len() > PLAN_MAX_ITEMS {
        return Err(resource_limit("plan exceeds 100 items"));
    }
    let mut total: usize = match explanation {
        Some(text) => byte_len(text),
        None => 0,
    };
    if total > PLAN_EXPLANATION_MAX_BYTES {
        return Err(input_too_large("plan explanation exceeds 16384 bytes"));
    }
    let mut in_progress: usize = 0;
    let mut i: usize = 0;
    while i < items.len()
        invariant
            i <= items@.len() <= PLAN_MAX_ITEMS,
            rows == items_view(items@),
            explanation_bytes(opt_str_view(explanation)) <= PLAN_EXPLANATION_MAX_BYTES,
            items_refusal(rows.take(i as int)) is None,
            in_progress == in_progress_count(rows.take(i as int)),
            in_progress <= i,
            total == explanation_bytes(opt_str_view(explanation)) + items_bytes(
                rows.take(i as int),
            ),
            total <= PLAN_EXPLANATION_MAX_BYTES + i * 5000,
        decreases items.len() - i,
    {
        proof {
            assert(rows.take(i + 1).drop_last() =~= rows.take(i as int));
        }
        if let Err(e) = check_item(&items[i]) {
            proof {
                assert(items_refusal(rows.take(i + 1)) is Some);
                lemma_items_refusal_prefix(rows, i + 1);
            }
            return Err(e);
        }
        if items[i].status.as_str().eq("in_progress") {
            in_progress += 1;
        }
        total = total + byte_len(items[i].step.as_str()) + byte_len(items[i].status.as_str());
        i += 1;
    }
    proof {
        assert(rows.take(i as int) =~= rows);
    }
    if in_progress > 1 {
        return Err(error("INVALID_INPUT", "plan may contain at most one in_progress item"));
    }
    if total > PLAN_MAX_TOTAL_BYTES {
        return Err(input_too_large("plan exceeds 262144 bytes"));
    }
    Ok(())
}

proof fn lemma_items_refusal_prefix(items: Seq<ItemView>, n: int)
    requires
        0 <= n <= items.len(),
        items_refusal(items.take(n)) is Some,
    ensures
        items_refusal(items) == items_refusal(items.take(n)),
    decreases items.len() - n,
{
    if n == items.len() {
        assert(items.take(n) =~= items);
    } else {
        assert(items.take(n + 1).drop_last() =~= items.take(n));
        lemma_items_refusal_prefix(items, n + 1);
    }
}

pub open spec fn item_json(item: ItemView) -> JsonView {
    JsonView::Object(
        seq![("status"@, JsonView::Text(item.status)), ("step"@, JsonView::Text(item.step))],
    )
}

/// A plan as a JSON value.
pub open spec fn plan_json(plan: PlanView) -> JsonView {
    JsonView::Object(
        seq![
            (
                "explanation"@,
                match plan.explanation {
                    Some(text) => JsonView::Text(text),
                    None => JsonView::Null,
                },
            ),
            ("items"@, JsonView::Array(plan.items.map_values(|item: ItemView| item_json(item)))),
            ("updated_at"@, JsonView::Text(plan.updated_at)),
        ],
    )
}

proof fn lemma_plan_json_reads_back(plan: PlanView)
    ensures
        well_ordered(plan_json(plan)),
        reads_back(plan_json(plan), parsed_layers()),
{
    reveal_strlit("$serde_json::private::RawValue");
    reveal_strlit("explanation");
    reveal_strlit("items");
    reveal_strlit("updated_at");
    reveal_strlit("status");
    reveal_strlit("step");
    reveal_with_fuel(text_less, 5);
    let fields = plan_json(plan)->Object_0;
    let items = fields[1].1->Array_0;
    assert forall|i: int| 0 <= i < items.len() implies well_ordered(#[trigger] items[i])
        && reads_back(items[i], 125) by {
        let inner = items[i]->Object_0;
        assert(inner[0].0 == "status"@ && inner[1].0 == "step"@);
        assert(text_less(inner[0].0, inner[1].0));
        assert(inner.len() == 2);
        assert(inner[0].0[0] == 's');
        assert forall|j: int| 0 <= j < inner.len() implies well_ordered((#[trigger] inner[j]).1)
            && reads_back(inner[j].1, 124) by {
            if j == 0 {
            } else {
                assert(j == 1);
            }
        }
    }
    assert(well_ordered(fields[1].1));
    assert(fields[0].0[0] == 'e');
    assert(reads_back(fields[1].1, 126));
    assert(text_less(fields[0].0, fields[1].0));
    assert(text_less(fields[1].0, fields[2].0));
    assert(text_less(fields[0].0, fields[2].0));
    assert forall|j: int| 0 <= j < fields.len() implies well_ordered((#[trigger] fields[j]).1)
        && reads_back(fields[j].1, 126) by {
        if j == 0 {
        } else if j == 1 {
        } else {
            assert(j == 2);
        }
    }
}

fn plan_to_json(plan: &PlanRecord) -> (value: JsonValue)
    ensures
        value@ == plan_json(plan@),
{
    let mut items: Vec<JsonValue> = Vec::new();
    let mut i: usize = 0;
    while i < plan.items.len()
        invariant
            i <= plan.items@.len(),
            items@.len() == i,
            forall|j: int| 0 <= j < i ==> (#[trigger] items@[j])@ == item_json(plan.items@[j]@),
        decreases plan.items.len() - i,
    {
        let mut fields: Vec<(String, JsonValue)> = Vec::new();
        push_field(&mut fields, "status", JsonValue::text(plan.items[i].status.as_str()));
        push_field(&mut fields, "step", JsonValue::text(plan.items[i].step.as_str()));
        let item = JsonValue::object(fields);
        proof {
            assert(item@->Object_0 =~= item_json(plan.items@[i as int]@)->Object_0);
        }
        items.push(item);
        i += 1;
    }
    let list = JsonValue::array(items);
    proof {
        assert(list@->Array_0 =~= plan@.items.map_values(|item: ItemView| item_json(item)));
    }
    let mut fields: Vec<(String, JsonValue)> = Vec::new();
    push_field(
        &mut fields,
        "explanation",
        match &plan.explanation {
            Some(text) => JsonValue::text(text.as_str()),
            None => JsonValue::null(),
        },
    );
    push_field(&mut fields, "items", list);
    push_field(&mut fields, "updated_at", JsonValue::text(plan.updated_at.as_str()));
    let value = JsonValue::object(fields);
    proof {
        assert(value@->Object_0 =~= plan_json(plan@)->Object_0);
    }
    value
}

/// The text that a plan is stored as.
pub fn encode_plan(plan: &PlanRecord) -> (result: Result<String, AppError>)
    ensures
        match (result, json_text(plan_json(plan@))) {
            (Ok(text), Some(encoded)) => text@ == encoded && parses_to(text@, plan_json(plan@)),
            (Err(e), None) => e@ == error_view("SERIALIZATION_ERROR", "plan cannot be serialized"),
            _ => false,
        },
{
    proof {
        lemma_plan_json_reads_back(plan@);
    }
    match to_text(&plan_to_json(plan)) {
        Some(text) => Ok(text),
        None => Err(error("SERIALIZATION_ERROR", "plan cannot be serialized")),
    }
}

/// What a stored step stands for: a text is a pending step; else step and
/// status are texts, by name or by position.
pub open spec fn decoded_item(value: JsonView) -> Option<ItemView> {
    match value {
        JsonView::Text(step) => Some(ItemView { step, status: "pending"@ }),
        JsonView::Object(_) => match (field(value, "step"@), field(value, "status"@)) {
            (Some(JsonView::Text(step)), Some(JsonView::Text(status))) => Some(
                ItemView { step, status },
            ),
            _ => None,
        },
        JsonView::Array(parts) => if parts.len() == 2 && parts[0] is Text && parts[1] is Text {
            Some(ItemView { step: parts[0]->Text_0, status: parts[1]->Text_0 })
        } else {
            None
        },
        _ => None,
    }
}

pub open spec fn decoded_items(values: Seq<JsonView>) -> Option<Seq<ItemView>>
    decreases values.len(),
{
    if values.len() == 0 {
        Some(Seq::empty())
    } else {
        match (decoded_items(values.drop_last()), decoded_item(values.last())) {
            (Some(items), Some(item)) => Some(items.push(item)),
            _ => None,
        }
    }
}

/// The steps of a stored plan, in either of its representations.
pub open spec fn stored_items(value: JsonView) -> Option<Seq<JsonView>> {
    match field(value, "items"@) {
        Some(JsonView::Array(items)) => Some(items),
        _ => items_of(value),
    }
}

pub open spec fn stored_explanation(value: JsonView) -> Option<Seq<char>> {
    match field(value, "explanation"@) {
        Some(explanation) => text_of(explanation),
        None => None,
    }
}

/// The plan that a stored value stands for.
pub open spec fn decoded_plan(value: JsonView, updated_at: Seq<char>) -> Result<
    PlanView,
    ErrorView,
> {
    match stored_items(value) {
        None => Err(error_view("INVALID_INPUT", "stored plan has an unsupported representation")),
        Some(values) => match decoded_items(values) {
            None => Err(
                error_view(
                    "SERIALIZATION_ERROR",
                    "stored plan item has an unsupported representation",
                ),
            ),
            Some(items) => match plan_refusal(stored_explanation(value), items) {
                Some(refused) => Err(refused),
                None => Ok(PlanView { explanation: stored_explanation(value), items, updated_at }),
            },
        },
    }
}

/// The plan that a stored text stands for.
pub open spec fn plan_of_text(text: Seq<char>, updated_at: Seq<char>) -> Result<
    PlanView,
    ErrorView,
> {
    match json_parsed(text) {
        Err(message) => Err(ErrorView { code: "SERIALIZATION_ERROR"@, message }),
        Ok(value) => decoded_plan(value, updated_at),
    }
}

pub open spec fn plan_answer(result: Result<PlanRecord, AppError>) -> Result<PlanView, ErrorView> {
    match result {
        Ok(plan) => Ok(plan@),
        Err(e) => Err(e@),
    }
}

fn decode_item(value: &JsonValue) -> (item: Option<PlanItemRecord>)
    ensures
        match item {
            Some(item) => decoded_item(value@) == Some(item@),
            None => decoded_item(value@) is None,
        },
{
    match value {
        JsonValue::Text(step) => Some(
            PlanItemRecord { step: step.clone(), status: "pending".to_owned() },
        ),
        JsonValue::Object(_) => {
            let step = match value.get("step") {
                Some(step) => step.as_str(),
                None => None,
            };
            let status = match value.get("status") {
                Some(status) => status.as_str(),
                None => None,
            };
            match (step, status) {
                (Some(step), Some(status)) => Some(
                    PlanItemRecord { step: step.to_owned(), status: status.to_owned() },
                ),
                _ => None,
            }
        },
        JsonValue::Array(parts) => {
            if parts.len() != 2 {
                return None;
            }
            proof {
                assert(value@->Array_0[0] == parts@[0]@);
                assert(value@->Array_0[1] == parts@[1]@);
            }
            match (parts[0].as_str(), parts[1].as_str()) {
                (Some(step), Some(status)) => Some(
                    PlanItemRecord { step: step.to_owned(), status: status.to_owned() },
                ),
                _ => None,
            }
        },
        _ => None,
    }
}

fn decode_items(values: &Vec<JsonValue>) -> (items: Option<Vec<PlanItemRecord>>)
    ensures
        match items {
            Some(items) => decoded_items(views(values@)) == Some(items_view(items@)),
            None => decoded_items(views(values@)) is None,
        },
{
    let ghost rows = views(values@);
    let mut items: Vec<PlanItemRecord> = Vec::new();
    let mut i: usize = 0;
    proof {
        assert(items_view(items@) =~= Seq::<ItemView>::empty());
    }
    while i < values.len()
        invariant
            i <= values@.len(),
            rows == views(values@),
            decoded_items(rows.take(i as int)) == Some(items_view(items@)),
        decreases values.len() - i,
    {
        proof {
            assert(rows.take(i + 1).drop_last() =~= rows.take(i as int));
        }
        match decode_item(&values[i]) {
            Some(item) => {
                let ghost before = items_view(items@);
                let ghost shown = item@;
                items.push(item);
                proof {
                    assert(items_view(items@) =~= before.push(shown));
                }
            },
            None => {
                proof {
                    assert(decoded_items(rows.take(i + 1)) is None);
                    lemma_undecoded_prefix(rows, i + 1);
                }
                return None;
            },
        }
        i += 1;
    }
    proof {
        assert(rows.take(i as int) =~= rows);
    }
    Some(items)
}

proof fn lemma_undecoded_prefix(values: Seq<JsonView>, n: int)
    requires
        0 <= n <= values.len(),
        decoded_items(values.take(n)) is None,
    ensures
        decoded_items(values) is None,
    decreases values.len() - n,
{
    if n == values.len() {
        assert(values.take(n) =~= values);
    } else {
        assert(values.take(n + 1).drop_last() =~= values.take(n));
        lemma_undecoded_prefix(values, n + 1);
    }
}

/// The plan that a stored value stands for.
pub fn decode_plan_value(value: &JsonValue, updated_at: String) -> (result: Result<
    PlanRecord,
    AppError,
>)
    ensures
        plan_answer(result) == decoded_plan(value@, updated_at@),
{
    let explanation = match value.get("explanation") {
        Some(explanation) => match explanation.as_str() {
            Some(text) => Some(text.to_owned()),
            None => None,
        },
        None => None,
    };
    let listed = match value.get("items") {
        Some(items) => items.as_array(),
        None => None,
    };
    let listed = match listed {
        Some(items) => Some(items),
        None => value.as_array(),
    };
    match listed {
        None => Err(error("INVALID_INPUT", "stored plan has an unsupported representation")),
        Some(values) => match decode_items(values) {
            None => Err(
                error(
                    "SERIALIZATION_ERROR",
                    "stored plan item has an unsupported representation",
                ),
            ),
            Some(items) => match validate_plan(opt_str(&explanation), &items) {
                Err(e) => Err(e),
                Ok(_) => Ok(PlanRecord { explanation, items, updated_at }),
            },
        },
    }
}

/// The plan that a stored text stands for.
pub fn decode_plan(text: &str, updated_at: String) -> (result: Result<PlanRecord, AppError>)
    ensures
        plan_answer(result) == plan_of_text(text@, updated_at@),
{
    match from_text(text) {
        Err(message) => Err(AppError::new("SERIALIZATION_ERROR", message)),
        Ok(value) => decode_plan_value(&value, updated_at),
    }
}

/// A plan that is accepted is what its JSON value is decoded to.
pub proof fn plan_json_decodes(plan: PlanView)
    requires
        plan_refusal(plan.explanation, plan.items) is None,
    ensures
        decoded_plan(plan_json(plan), plan.updated_at) == Ok::<PlanView, ErrorView>(plan),
{
    let value = plan_json(plan);
    let fields = value->Object_0;
    reveal_strlit("explanation");
    reveal_strlit("items");
    reveal_strlit("updated_at");
    assert("explanation"@ != "items"@) by {
        assert("explanation"@.len() != "items"@.len());
    }
    reveal_with_fuel(crate::json::field_from, 3);
    assert(field(value, "explanation"@) == Some(fields[0].1));
    assert(field(value, "items"@) == Some(fields[1].1));
    let values = plan.items.map_values(|item: ItemView| item_json(item));
    lemma_items_decode(plan.items);
    assert(decoded_items(values) == Some(plan.items));
}

proof fn lemma_items_decode(items: Seq<ItemView>)
    ensures
        decoded_items(items.map_values(|item: ItemView| item_json(item))) == Some(items),
    decreases items.len(),
{
    let values = items.map_values(|item: ItemView| item_json(item));
    if items.len() > 0 {
        lemma_items_decode(items.drop_last());
        assert(values.drop_last() =~= items.drop_last().map_values(
            |item: ItemView| item_json(item),
        ));
        reveal_strlit("status");
        reveal_strlit("step");
        assert("status"@ != "step"@) by {
            assert("status"@.len() != "step"@.len());
        }
        reveal_with_fuel(crate::json::field_from, 3);
        let last = values.last();
        let inner = last->Object_0;
        assert(field(last, "step"@) == Some(inner[1].1));
        assert(field(last, "status"@) == Some(inner[0].1));
        assert(decoded_item(last) == Some(items.last()));
        assert(items.drop_last().push(items.last()) =~= items);
    } else {
        assert(items =~= Seq::<ItemView>::empty());
    }
}

}
