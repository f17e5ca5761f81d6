//! The line that the console shows for an event.
use vstd::prelude::*;

use crate::audit::calls::{call_text, console_render_tool_call};
use crate::audit::console::{
    colored, console_color, console_excerpt, console_excerpt_edges, console_optional_string_field,
    console_scrub_pretty, console_string_field, console_text, excerpt,
    excerpt_edges, line_text, pretty, string_field,
};
use crate::audit::parts::{joined, or_text, pad_right, padded_right};
use crate::audit::redact::{bound_event, bounded, hide_secret, scrub, scrubbed, without_secret};
use crate::audit::redact_laws::{bounding_keeps_order, lemma_field_ordered, scrubbing_keeps_order};
use crate::audit::results::{console_render_tool_result, items_field, result_text};
use crate::config::LogConfig;
use crate::json::{field, json_text, text_of, to_text, views, well_ordered, JsonValue, JsonView};
use crate::search::texts;
use crate::text::{decimal, decimal_usize, join2, join3, opt_str_view, opt_view, to_chars};

verus! {

pub const CONSOLE_PLAN_BODY_CHARS: usize = 450;

pub const CONSOLE_PLAN_STEP_CHARS: usize = 48;

pub const CONSOLE_PLAN_STEP_EDGE_CHARS: usize = 24;

/// A step of a plan as it is shown.
pub struct PlanLine {
    pub step: String,
    pub status: String,
}

pub struct PlanLineView {
    pub step: Seq<char>,
    pub status: Seq<char>,
}

impl View for PlanLine {
    type V = PlanLineView;

    open spec fn view(&self) -> PlanLineView {
        PlanLineView { step: self.step@, status: self.status@ }
    }
}

pub open spec fn plan_lines_view(rows: Seq<PlanLine>) -> Seq<PlanLineView> {
    rows.map_values(|row: PlanLine| row@)
}

/// A step of a plan, where it has a text and a status.
pub open spec fn plan_line(item: JsonView) -> Option<PlanLineView> {
    match (string_field(item, "step"), string_field(item, "status")) {
        (Some(step), Some(status)) => Some(
            PlanLineView {
                step: excerpt_edges(
                    step,
                    CONSOLE_PLAN_STEP_CHARS as int,
                    CONSOLE_PLAN_STEP_EDGE_CHARS as int,
                ),
                status,
            },
        ),
        _ => None,
    }
}

pub open spec fn plan_lines(items: Seq<JsonView>) -> Seq<PlanLineView>
    decreases items.len(),
{
    if items.len() == 0 {
        Seq::empty()
    } else {
        match plan_line(items.last()) {
            Some(row) => plan_lines(items.drop_last()).push(row),
            None => plan_lines(items.drop_last()),
        }
    }
}

/// The width of the longest step.
pub open spec fn step_width(rows: Seq<PlanLineView>) -> nat
    decreases rows.len(),
{
    if rows.len() == 0 {
        0
    } else {
        let before = step_width(rows.drop_last());
        if rows.last().step.len() > before {
            rows.last().step.len()
        } else {
            before
        }
    }
}

/// What a line takes of the room for a plan, its line break included.
pub open spec fn line_chars(row: PlanLineView, width: nat, first: bool) -> nat {
    8 + width + row.status.len() + if first {
        0nat
    } else {
        1nat
    }
}

/// How many lines fit, from line `from` on, when `used` characters are shown
/// before them.
pub open spec fn lines_fitting(rows: Seq<PlanLineView>, width: nat, from: int, used: nat) -> int
    decreases rows.len() - from,
{
    if from < 0 || from >= rows.len() || used + line_chars(rows[from], width, from == 0)
        > CONSOLE_PLAN_BODY_CHARS {
        from
    } else {
        lines_fitting(rows, width, from + 1, used + line_chars(rows[from], width, from == 0))
    }
}

pub open spec fn status_color(status: Seq<char>) -> Seq<char> {
    if status == "completed"@ {
        "\x1b[32m"@
    } else if status == "in_progress"@ {
        "\x1b[33m"@
    } else if status == "pending"@ {
        "\x1b[90m"@
    } else {
        "\x1b[31m"@
    }
}

pub open spec fn plan_row_text(row: PlanLineView, width: nat) -> Seq<char> {
    "    "@ + padded_right(row.step, width as int) + "    "@ + colored(
        row.status,
        status_color(row.status),
    )
}

/// The shown lines of a plan.
pub open spec fn plan_body(rows: Seq<PlanLineView>) -> Seq<Seq<char>> {
    let width = step_width(rows);
    let count = lines_fitting(rows, width, 0, 0);
    let shown = rows.take(count).map_values(|row: PlanLineView| plan_row_text(row, width));
    if count < rows.len() {
        shown.push("    ... +"@ + decimal((rows.len() - count) as nat) + " more"@)
    } else {
        shown
    }
}

/// The plan of an event as it is shown.
pub open spec fn plan_text(event: JsonView) -> Option<Seq<char>> {
    match field(event, "plan"@) {
        None => None,
        Some(plan) => if plan is Null {
            Some("    "@ + colored("plan cleared"@, "\x1b[90m"@))
        } else {
            match items_field(plan, "items") {
                None => None,
                Some(items) => if items.len() == 0 {
                    Some("    "@ + colored("plan empty"@, "\x1b[90m"@))
                } else if plan_lines(items).len() == 0 {
                    None
                } else {
                    Some(joined(plan_body(plan_lines(items)), "\n"@))
                },
            }
        },
    }
}

fn collect_plan_lines(items: &Vec<JsonValue>) -> (rows: Vec<PlanLine>)
    ensures
        plan_lines_view(rows@) == plan_lines(views(items@)),
{
    let ghost all = views(items@);
    let mut rows: Vec<PlanLine> = Vec::new();
    let mut i: usize = 0;
    proof {
        assert(plan_lines_view(rows@) =~= Seq::empty());
    }
    while i < items.len()
        invariant
            i <= items@.len(),
            all == views(items@),
            plan_lines_view(rows@) == plan_lines(all.take(i as int)),
        decreases items.len() - i,
    {
        proof {
            assert(all.take(i + 1).drop_last() =~= all.take(i as int));
            assert(all.take(i + 1).last() == items@[i as int]@);
        }
        let ghost before = plan_lines_view(rows@);
        match (console_string_field(&items[i], "step"), console_string_field(&items[i], "status")) {
            (Some(step), Some(status)) => {
                let row = PlanLine {
                    step: console_excerpt_edges(
                        step.as_str(),
                        CONSOLE_PLAN_STEP_CHARS,
                        CONSOLE_PLAN_STEP_EDGE_CHARS,
                    ),
                    status,
                };
                let ghost shown = row@;
                rows.push(row);
                proof {
                    assert(plan_lines_view(rows@) =~= before.push(shown));
                }
            },
            _ => {},
        }
        i += 1;
    }
    proof {
        assert(all.take(i as int) =~= all);
    }
    rows
}

fn widest_step(rows: &Vec<PlanLine>) -> (width: usize)
    ensures
        width == step_width(plan_lines_view(rows@)),
{
    let ghost all = plan_lines_view(rows@);
    let mut width: usize = 0;
    let mut i: usize = 0;
    while i < rows.len()
        invariant
            i <= rows@.len(),
            all == plan_lines_view(rows@),
            width == step_width(all.take(i as int)),
        decreases rows.len() - i,
    {
        proof {
            assert(all.take(i + 1).drop_last() =~= all.take(i as int));
            assert(all.take(i + 1).last() == rows@[i as int]@);
        }
        let count = to_chars(rows[i].step.as_str()).len();
        if count > width {
            width = count;
        }
        i += 1;
    }
    proof {
        assert(all.take(i as int) =~= all);
    }
    width
}

fn color_of_status(status: &str) -> (color: &'static str)
    ensures
        color@ == status_color(status@),
{
    if status.eq("completed") {
        "\x1b[32m"
    } else if status.eq("in_progress") {
        "\x1b[33m"
    } else if status.eq("pending") {
        "\x1b[90m"
    } else {
        "\x1b[31m"
    }
}

fn show_plan_row(row: &PlanLine, width: usize) -> (r: String)
    ensures
        r@ == plan_row_text(row@, width as nat),
{
    let mut r = join3("    ", pad_right(row.step.as_str(), width).as_str(), "    ");
    r.append(
        console_color(row.status.as_str(), color_of_status(row.status.as_str())).as_str(),
    );
    r
}

proof fn lemma_lines_fitting(rows: Seq<PlanLineView>, width: nat, from: int, used: nat)
    requires
        0 <= from <= rows.len(),
    ensures
        from <= lines_fitting(rows, width, from, used) <= rows.len(),
    decreases rows.len() - from,
{
    if from < rows.len() && used + line_chars(rows[from], width, from == 0)
        <= CONSOLE_PLAN_BODY_CHARS {
        lemma_lines_fitting(
            rows,
            width,
            from + 1,
            used + line_chars(rows[from], width, from == 0),
        );
    }
}

fn show_plan_body(rows: &Vec<PlanLine>) -> (body: Vec<String>)
    ensures
        texts(body@) == plan_body(plan_lines_view(rows@)),
{
    let ghost all = plan_lines_view(rows@);
    let width = widest_step(rows);
    let ghost count = lines_fitting(all, width as nat, 0, 0);
    let mut body: Vec<String> = Vec::new();
    let mut used: usize = 0;
    let mut fits = true;
    proof {
        lemma_lines_fitting(all, width as nat, 0, 0);
    }
    while fits && body.len() < rows.len()
        invariant
            body@.len() <= rows@.len(),
            all == plan_lines_view(rows@),
            used <= CONSOLE_PLAN_BODY_CHARS,
            fits ==> count == lines_fitting(
                all,
                width as nat,
                body@.len() as int,
                used as nat,
            ),
            !fits ==> count == body@.len(),
            forall|j: int|
                0 <= j < body@.len() ==> (#[trigger] body@[j])@ == plan_row_text(
                    all[j],
                    width as nat,
                ),
        decreases rows.len() - body.len() + (if fits {
                1int
            } else {
                0int
            }),
    {
        let row = &rows[body.len()];
        let status_chars = to_chars(row.status.as_str()).len();
        let extra: usize = if body.len() == 0 {
            0
        } else {
            1
        };
        let needed = width.saturating_add(8).saturating_add(status_chars).saturating_add(extra);
        if used.saturating_add(needed) > CONSOLE_PLAN_BODY_CHARS {
            fits = false;
        } else {
            used = used + needed;
            body.push(show_plan_row(row, width));
        }
    }
    let shown = body.len();
    proof {
        assert(texts(body@) =~= all.take(count).map_values(
            |row: PlanLineView| plan_row_text(row, width as nat),
        ));
    }
    if shown < rows.len() {
        let ghost before = texts(body@);
        let more = join3("    ... +", decimal_usize(rows.len() - shown).as_str(), " more");
        let ghost added = more@;
        body.push(more);
        proof {
            assert(texts(body@) =~= before.push(added));
        }
    }
    body
}

fn join_lines(parts: &Vec<String>) -> (r: String)
    ensures
        r@ == joined(texts(parts@), "\n"@),
{
    let ghost all = texts(parts@);
    if parts.len() == 0 {
        return String::new();
    }
    let mut r = parts[0].clone();
    let mut i: usize = 1;
    proof {
        assert(all.take(1).len() == 1);
        assert(all.take(1)[0] == r@);
    }
    while i < parts.len()
        invariant
            1 <= i <= parts@.len(),
            all == texts(parts@),
            r@ == joined(all.take(i as int), "\n"@),
        decreases parts.len() - i,
    {
        proof {
            assert(all.take(i + 1).drop_last() =~= all.take(i as int));
            assert(all.take(i + 1).last() == parts@[i as int]@);
        }
        r.append("\n");
        r.append(parts[i].as_str());
        i += 1;
    }
    proof {
        assert(all.take(i as int) =~= all);
    }
    r
}

/// The plan of an event as it is shown: as many steps as fit, and how many more
/// there are.
pub fn console_plan(event: &JsonValue) -> (r: Option<String>)
    ensures
        opt_view(r) == plan_text(event@),
{
    match event.get("plan") {
        None => None,
        Some(plan) => {
            if plan.is_null() {
                return Some(
                    join2("    ", console_color("plan cleared", "\x1b[90m").as_str()),
                );
            }
            let items = match plan.get("items") {
                Some(items) => items.as_array(),
                None => None,
            };
            match items {
                None => None,
                Some(items) => {
                    if items.len() == 0 {
                        return Some(
                            join2("    ", console_color("plan empty", "\x1b[90m").as_str()),
                        );
                    }
                    let rows = collect_plan_lines(items);
                    proof {
                        assert(rows@.len() == plan_lines(views(items@)).len());
                    }
                    if rows.len() == 0 {
                        return None;
                    }
                    Some(join_lines(&show_plan_body(&rows)))
                },
            }
        },
    }
}

/// The name by which an event's project is shown.
pub open spec fn project_name(event: JsonView, secret: Seq<char>) -> Seq<char> {
    let name = match field(event, "project"@) {
        Some(project) => match (field(project, "alias"@), field(project, "effective_key"@)) {
            (Some(JsonView::Text(alias)), _) => alias,
            (_, Some(JsonView::Text(key))) => key,
            _ => "global"@,
        },
        None => "global"@,
    };
    line_text(without_secret(name, secret))
}

fn text_field<'v>(value: &'v JsonValue, name: &str) -> (text: Option<&'v str>)
    ensures
        opt_str_view(text) == match field(value@, name@) {
            Some(found) => text_of(found),
            None => None,
        },
{
    match value.get(name) {
        Some(found) => found.as_str(),
        None => None,
    }
}

pub fn console_project(auth_token: &str, event: &JsonValue) -> (r: String)
    ensures
        r@ == project_name(event@, auth_token@),
{
    let name = match event.get("project") {
        Some(project) => match text_field(project, "alias") {
            Some(alias) => alias,
            None => match text_field(project, "effective_key") {
                Some(key) => key,
                None => "global",
            },
        },
        None => "global",
    };
    console_text(hide_secret(name, auth_token).as_str())
}

pub open spec fn four_times(limit: usize) -> int {
    if 4 * limit <= usize::MAX {
        4 * limit
    } else {
        usize::MAX as int
    }
}

/// The payload of an event, scrubbed and bounded.
pub open spec fn safe_payload(event: JsonView, key: &str, secret: Seq<char>, limit: usize) -> JsonView {
    let value = match field(event, key@) {
        Some(value) => value,
        None => JsonView::Null,
    };
    let safe = scrubbed(value, secret, limit as int);
    bounded(safe, json_text(safe), four_times(limit))
}

/// A serialized payload as it is shown.
pub open spec fn payload_text(text: Option<Seq<char>>) -> Seq<char> {
    match text {
        Some(text) => excerpt(text),
        None => excerpt("{\"serialization_error\":true}"@),
    }
}

pub open spec fn generic_payload(event: JsonView, key: &str, secret: Seq<char>, limit: usize) -> Seq<
    char,
> {
    payload_text(json_text(safe_payload(event, key, secret, limit)))
}

pub fn show_payload(text: Option<String>) -> (r: String)
    ensures
        r@ == payload_text(opt_view(text)),
{
    match text {
        Some(text) => console_excerpt(text.as_str()),
        None => console_excerpt("{\"serialization_error\":true}"),
    }
}

/// The payload of an event, for tools that have no rendering of their own.
pub fn console_generic_payload(auth_token: &str, event: &JsonValue, key: &str, limit: usize) -> (r:
    String)
    requires
        well_ordered(event@),
    ensures
        r@ == generic_payload(event@, key, auth_token@, limit),
{
    let value = match event.get(key) {
        Some(value) => value.copy(),
        None => JsonValue::null(),
    };
    proof {
        lemma_field_ordered(event@, key@);
        scrubbing_keeps_order(value@, auth_token@, limit as int);
    }
    let safe = scrub(&value, auth_token, limit);
    proof {
        bounding_keeps_order(safe@, json_text(safe@), four_times(limit));
    }
    let room = if limit <= usize::MAX / 4 {
        limit * 4
    } else {
        usize::MAX
    };
    let bounded_value = bound_event(safe, room);
    show_payload(to_text(&bounded_value))
}

pub open spec fn pretty_payload(event: JsonView, key: &str, secret: Seq<char>) -> JsonView {
    match field(event, key@) {
        Some(value) => pretty(value, secret),
        None => JsonView::Null,
    }
}

pub fn console_pretty_payload(auth_token: &str, event: &JsonValue, key: &str) -> (r: JsonValue)
    ensures
        r@ == pretty_payload(event@, key, auth_token@),
{
    match event.get(key) {
        Some(value) => console_scrub_pretty(value, auth_token),
        None => JsonValue::null(),
    }
}

pub open spec fn text_at(event: JsonView, key: &str) -> Option<Seq<char>> {
    match field(event, key@) {
        Some(value) => text_of(value),
        None => None,
    }
}

/// Where the line of an event starts: project, direction and tool.
pub open spec fn line_start(
    project: Seq<char>,
    project_color: &str,
    arrow: &str,
    tool: Seq<char>,
    tool_color: &str,
) -> Seq<char> {
    "["@ + colored(project, project_color@) + "] "@ + colored(arrow@, "\x1b[90m"@) + " "@ + colored(
        tool,
        tool_color@,
    )
}

pub open spec fn spaced(text: Seq<char>) -> Seq<char> {
    if text.len() == 0 {
        ""@
    } else {
        " "@ + text
    }
}

/// What is shown of an error: its message behind its code.
pub open spec fn error_text(error: JsonView) -> Option<Seq<char>> {
    match string_field(error, "message") {
        Some(message) => {
            let code = match string_field(error, "code") {
                Some(code) => code + ": "@,
                None => ""@,
            };
            Some(code + message)
        },
        None => None,
    }
}

pub open spec fn call_line(config: LogConfig, secret: Seq<char>, event: JsonView) -> Seq<char> {
    let tool = or_text(text_at(event, "tool"), "unknown");
    let shown = match call_text(tool, pretty_payload(event, "params", secret)) {
        Some(text) => excerpt(text),
        None => generic_payload(event, "params", secret, config.console_param_bytes),
    };
    line_start(project_name(event, secret), "\x1b[32m", "->", tool, "\x1b[31m") + spaced(shown)
}

pub open spec fn result_line(config: LogConfig, secret: Seq<char>, event: JsonView) -> Seq<char> {
    let tool = or_text(text_at(event, "tool"), "unknown");
    let shown = match result_text(tool, pretty_payload(event, "result", secret)) {
        Some(text) => excerpt(text),
        None => generic_payload(event, "result", secret, config.console_result_bytes),
    };
    line_start(project_name(event, secret), "\x1b[34m", "<-", tool, "\x1b[33m") + spaced(shown)
}

pub open spec fn error_line(
    config: LogConfig,
    secret: Seq<char>,
    event: JsonView,
    name: Seq<char>,
) -> Seq<char> {
    let tool = or_text(text_at(event, "tool"), "unknown");
    let shown = match error_text(pretty_payload(event, "error", secret)) {
        Some(text) => text,
        None => generic_payload(event, "error", secret, config.console_result_bytes),
    };
    line_start(project_name(event, secret), "\x1b[34m", "<-", tool, "\x1b[33m") + " "@ + name
        + ": "@ + excerpt(shown)
}

/// The line that the console shows for an event, where it shows one.
pub open spec fn event_line(config: LogConfig, secret: Seq<char>, event: JsonView) -> Option<
    Seq<char>,
> {
    match text_at(event, "event") {
        None => None,
        Some(name) => if name == "tool_call"@ {
            Some(call_line(config, secret, event))
        } else if name == "tool_result"@ {
            Some(result_line(config, secret, event))
        } else if name == "tool_error"@ || name == "tool_timeout"@ {
            Some(error_line(config, secret, event, name))
        } else if name == "plan_updated"@ {
            plan_text(pretty(event, secret))
        } else {
            None
        },
    }
}

/// What the first `count` lines of a plan take of the room for it.
pub open spec fn used_chars(rows: Seq<PlanLineView>, width: nat, count: int) -> nat
    decreases count,
{
    if count <= 0 {
        0
    } else {
        used_chars(rows, width, count - 1) + line_chars(rows[count - 1], width, count == 1)
    }
}

/// The lines of a plan that are shown take no more room than there is, however
/// many steps it has; what is not shown is counted.
pub proof fn shown_plan_is_bounded(rows: Seq<PlanLineView>)
    ensures
        ({
            let width = step_width(rows);
            let count = lines_fitting(rows, width, 0, 0);
            &&& 0 <= count <= rows.len()
            &&& used_chars(rows, width, count) <= CONSOLE_PLAN_BODY_CHARS
            &&& plan_body(rows).len() == if count < rows.len() {
                count + 1
            } else {
                count
            }
        }),
{
    lemma_lines_fitting(rows, step_width(rows), 0, 0);
    lemma_used_chars(rows, step_width(rows), 0, 0);
}

proof fn lemma_used_chars(rows: Seq<PlanLineView>, width: nat, from: int, used: nat)
    requires
        0 <= from <= rows.len(),
        used == used_chars(rows, width, from),
        used <= CONSOLE_PLAN_BODY_CHARS,
    ensures
        used_chars(rows, width, lines_fitting(rows, width, from, used)) <= CONSOLE_PLAN_BODY_CHARS,
    decreases rows.len() - from,
{
    if from < rows.len() && used + line_chars(rows[from], width, from == 0)
        <= CONSOLE_PLAN_BODY_CHARS {
        lemma_used_chars(
            rows,
            width,
            from + 1,
            used + line_chars(rows[from], width, from == 0),
        );
    }
}

fn start_line(
    project: &str,
    project_color: &str,
    arrow: &str,
    tool: &str,
    tool_color: &str,
) -> (r: String)
    ensures
        r@ == line_start(project@, project_color, arrow, tool@, tool_color),
{
    let mut r = join3("[", console_color(project, project_color).as_str(), "] ");
    r.append(console_color(arrow, "\x1b[90m").as_str());
    r.append(" ");
    r.append(console_color(tool, tool_color).as_str());
    r
}

fn append_spaced(r: &mut String, text: &str)
    ensures
        final(r)@ == old(r)@ + spaced(text@),
{
    if text.is_empty() {
        r.append("");
    } else {
        r.append(join2(" ", text).as_str());
    }
}

/// The line that the console shows for an event, where it shows one.
pub fn console_line(config: &LogConfig, auth_token: &str, event: &JsonValue) -> (r: Option<String>)
    requires
        well_ordered(event@),
    ensures
        opt_view(r) == event_line(*config, auth_token@, event@),
{
    let name = match text_field(event, "event") {
        Some(name) => name,
        None => {
            return None;
        },
    };
    let tool = match text_field(event, "tool") {
        Some(tool) => tool,
        None => "unknown",
    };
    let project = console_project(auth_token, event);
    if name.eq("tool_call") {
        let params = console_pretty_payload(auth_token, event, "params");
        let shown = match console_render_tool_call(tool, &params) {
            Some(text) => console_excerpt(text.as_str()),
            None => console_generic_payload(
                auth_token,
                event,
                "params",
                config.console_param_bytes,
            ),
        };
        let mut r = start_line(project.as_str(), "\x1b[32m", "->", tool, "\x1b[31m");
        append_spaced(&mut r, shown.as_str());
        Some(r)
    } else if name.eq("tool_result") {
        let result = console_pretty_payload(auth_token, event, "result");
        let shown = match console_render_tool_result(tool, &result) {
            Some(text) => console_excerpt(text.as_str()),
            None => console_generic_payload(
                auth_token,
                event,
                "result",
                config.console_result_bytes,
            ),
        };
        let mut r = start_line(project.as_str(), "\x1b[34m", "<-", tool, "\x1b[33m");
        append_spaced(&mut r, shown.as_str());
        Some(r)
    } else if name.eq("tool_error") || name.eq("tool_timeout") {
        let error = console_pretty_payload(auth_token, event, "error");
        let shown = match console_string_field(&error, "message") {
            Some(message) => {
                let code = match console_optional_string_field(&error, "code") {
                    Some(code) => join2(code.as_str(), ": "),
                    None => "".to_owned(),
                };
                join2(code.as_str(), message.as_str())
            },
            None => console_generic_payload(
                auth_token,
                event,
                "error",
                config.console_result_bytes,
            ),
        };
        let mut r = start_line(project.as_str(), "\x1b[34m", "<-", tool, "\x1b[33m");
        r.append(" ");
        r.append(name);
        r.append(": ");
        r.append(console_excerpt(shown.as_str()).as_str());
        Some(r)
    } else if name.eq("plan_updated") {
        let safe = console_scrub_pretty(event, auth_token);
        console_plan(&safe)
    } else {
        None
    }
}

}
