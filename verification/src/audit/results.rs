//! How the result of a tool call is shown on the console.
use vstd::prelude::*;

use crate::audit::calls::line_behind;
use crate::audit::console::{
    bool_field, console_bool_field, console_human_bytes, console_optional_string_field,
    console_string_field, console_text, console_u64_field, human_bytes, line_text, string_field,
    u64_field,
};
use crate::audit::parts::{
    blanks, console_join_fields, fields_text, labelled, make_blanks, more_line, opts, or_text,
    pad_left, pad_right, padded_left, padded_right, show_more_line, show_truth_field, truth_field,
    unwrap_text, with_label,
};
use crate::json::{
    field, fixed_decimals, fraction_text, items_of, signed_of, views, JsonValue, JsonView,
};
use crate::text::{
    decimal, decimal_text, decimal_usize, join2, join3, opt_view, signed_decimal, signed_text,
};

verus! {

/// What a list shows of each of its items.
#[derive(Clone, Copy, PartialEq, Eq, Structural)]
pub enum LineKind {
    ChangedFile,
    Entry,
    TreeEntry,
    Path,
    Match,
    Skill,
    NoteKey,
}

pub open spec fn changed_file_line(file: JsonView) -> Option<Seq<char>> {
    match (string_field(file, "path"), string_field(file, "operation")) {
        (Some(path), Some(operation)) => {
            let marker = if operation == "create"@ {
                "+"@
            } else if operation == "delete"@ {
                "-"@
            } else if operation == "move"@ {
                "→"@
            } else {
                "~"@
            };
            Some(
                marker + " "@ + path + or_text(
                    labelled(" -> ", string_field(file, "destination")),
                    "",
                ),
            )
        },
        _ => None,
    }
}

pub open spec fn entry_line(entry: JsonView) -> Option<Seq<char>> {
    match (string_field(entry, "name"), string_field(entry, "type")) {
        (Some(name), Some(kind)) => {
            let bytes = match u64_field(entry, "bytes") {
                Some(n) => human_bytes(n),
                None => "-"@,
            };
            Some(padded_right(kind, 9) + " "@ + padded_left(bytes, 9) + "  "@ + name)
        },
        _ => None,
    }
}

/// How far an entry of a tree is moved to the right.
pub open spec fn tree_indent(depth: Option<u64>) -> int {
    let n = match depth {
        Some(n) => n as int,
        None => 0,
    };
    let capped = if n < 12 {
        n
    } else {
        12
    };
    if capped > 1 {
        2 * (capped - 1)
    } else {
        0
    }
}

pub open spec fn tree_entry_line(entry: JsonView) -> Option<Seq<char>> {
    match (string_field(entry, "path"), string_field(entry, "type")) {
        (Some(path), Some(kind)) => {
            let suffix = if kind == "directory"@ {
                "/"@
            } else if kind == "symlink"@ {
                "@"@
            } else {
                ""@
            };
            Some(blanks(tree_indent(u64_field(entry, "depth"))) + path + suffix)
        },
        _ => None,
    }
}

pub open spec fn match_line(item: JsonView) -> Option<Seq<char>> {
    match string_field(item, "path") {
        Some(path) => {
            let line = match u64_field(item, "line") {
                Some(n) => ":"@ + decimal(n as nat),
                None => ""@,
            };
            Some(path + line + or_text(labelled("  ", string_field(item, "text")), ""))
        },
        None => None,
    }
}

pub open spec fn skill_line(skill: JsonView) -> Option<Seq<char>> {
    match string_field(skill, "name") {
        Some(name) => Some(
            name + or_text(labelled(" — ", string_field(skill, "description")), ""),
        ),
        None => None,
    }
}

/// The line of an item, where it has what the line shows.
pub open spec fn item_line(kind: LineKind, item: JsonView) -> Option<Seq<char>> {
    match kind {
        LineKind::ChangedFile => changed_file_line(item),
        LineKind::Entry => entry_line(item),
        LineKind::TreeEntry => tree_entry_line(item),
        LineKind::Path => match item {
            JsonView::Text(path) => Some(line_text(path)),
            _ => None,
        },
        LineKind::Match => match_line(item),
        LineKind::Skill => skill_line(item),
        LineKind::NoteKey => string_field(item, "key"),
    }
}

/// The lines of the first `count` items.
pub open spec fn item_lines(kind: LineKind, items: Seq<JsonView>, count: int) -> Seq<char>
    decreases count,
{
    if count <= 0 {
        Seq::empty()
    } else {
        let before = item_lines(kind, items, count - 1);
        match item_line(kind, items[count - 1]) {
            Some(line) => before + "\n    "@ + line,
            None => before,
        }
    }
}

/// A list of items: the lines of the first `limit`, and how many more there
/// are.
pub open spec fn list_lines(kind: LineKind, items: Seq<JsonView>, limit: int) -> Seq<char> {
    if items.len() > limit {
        item_lines(kind, items, limit) + more_line(items.len() - limit)
    } else {
        item_lines(kind, items, items.len() as int)
    }
}

fn render_changed_file(file: &JsonValue) -> (r: Option<String>)
    ensures
        opt_view(r) == changed_file_line(file@),
{
    match (console_string_field(file, "path"), console_string_field(file, "operation")) {
        (Some(path), Some(operation)) => {
            let operation = operation.as_str();
            let marker = if operation.eq("create") {
                "+"
            } else if operation.eq("delete") {
                "-"
            } else if operation.eq("move") {
                "→"
            } else {
                "~"
            };
            let mut r = join3(marker, " ", path.as_str());
            let destination = with_label(" -> ", console_optional_string_field(file, "destination"));
            r.append(unwrap_text(destination, "").as_str());
            Some(r)
        },
        _ => None,
    }
}

fn render_entry(entry: &JsonValue) -> (r: Option<String>)
    ensures
        opt_view(r) == entry_line(entry@),
{
    match (console_string_field(entry, "name"), console_string_field(entry, "type")) {
        (Some(name), Some(kind)) => {
            let bytes = match console_u64_field(entry, "bytes") {
                Some(n) => console_human_bytes(n),
                None => "-".to_owned(),
            };
            let mut r = pad_right(kind.as_str(), 9);
            r.append(" ");
            r.append(pad_left(bytes.as_str(), 9).as_str());
            r.append("  ");
            r.append(name.as_str());
            Some(r)
        },
        _ => None,
    }
}

fn render_tree_entry(entry: &JsonValue) -> (r: Option<String>)
    ensures
        opt_view(r) == tree_entry_line(entry@),
{
    match (console_string_field(entry, "path"), console_string_field(entry, "type")) {
        (Some(path), Some(kind)) => {
            let suffix = if kind.as_str().eq("directory") {
                "/"
            } else if kind.as_str().eq("symlink") {
                "@"
            } else {
                ""
            };
            let depth: u64 = match console_u64_field(entry, "depth") {
                Some(n) => n,
                None => 0,
            };
            let capped: u64 = if depth < 12 {
                depth
            } else {
                12
            };
            let indent: usize = if capped > 1 {
                2 * (capped as usize - 1)
            } else {
                0
            };
            Some(join3(make_blanks(indent).as_str(), path.as_str(), suffix))
        },
        _ => None,
    }
}

fn render_match(item: &JsonValue) -> (r: Option<String>)
    ensures
        opt_view(r) == match_line(item@),
{
    match console_string_field(item, "path") {
        Some(path) => {
            let line = match console_u64_field(item, "line") {
                Some(n) => join2(":", decimal_text(n).as_str()),
                None => "".to_owned(),
            };
            let text = with_label("  ", console_optional_string_field(item, "text"));
            Some(join3(path.as_str(), line.as_str(), unwrap_text(text, "").as_str()))
        },
        None => None,
    }
}

fn render_skill(skill: &JsonValue) -> (r: Option<String>)
    ensures
        opt_view(r) == skill_line(skill@),
{
    match console_string_field(skill, "name") {
        Some(name) => {
            let description = with_label(
                " — ",
                console_optional_string_field(skill, "description"),
            );
            Some(join2(name.as_str(), unwrap_text(description, "").as_str()))
        },
        None => None,
    }
}

fn render_item(kind: LineKind, item: &JsonValue) -> (r: Option<String>)
    ensures
        opt_view(r) == item_line(kind, item@),
{
    match kind {
        LineKind::ChangedFile => render_changed_file(item),
        LineKind::Entry => render_entry(item),
        LineKind::TreeEntry => render_tree_entry(item),
        LineKind::Path => match item.as_str() {
            Some(path) => Some(console_text(path)),
            None => None,
        },
        LineKind::Match => render_match(item),
        LineKind::Skill => render_skill(item),
        LineKind::NoteKey => console_string_field(item, "key"),
    }
}

/// The lines of the first `limit` items, and how many more there are.
pub fn console_list_lines(kind: LineKind, items: &Vec<JsonValue>, limit: usize) -> (r: String)
    ensures
        r@ == list_lines(kind, views(items@), limit as int),
{
    let count = if items.len() > limit {
        limit
    } else {
        items.len()
    };
    let ghost all = views(items@);
    let mut r = String::new();
    let mut i: usize = 0;
    while i < count
        invariant
            i <= count <= items@.len(),
            all == views(items@),
            r@ == item_lines(kind, all, i as int),
        decreases count - i,
    {
        if let Some(line) = render_item(kind, &items[i]) {
            r.append("\n    ");
            r.append(line.as_str());
        }
        i += 1;
    }
    if items.len() > limit {
        r.append(show_more_line(items.len() - limit).as_str());
    }
    r
}

pub open spec fn signed_field(value: JsonView, key: &str) -> Option<i64> {
    match field(value, key@) {
        Some(found) => signed_of(found),
        None => None,
    }
}

/// A number of seconds with two decimals.
pub open spec fn seconds_field(value: JsonView, key: &str) -> Option<Seq<char>> {
    match field(value, key@) {
        Some(JsonView::Number(n)) => fixed_decimals(n, 2),
        _ => None,
    }
}

pub open spec fn not_empty(value: Option<Seq<char>>) -> Option<Seq<char>> {
    match value {
        Some(text) if text.len() > 0 => Some(text),
        _ => None,
    }
}

pub open spec fn process_result(result: JsonView) -> Option<Seq<char>> {
    match string_field(result, "completion_reason") {
        None => None,
        Some(reason) => Some(
            fields_text(
                seq![
                    Some(reason),
                    match signed_field(result, "exit_code") {
                        Some(code) => Some("exit="@ + signed_decimal(code as int)),
                        None => None,
                    },
                    match seconds_field(result, "wall_time_seconds") {
                        Some(seconds) => Some(seconds + "s"@),
                        None => None,
                    },
                    labelled("session=", string_field(result, "session_id")),
                    crate::audit::parts::flag(bool_field(result, "truncated"), "truncated"),
                    labelled("output=", not_empty(string_field(result, "output"))),
                ],
            ),
        ),
    }
}

pub fn console_render_process_result(result: &JsonValue) -> (r: Option<String>)
    ensures
        opt_view(r) == process_result(result@),
{
    let reason = match console_string_field(result, "completion_reason") {
        Some(reason) => reason,
        None => {
            return None;
        },
    };
    let ghost shown_reason = reason@;
    let mut fields: Vec<Option<String>> = Vec::new();
    fields.push(Some(reason));
    let exit_code = match result.get("exit_code") {
        Some(code) => code.as_i64(),
        None => None,
    };
    let exit = match exit_code {
        Some(code) => Some(join2("exit=", signed_text(code).as_str())),
        None => None,
    };
    fields.push(exit);
    let seconds = match result.get("wall_time_seconds") {
        Some(JsonValue::Number(n)) => fraction_text(n, 2),
        _ => None,
    };
    proof {
        assert(opt_view(seconds) == seconds_field(result@, "wall_time_seconds"));
    }
    let time = match seconds {
        Some(text) => Some(join2(text.as_str(), "s")),
        None => None,
    };
    fields.push(time);
    fields.push(with_label("session=", console_optional_string_field(result, "session_id")));
    fields.push(
        crate::audit::parts::show_flag(console_bool_field(result, "truncated"), "truncated"),
    );
    let output = match console_optional_string_field(result, "output") {
        Some(text) => if text.as_str().is_empty() {
            None
        } else {
            Some(text)
        },
        None => None,
    };
    fields.push(with_label("output=", output));
    proof {
        assert(opts(fields@) =~= seq![
            Some(shown_reason),
            match signed_field(result@, "exit_code") {
                Some(code) => Some("exit="@ + signed_decimal(code as int)),
                None => None,
            },
            match seconds_field(result@, "wall_time_seconds") {
                Some(seconds) => Some(seconds + "s"@),
                None => None,
            },
            labelled("session=", string_field(result@, "session_id")),
            crate::audit::parts::flag(bool_field(result@, "truncated"), "truncated"),
            labelled("output=", not_empty(string_field(result@, "output"))),
        ]);
    }
    Some(console_join_fields(fields))
}


pub open spec fn items_field(value: JsonView, key: &str) -> Option<Seq<JsonView>> {
    match field(value, key@) {
        Some(found) => items_of(found),
        None => None,
    }
}

fn get_items<'v>(value: &'v JsonValue, key: &str) -> (items: Option<&'v Vec<JsonValue>>)
    ensures
        match items {
            Some(items) => items_field(value@, key) == Some(views(items@)),
            None => items_field(value@, key) is None,
        },
{
    match value.get(key) {
        Some(found) => found.as_array(),
        None => None,
    }
}

/// Some lines where there are items, none where there are none.
pub open spec fn lines_of(kind: LineKind, items: Option<Seq<JsonView>>, limit: int) -> Seq<char> {
    match items {
        Some(items) => list_lines(kind, items, limit),
        None => ""@,
    }
}

pub open spec fn turn_init_result(result: JsonView) -> Option<Seq<char>> {
    match string_field(result, "status") {
        None => None,
        Some(status) => if status == "soft_error"@ {
            let code = match field(result, "soft_error"@) {
                Some(value) => string_field(value, "code"),
                None => None,
            };
            Some(status + " "@ + or_text(code, "soft_error"))
        } else {
            Some(
                fields_text(
                    seq![
                        Some(status),
                        labelled("project=", string_field(result, "project_key")),
                        labelled("workspace=", string_field(result, "workspace_state")),
                        labelled(
                            "instructions_changed=",
                            truth_field(bool_field(result, "instructions_changed")),
                        ),
                        labelled(
                            "state_changed=",
                            truth_field(bool_field(result, "state_changed")),
                        ),
                        labelled("turn=", string_field(result, "turn_ref")),
                    ],
                ),
            )
        },
    }
}

fn render_turn_init(result: &JsonValue) -> (r: Option<String>)
    ensures
        opt_view(r) == turn_init_result(result@),
{
    let status = match console_string_field(result, "status") {
        Some(status) => status,
        None => {
            return None;
        },
    };
    if status.as_str().eq("soft_error") {
        let code = match result.get("soft_error") {
            Some(value) => console_string_field(value, "code"),
            None => None,
        };
        return Some(join3(status.as_str(), " ", unwrap_text(code, "soft_error").as_str()));
    }
    let ghost shown = status@;
    let mut fields: Vec<Option<String>> = Vec::new();
    fields.push(Some(status));
    fields.push(with_label("project=", console_optional_string_field(result, "project_key")));
    fields.push(
        with_label("workspace=", console_optional_string_field(result, "workspace_state")),
    );
    fields.push(
        with_label(
            "instructions_changed=",
            show_truth_field(console_bool_field(result, "instructions_changed")),
        ),
    );
    fields.push(
        with_label(
            "state_changed=",
            show_truth_field(console_bool_field(result, "state_changed")),
        ),
    );
    fields.push(with_label("turn=", console_optional_string_field(result, "turn_ref")));
    proof {
        assert(opts(fields@) =~= seq![
            Some(shown),
            labelled("project=", string_field(result@, "project_key")),
            labelled("workspace=", string_field(result@, "workspace_state")),
            labelled(
                "instructions_changed=",
                truth_field(bool_field(result@, "instructions_changed")),
            ),
            labelled("state_changed=", truth_field(bool_field(result@, "state_changed"))),
            labelled("turn=", string_field(result@, "turn_ref")),
        ]);
    }
    Some(console_join_fields(fields))
}

pub open spec fn patch_result(result: JsonView) -> Option<Seq<char>> {
    match (bool_field(result, "applied"), u64_field(result, "count")) {
        (Some(applied), Some(count)) => {
            let verdict = if applied {
                "applied"@
            } else {
                "not applied"@
            };
            Some(
                verdict + " "@ + decimal(count as nat) + " file(s)"@ + lines_of(
                    LineKind::ChangedFile,
                    items_field(result, "files"),
                    8,
                ),
            )
        },
        _ => None,
    }
}

fn render_patch(result: &JsonValue) -> (r: Option<String>)
    ensures
        opt_view(r) == patch_result(result@),
{
    match (console_bool_field(result, "applied"), console_u64_field(result, "count")) {
        (Some(applied), Some(count)) => {
            let verdict = if applied {
                "applied"
            } else {
                "not applied"
            };
            let mut r = join3(verdict, " ", decimal_text(count).as_str());
            r.append(" file(s)");
            let list = match get_items(result, "files") {
                Some(files) => console_list_lines(LineKind::ChangedFile, files, 8),
                None => "".to_owned(),
            };
            r.append(list.as_str());
            Some(r)
        },
        _ => None,
    }
}

/// The last line of a window; a sum that does not fit is the largest number.
pub open spec fn window_end(offset: u64, shown: u64) -> nat {
    if offset + shown <= u64::MAX {
        (offset + shown) as nat
    } else {
        u64::MAX as nat
    }
}

/// What was read of a file: its size, the lines that are shown, and their text.
pub open spec fn read_file_result(result: JsonView) -> Option<Seq<char>> {
    match (
        string_field(result, "path"),
        u64_field(result, "bytes"),
        u64_field(result, "total_lines"),
        u64_field(result, "shown_lines"),
        u64_field(result, "offset"),
    ) {
        (Some(path), Some(bytes), Some(total), Some(shown), Some(offset)) => Some(
            path + "  "@ + human_bytes(bytes) + "  lines="@ + decimal(total as nat) + "  window="@
                + decimal(line_behind(offset)) + ".."@ + decimal(window_end(offset, shown)) + (
            if bool_field(result, "truncated") == Some(true) {
                "  truncated"@
            } else {
                ""@
            }) + or_text(labelled("  content=", not_empty(string_field(result, "content"))), ""),
        ),
        _ => None,
    }
}

fn render_read_file(result: &JsonValue) -> (r: Option<String>)
    ensures
        opt_view(r) == read_file_result(result@),
{
    match (
        console_string_field(result, "path"),
        console_u64_field(result, "bytes"),
        console_u64_field(result, "total_lines"),
        console_u64_field(result, "shown_lines"),
        console_u64_field(result, "offset"),
    ) {
        (Some(path), Some(bytes), Some(total), Some(shown), Some(offset)) => {
            let mut r = join3(path.as_str(), "  ", console_human_bytes(bytes).as_str());
            r.append("  lines=");
            r.append(decimal_text(total).as_str());
            r.append("  window=");
            r.append(decimal_text(offset.saturating_add(1)).as_str());
            r.append("..");
            r.append(decimal_text(offset.saturating_add(shown)).as_str());
            let cut = match console_bool_field(result, "truncated") {
                Some(b) => b,
                None => false,
            };
            r.append(
                if cut {
                    "  truncated"
                } else {
                    ""
                },
            );
            let content = match console_optional_string_field(result, "content") {
                Some(text) => if text.as_str().is_empty() {
                    None
                } else {
                    Some(text)
                },
                None => None,
            };
            r.append(unwrap_text(with_label("  content=", content), "").as_str());
            Some(r)
        },
        _ => None,
    }
}

pub open spec fn list_directory_result(result: JsonView) -> Option<Seq<char>> {
    match (string_field(result, "path"), u64_field(result, "count")) {
        (Some(path), Some(count)) => Some(
            path + "  "@ + decimal(count as nat) + " entr"@ + (if count == 1 {
                "y"@
            } else {
                "ies"@
            }) + lines_of(LineKind::Entry, items_field(result, "entries"), 8),
        ),
        _ => None,
    }
}

fn render_list_directory(result: &JsonValue) -> (r: Option<String>)
    ensures
        opt_view(r) == list_directory_result(result@),
{
    match (console_string_field(result, "path"), console_u64_field(result, "count")) {
        (Some(path), Some(count)) => {
            let mut r = join3(path.as_str(), "  ", decimal_text(count).as_str());
            r.append(" entr");
            r.append(
                if count == 1 {
                    "y"
                } else {
                    "ies"
                },
            );
            let list = match get_items(result, "entries") {
                Some(entries) => console_list_lines(LineKind::Entry, entries, 8),
                None => "".to_owned(),
            };
            r.append(list.as_str());
            Some(r)
        },
        _ => None,
    }
}

pub open spec fn tree_result(result: JsonView) -> Option<Seq<char>> {
    match (string_field(result, "path"), items_field(result, "entries")) {
        (Some(path), Some(entries)) => Some(
            path + "  "@ + decimal(entries.len()) + " entries"@ + list_lines(
                LineKind::TreeEntry,
                entries,
                10,
            ),
        ),
        _ => None,
    }
}

fn render_tree(result: &JsonValue) -> (r: Option<String>)
    ensures
        opt_view(r) == tree_result(result@),
{
    match (console_string_field(result, "path"), get_items(result, "entries")) {
        (Some(path), Some(entries)) => {
            let mut r = join3(path.as_str(), "  ", decimal_usize(entries.len()).as_str());
            r.append(" entries");
            r.append(console_list_lines(LineKind::TreeEntry, entries, 10).as_str());
            Some(r)
        },
        _ => None,
    }
}

/// A number that is given, else the number of items.
pub open spec fn count_or(value: Option<u64>, items: Seq<JsonView>) -> nat {
    match value {
        Some(n) => n as nat,
        None => items.len(),
    }
}

pub open spec fn glob_result(result: JsonView) -> Option<Seq<char>> {
    match items_field(result, "paths") {
        Some(paths) => Some(
            decimal(count_or(u64_field(result, "count"), paths)) + " match(es)"@ + list_lines(
                LineKind::Path,
                paths,
                10,
            ),
        ),
        None => None,
    }
}

fn render_count(value: Option<u64>, items: &Vec<JsonValue>) -> (r: String)
    ensures
        r@ == decimal(count_or(value, views(items@))),
{
    match value {
        Some(n) => decimal_text(n),
        None => decimal_usize(items.len()),
    }
}

fn render_glob(result: &JsonValue) -> (r: Option<String>)
    ensures
        opt_view(r) == glob_result(result@),
{
    match get_items(result, "paths") {
        Some(paths) => {
            let mut r = render_count(console_u64_field(result, "count"), paths);
            r.append(" match(es)");
            r.append(console_list_lines(LineKind::Path, paths, 10).as_str());
            Some(r)
        },
        None => None,
    }
}

pub open spec fn grep_result(result: JsonView) -> Option<Seq<char>> {
    match items_field(result, "matches") {
        Some(found) => Some(
            decimal(count_or(u64_field(result, "count"), found)) + " match(es)"@ + (
            if bool_field(result, "incomplete") == Some(true) {
                "  incomplete"@
            } else {
                ""@
            }) + list_lines(LineKind::Match, found, 8),
        ),
        None => None,
    }
}

fn render_grep(result: &JsonValue) -> (r: Option<String>)
    ensures
        opt_view(r) == grep_result(result@),
{
    match get_items(result, "matches") {
        Some(found) => {
            let mut r = render_count(console_u64_field(result, "count"), found);
            r.append(" match(es)");
            let incomplete = match console_bool_field(result, "incomplete") {
                Some(b) => b,
                None => false,
            };
            r.append(
                if incomplete {
                    "  incomplete"
                } else {
                    ""
                },
            );
            r.append(console_list_lines(LineKind::Match, found, 8).as_str());
            Some(r)
        },
        None => None,
    }
}

pub open spec fn view_image_result(result: JsonView) -> Option<Seq<char>> {
    match (
        string_field(result, "path"),
        string_field(result, "mime_type"),
        u64_field(result, "bytes"),
    ) {
        (Some(path), Some(mime), Some(bytes)) => Some(
            fields_text(seq![Some(path), Some(mime), Some(human_bytes(bytes))]),
        ),
        _ => None,
    }
}

fn render_view_image(result: &JsonValue) -> (r: Option<String>)
    ensures
        opt_view(r) == view_image_result(result@),
{
    match (
        console_string_field(result, "path"),
        console_string_field(result, "mime_type"),
        console_u64_field(result, "bytes"),
    ) {
        (Some(path), Some(mime), Some(bytes)) => {
            let ghost shown = seq![Some(path@), Some(mime@), Some(human_bytes(bytes))];
            let mut fields: Vec<Option<String>> = Vec::new();
            fields.push(Some(path));
            fields.push(Some(mime));
            fields.push(Some(console_human_bytes(bytes)));
            proof {
                assert(opts(fields@) =~= shown);
            }
            Some(console_join_fields(fields))
        },
        _ => None,
    }
}

pub open spec fn skills_list_result(result: JsonView) -> Option<Seq<char>> {
    match items_field(result, "skills") {
        Some(skills) => Some(
            decimal(skills.len()) + " skill(s)"@ + list_lines(LineKind::Skill, skills, 8),
        ),
        None => None,
    }
}

fn render_skills_list(result: &JsonValue) -> (r: Option<String>)
    ensures
        opt_view(r) == skills_list_result(result@),
{
    match get_items(result, "skills") {
        Some(skills) => {
            let mut r = decimal_usize(skills.len());
            r.append(" skill(s)");
            r.append(console_list_lines(LineKind::Skill, skills, 8).as_str());
            Some(r)
        },
        None => None,
    }
}

pub open spec fn skills_read_result(result: JsonView) -> Option<Seq<char>> {
    match (
        string_field(result, "name"),
        string_field(result, "resource"),
        u64_field(result, "shown_bytes"),
        u64_field(result, "total_bytes"),
        bool_field(result, "truncated"),
    ) {
        (Some(name), Some(resource), Some(shown), Some(total), Some(truncated)) => Some(
            fields_text(
                seq![
                    Some("skill="@ + name),
                    Some("resource="@ + resource),
                    Some("shown="@ + human_bytes(shown)),
                    Some("total="@ + human_bytes(total)),
                    if truncated {
                        Some("continued"@)
                    } else {
                        None
                    },
                ],
            ),
        ),
        _ => None,
    }
}

fn render_skills_read(result: &JsonValue) -> (r: Option<String>)
    ensures
        opt_view(r) == skills_read_result(result@),
{
    match (
        console_string_field(result, "name"),
        console_string_field(result, "resource"),
        console_u64_field(result, "shown_bytes"),
        console_u64_field(result, "total_bytes"),
        console_bool_field(result, "truncated"),
    ) {
        (Some(name), Some(resource), Some(shown), Some(total), Some(truncated)) => {
            let mut fields: Vec<Option<String>> = Vec::new();
            fields.push(Some(join2("skill=", name.as_str())));
            fields.push(Some(join2("resource=", resource.as_str())));
            fields.push(Some(join2("shown=", console_human_bytes(shown).as_str())));
            fields.push(Some(join2("total=", console_human_bytes(total).as_str())));
            fields.push(
                if truncated {
                    Some("continued".to_owned())
                } else {
                    None
                },
            );
            proof {
                assert(opts(fields@) =~= seq![
                    Some("skill="@ + name@),
                    Some("resource="@ + resource@),
                    Some("shown="@ + human_bytes(shown)),
                    Some("total="@ + human_bytes(total)),
                    if truncated {
                        Some("continued"@)
                    } else {
                        None
                    },
                ]);
            }
            Some(console_join_fields(fields))
        },
        _ => None,
    }
}

pub open spec fn remember_result(result: JsonView) -> Option<Seq<char>> {
    match (
        string_field(result, "key"),
        bool_field(result, "saved"),
        bool_field(result, "deleted"),
    ) {
        (Some(key), Some(saved), Some(deleted)) => {
            let state = if saved {
                "saved"@
            } else if deleted {
                "deleted"@
            } else {
                "unchanged"@
            };
            Some(state + " "@ + key)
        },
        _ => None,
    }
}

fn render_remember(result: &JsonValue) -> (r: Option<String>)
    ensures
        opt_view(r) == remember_result(result@),
{
    match (
        console_string_field(result, "key"),
        console_bool_field(result, "saved"),
        console_bool_field(result, "deleted"),
    ) {
        (Some(key), Some(saved), Some(deleted)) => {
            let state = if saved {
                "saved"
            } else if deleted {
                "deleted"
            } else {
                "unchanged"
            };
            Some(join3(state, " ", key.as_str()))
        },
        _ => None,
    }
}

/// How many steps a plan has.
pub open spec fn plan_steps(plan: JsonView) -> nat {
    match items_field(plan, "items") {
        Some(items) => items.len(),
        None => 0,
    }
}

pub open spec fn recall_page_result(result: JsonView) -> Option<Seq<char>> {
    match items_field(result, "notes") {
        None => None,
        Some(notes) => {
            let offset = match u64_field(result, "offset") {
                Some(n) => n as nat,
                None => 0,
            };
            let plan = match field(result, "plan"@) {
                Some(plan) if !(plan is Null) => "  plan="@ + decimal(plan_steps(plan))
                    + " task(s)"@,
                _ => ""@,
            };
            Some(
                decimal(notes.len()) + " memory note(s)  offset="@ + decimal(offset) + "/"@
                    + decimal(count_or(u64_field(result, "total"), notes)) + list_lines(
                    LineKind::NoteKey,
                    notes,
                    10,
                ) + plan,
            )
        },
    }
}

pub open spec fn recall_result(result: JsonView) -> Option<Seq<char>> {
    match string_field(result, "key") {
        Some(key) => match field(result, "value"@) {
            None => None,
            Some(value) => Some(
                "key="@ + key + "  "@ + if value is Null {
                    "missing"@
                } else {
                    "found"@
                },
            ),
        },
        None => recall_page_result(result),
    }
}

fn render_recall_page(result: &JsonValue) -> (r: Option<String>)
    ensures
        opt_view(r) == recall_page_result(result@),
{
    match get_items(result, "notes") {
        None => None,
        Some(notes) => {
            let offset: u64 = match console_u64_field(result, "offset") {
                Some(n) => n,
                None => 0,
            };
            let mut r = decimal_usize(notes.len());
            r.append(" memory note(s)  offset=");
            r.append(decimal_text(offset).as_str());
            r.append("/");
            r.append(render_count(console_u64_field(result, "total"), notes).as_str());
            r.append(console_list_lines(LineKind::NoteKey, notes, 10).as_str());
            let mut plan_part = "".to_owned();
            if let Some(plan) = result.get("plan") {
                if !plan.is_null() {
                    let steps: usize = match get_items(plan, "items") {
                        Some(items) => items.len(),
                        None => 0,
                    };
                    plan_part = join3("  plan=", decimal_usize(steps).as_str(), " task(s)");
                }
            }
            r.append(plan_part.as_str());
            Some(r)
        },
    }
}

fn render_recall(result: &JsonValue) -> (r: Option<String>)
    ensures
        opt_view(r) == recall_result(result@),
{
    match console_optional_string_field(result, "key") {
        Some(key) => match result.get("value") {
            None => None,
            Some(value) => {
                let mut r = join3("key=", key.as_str(), "  ");
                r.append(
                    if value.is_null() {
                        "missing"
                    } else {
                        "found"
                    },
                );
                Some(r)
            },
        },
        None => render_recall_page(result),
    }
}

/// The result of a tool call as it is shown, where it is one of that tool.
pub open spec fn result_text(tool: Seq<char>, result: JsonView) -> Option<Seq<char>> {
    if tool == "chatgpt_turn_init"@ {
        turn_init_result(result)
    } else if tool == "apply_patch"@ {
        patch_result(result)
    } else if tool == "read_file"@ {
        read_file_result(result)
    } else if tool == "list_directory"@ {
        list_directory_result(result)
    } else if tool == "tree"@ {
        tree_result(result)
    } else if tool == "glob"@ {
        glob_result(result)
    } else if tool == "grep"@ {
        grep_result(result)
    } else if tool == "view_image"@ {
        view_image_result(result)
    } else if tool == "exec_command"@ || tool == "write_stdin"@ {
        process_result(result)
    } else if tool == "skills_list"@ {
        skills_list_result(result)
    } else if tool == "skills_read"@ {
        skills_read_result(result)
    } else if tool == "remember"@ {
        remember_result(result)
    } else if tool == "recall"@ {
        recall_result(result)
    } else if tool == "update_plan"@ {
        Some(Seq::empty())
    } else {
        None
    }
}

/// The result of a tool call as it is shown, where it is one of that tool.
pub fn console_render_tool_result(tool: &str, result: &JsonValue) -> (r: Option<String>)
    ensures
        opt_view(r) == result_text(tool@, result@),
{
    if tool.eq("chatgpt_turn_init") {
        render_turn_init(result)
    } else if tool.eq("apply_patch") {
        render_patch(result)
    } else if tool.eq("read_file") {
        render_read_file(result)
    } else if tool.eq("list_directory") {
        render_list_directory(result)
    } else if tool.eq("tree") {
        render_tree(result)
    } else if tool.eq("glob") {
        render_glob(result)
    } else if tool.eq("grep") {
        render_grep(result)
    } else if tool.eq("view_image") {
        render_view_image(result)
    } else if tool.eq("exec_command") || tool.eq("write_stdin") {
        console_render_process_result(result)
    } else if tool.eq("skills_list") {
        render_skills_list(result)
    } else if tool.eq("skills_read") {
        render_skills_read(result)
    } else if tool.eq("remember") {
        render_remember(result)
    } else if tool.eq("recall") {
        render_recall(result)
    } else if tool.eq("update_plan") {
        Some(String::new())
    } else {
        None
    }
}

}
