//! How a tool call is shown on the console.
use vstd::prelude::*;

use crate::audit::console::{
    bool_field, console_bool_field, console_human_bytes, console_optional_string_field,
    console_string_field, console_text, console_u64_field, human_bytes, line_text, string_field,
    u64_field,
};
use crate::audit::parts::{
    console_join_fields, fields_text, flag, keep_nonzero, labelled, more_line, nonzero, number_text,
    opts, or_text, show_flag, show_more_line, show_number, show_truth, truth_text, unwrap_text,
    with_label,
};
use crate::json::{field, JsonValue, JsonView};
use crate::search::{has_prefix, lines, split_lines, starts_with, texts};
use crate::text::{decimal, decimal_text, from_chars, join2, join3, opt_view, to_chars};

verus! {

/// What follows a prefix.
pub open spec fn after_prefix(line: Seq<char>, prefix: Seq<char>) -> Seq<char> {
    line.skip(prefix.len() as int)
}

/// What a line of a patch changes, if it names a file.
pub open spec fn patch_target(line: Seq<char>) -> Option<Seq<char>> {
    if starts_with(line, "*** Add File: "@) {
        Some("+"@ + " "@ + line_text(after_prefix(line, "*** Add File: "@)))
    } else if starts_with(line, "*** Update File: "@) {
        Some("~"@ + " "@ + line_text(after_prefix(line, "*** Update File: "@)))
    } else if starts_with(line, "*** Delete File: "@) {
        Some("-"@ + " "@ + line_text(after_prefix(line, "*** Delete File: "@)))
    } else if starts_with(line, "*** Move to: "@) {
        Some("→"@ + " "@ + line_text(after_prefix(line, "*** Move to: "@)))
    } else {
        None
    }
}

/// What a patch changes, in the order of its lines.
pub open spec fn patch_targets(rows: Seq<Seq<char>>) -> Seq<Seq<char>>
    decreases rows.len(),
{
    if rows.len() == 0 {
        Seq::empty()
    } else {
        match patch_target(rows.last()) {
            Some(target) => patch_targets(rows.drop_last()).push(target),
            None => patch_targets(rows.drop_last()),
        }
    }
}

fn strip(line: &str, prefix: &str) -> (rest: Option<String>)
    ensures
        opt_view(rest) == if starts_with(line@, prefix@) {
            Some(after_prefix(line@, prefix@))
        } else {
            None
        },
{
    if has_prefix(line, prefix) {
        let chars = to_chars(line);
        let start = to_chars(prefix).len();
        proof {
            assert(chars@.subrange(start as int, chars@.len() as int) =~= after_prefix(
                line@,
                prefix@,
            ));
        }
        Some(from_chars(&chars, start, chars.len()))
    } else {
        None
    }
}

fn find_target(line: &str) -> (target: Option<String>)
    ensures
        opt_view(target) == patch_target(line@),
{
    if let Some(path) = strip(line, "*** Add File: ") {
        return Some(join3("+", " ", console_text(path.as_str()).as_str()));
    }
    if let Some(path) = strip(line, "*** Update File: ") {
        return Some(join3("~", " ", console_text(path.as_str()).as_str()));
    }
    if let Some(path) = strip(line, "*** Delete File: ") {
        return Some(join3("-", " ", console_text(path.as_str()).as_str()));
    }
    if let Some(path) = strip(line, "*** Move to: ") {
        return Some(join3("→", " ", console_text(path.as_str()).as_str()));
    }
    None
}

/// The files that a patch names, each behind a sign for what happens to it.
pub fn console_patch_targets(input: &str) -> (targets: Vec<String>)
    ensures
        texts(targets@) == patch_targets(lines(input@)),
{
    let rows = split_lines(input);
    let ghost all = texts(rows@);
    let mut targets: Vec<String> = Vec::new();
    let mut i: usize = 0;
    proof {
        assert(texts(targets@) =~= Seq::empty());
    }
    while i < rows.len()
        invariant
            i <= rows@.len(),
            all == texts(rows@),
            texts(targets@) == patch_targets(all.take(i as int)),
        decreases rows.len() - i,
    {
        proof {
            assert(all.take(i + 1).drop_last() =~= all.take(i as int));
            assert(all.take(i + 1).last() == rows@[i as int]@);
        }
        let ghost before = texts(targets@);
        if let Some(target) = find_target(rows[i].as_str()) {
            let ghost shown = target@;
            targets.push(target);
            proof {
                assert(texts(targets@) =~= before.push(shown));
            }
        }
        i += 1;
    }
    proof {
        assert(all.take(i as int) =~= all);
    }
    targets
}

/// The first `count` lines, each on a line of its own.
pub open spec fn listed(rows: Seq<Seq<char>>, count: int) -> Seq<char>
    decreases count,
{
    if count <= 0 {
        Seq::empty()
    } else {
        listed(rows, count - 1) + "\n    "@ + rows[count - 1]
    }
}

/// The text of a patch call.
pub open spec fn patch_text(targets: Seq<Seq<char>>) -> Seq<char> {
    if targets.len() > 6 {
        "patch"@ + listed(targets, 6) + more_line(targets.len() - 6)
    } else {
        "patch"@ + listed(targets, targets.len() as int)
    }
}

fn render_patch(input: &str) -> (r: String)
    ensures
        r@ == patch_text(patch_targets(lines(input@))),
{
    let targets = console_patch_targets(input);
    let ghost all = texts(targets@);
    let count = if targets.len() > 6 {
        6
    } else {
        targets.len()
    };
    let mut list = String::new();
    let mut i: usize = 0;
    while i < count
        invariant
            i <= count <= targets@.len(),
            all == texts(targets@),
            list@ == listed(all, i as int),
        decreases count - i,
    {
        list.append("\n    ");
        list.append(targets[i].as_str());
        i += 1;
    }
    let mut r = join2("patch", list.as_str());
    if targets.len() > 6 {
        r.append(show_more_line(targets.len() - 6).as_str());
    }
    r
}

pub open spec fn turn_init_call(params: JsonView) -> Option<Seq<char>> {
    match bool_field(params, "previous_turn_ref_present") {
        None => None,
        Some(present) => Some(
            fields_text(
                seq![
                    labelled("project=", string_field(params, "project_key")),
                    Some("previous_turn_ref="@ + truth_text(present)),
                ],
            ),
        ),
    }
}

pub open spec fn patch_call(params: JsonView) -> Option<Seq<char>> {
    match field(params, "input"@) {
        Some(JsonView::Text(input)) => Some(patch_text(patch_targets(lines(input)))),
        _ => None,
    }
}

/// The number of the line behind `offset` others, counted from 1; one that does not
/// fit is the largest number.
pub open spec fn line_behind(offset: u64) -> nat {
    if offset < u64::MAX {
        (offset + 1) as nat
    } else {
        u64::MAX as nat
    }
}

pub open spec fn line_number(offset: Option<u64>) -> Option<Seq<char>> {
    match offset {
        Some(n) => Some(decimal(line_behind(n))),
        None => None,
    }
}

pub open spec fn size_text(bytes: Option<u64>) -> Option<Seq<char>> {
    match bytes {
        Some(n) => Some(human_bytes(n)),
        None => None,
    }
}

pub open spec fn read_file_call(params: JsonView) -> Option<Seq<char>> {
    match string_field(params, "path") {
        None => None,
        Some(path) => Some(
            fields_text(
                seq![
                    Some(path),
                    labelled("line=", line_number(u64_field(params, "offset"))),
                    labelled(
                        "byte=",
                        number_text(nonzero(u64_field(params, "line_byte_offset"))),
                    ),
                    labelled("limit=", number_text(u64_field(params, "limit"))),
                    labelled("max=", size_text(u64_field(params, "max_bytes"))),
                ],
            ),
        ),
    }
}

pub open spec fn list_directory_call(params: JsonView) -> Seq<char> {
    fields_text(
        seq![
            Some(or_text(string_field(params, "path"), ".")),
            labelled("offset=", number_text(nonzero(u64_field(params, "offset")))),
            labelled("max=", number_text(u64_field(params, "max_results"))),
        ],
    )
}

pub open spec fn tree_call(params: JsonView) -> Seq<char> {
    fields_text(
        seq![
            Some(or_text(string_field(params, "path"), ".")),
            labelled("depth=", number_text(u64_field(params, "max_depth"))),
            labelled("offset=", number_text(nonzero(u64_field(params, "offset")))),
            labelled("max=", number_text(u64_field(params, "max_entries"))),
        ],
    )
}

pub open spec fn glob_call(params: JsonView) -> Option<Seq<char>> {
    match string_field(params, "pattern") {
        None => None,
        Some(pattern) => Some(
            fields_text(
                seq![
                    Some("pattern="@ + pattern),
                    Some("path="@ + or_text(string_field(params, "path"), ".")),
                    labelled("offset=", number_text(nonzero(u64_field(params, "offset")))),
                ],
            ),
        ),
    }
}

pub open spec fn grep_call(params: JsonView) -> Option<Seq<char>> {
    match string_field(params, "query") {
        None => None,
        Some(query) => Some(
            fields_text(
                seq![
                    Some("query="@ + query),
                    Some("path="@ + or_text(string_field(params, "path"), ".")),
                    labelled("include=", string_field(params, "include")),
                    labelled("context=", number_text(nonzero(u64_field(params, "context")))),
                    flag(bool_field(params, "files_only"), "files_only"),
                ],
            ),
        ),
    }
}

pub open spec fn milliseconds(value: Option<u64>) -> Option<Seq<char>> {
    match value {
        Some(n) => Some(decimal(n as nat) + "ms"@),
        None => None,
    }
}

/// A field that is there and not null is only said to be there.
pub open spec fn provided(params: JsonView, key: &str, word: &str) -> Option<Seq<char>> {
    match field(params, key@) {
        Some(value) if !(value is Null) => Some(word@),
        _ => None,
    }
}

pub open spec fn exec_command_call(params: JsonView) -> Option<Seq<char>> {
    match string_field(params, "command") {
        None => None,
        Some(command) => Some(
            fields_text(
                seq![
                    Some("$ "@ + command),
                    labelled("cwd=", string_field(params, "workdir")),
                    labelled("timeout=", milliseconds(u64_field(params, "timeout_ms"))),
                    flag(bool_field(params, "tty"), "tty"),
                    provided(params, "stdin", "stdin=<provided>"),
                ],
            ),
        ),
    }
}

/// A text field that is not empty is only said to be there.
pub open spec fn provided_text(params: JsonView, key: &str, word: &str) -> Option<Seq<char>> {
    match field(params, key@) {
        Some(JsonView::Text(text)) if text.len() > 0 => Some(word@),
        _ => None,
    }
}

pub open spec fn write_stdin_call(params: JsonView) -> Option<Seq<char>> {
    match string_field(params, "session_id") {
        None => None,
        Some(session) => Some(
            fields_text(
                seq![
                    Some("session="@ + session),
                    provided_text(params, "chars", "input=<provided>"),
                    labelled("signal=", string_field(params, "signal")),
                    flag(bool_field(params, "close_stdin"), "close_stdin"),
                    labelled("since=", number_text(u64_field(params, "since_output_offset"))),
                    labelled("wait=", milliseconds(u64_field(params, "wait_for_exit_ms"))),
                ],
            ),
        ),
    }
}

pub open spec fn skills_read_call(params: JsonView) -> Option<Seq<char>> {
    match string_field(params, "name") {
        None => None,
        Some(name) => Some(
            fields_text(
                seq![
                    Some("skill="@ + name),
                    Some("resource="@ + or_text(string_field(params, "resource"), "SKILL.md")),
                    labelled("offset=", number_text(nonzero(u64_field(params, "offset")))),
                    labelled("limit=", number_text(u64_field(params, "limit"))),
                ],
            ),
        ),
    }
}

pub open spec fn remember_call(params: JsonView) -> Option<Seq<char>> {
    match (string_field(params, "key"), field(params, "value"@)) {
        (Some(key), Some(value)) => {
            let operation = match value {
                JsonView::Text(text) if text.len() == 0 => "delete"@,
                _ => "set"@,
            };
            Some(operation + " "@ + key)
        },
        _ => None,
    }
}

pub open spec fn recall_call(params: JsonView) -> Seq<char> {
    fields_text(
        seq![
            Some(or_text(labelled("key=", string_field(params, "key")), "memory page")),
            labelled("offset=", number_text(nonzero(u64_field(params, "offset")))),
            labelled("max=", number_text(u64_field(params, "max_results"))),
            flag(bool_field(params, "include_plan"), "include_plan"),
        ],
    )
}

/// A tool call as it is shown, where its parameters are those of the tool.
pub open spec fn call_text(tool: Seq<char>, params: JsonView) -> Option<Seq<char>> {
    if tool == "chatgpt_turn_init"@ {
        turn_init_call(params)
    } else if tool == "apply_patch"@ {
        patch_call(params)
    } else if tool == "read_file"@ {
        read_file_call(params)
    } else if tool == "list_directory"@ {
        Some(list_directory_call(params))
    } else if tool == "tree"@ {
        Some(tree_call(params))
    } else if tool == "glob"@ {
        glob_call(params)
    } else if tool == "grep"@ {
        grep_call(params)
    } else if tool == "view_image"@ {
        string_field(params, "path")
    } else if tool == "exec_command"@ {
        exec_command_call(params)
    } else if tool == "write_stdin"@ {
        write_stdin_call(params)
    } else if tool == "skills_list"@ {
        Some("path="@ + or_text(string_field(params, "path"), "."))
    } else if tool == "skills_read"@ {
        skills_read_call(params)
    } else if tool == "remember"@ {
        remember_call(params)
    } else if tool == "recall"@ {
        Some(recall_call(params))
    } else if tool == "update_plan"@ {
        Some(Seq::empty())
    } else {
        None
    }
}

fn show_milliseconds(value: Option<u64>) -> (r: Option<String>)
    ensures
        opt_view(r) == milliseconds(value),
{
    match value {
        Some(n) => Some(join2(decimal_text(n).as_str(), "ms")),
        None => None,
    }
}

fn show_size(value: Option<u64>) -> (r: Option<String>)
    ensures
        opt_view(r) == size_text(value),
{
    match value {
        Some(n) => Some(console_human_bytes(n)),
        None => None,
    }
}

fn show_provided(params: &JsonValue, key: &str, word: &str) -> (r: Option<String>)
    ensures
        opt_view(r) == provided(params@, key, word),
{
    match params.get(key) {
        Some(value) => if value.is_null() {
            None
        } else {
            Some(word.to_owned())
        },
        None => None,
    }
}

fn show_provided_text(params: &JsonValue, key: &str, word: &str) -> (r: Option<String>)
    ensures
        opt_view(r) == provided_text(params@, key, word),
{
    match params.get(key) {
        Some(value) => match value.as_str() {
            Some(text) => if text.is_empty() {
                None
            } else {
                Some(word.to_owned())
            },
            None => None,
        },
        None => None,
    }
}

fn path_or_dot(params: &JsonValue) -> (r: String)
    ensures
        r@ == or_text(string_field(params@, "path"), "."),
{
    unwrap_text(console_optional_string_field(params, "path"), ".")
}

fn render_turn_init(params: &JsonValue) -> (r: Option<String>)
    ensures
        opt_view(r) == turn_init_call(params@),
{
    match console_bool_field(params, "previous_turn_ref_present") {
        None => None,
        Some(present) => {
            let mut fields: Vec<Option<String>> = Vec::new();
            fields.push(
                with_label("project=", console_optional_string_field(params, "project_key")),
            );
            fields.push(Some(join2("previous_turn_ref=", show_truth(present))));
            proof {
                assert(opts(fields@) =~= seq![
                    labelled("project=", string_field(params@, "project_key")),
                    Some("previous_turn_ref="@ + truth_text(present)),
                ]);
            }
            Some(console_join_fields(fields))
        },
    }
}

fn render_read_file(params: &JsonValue) -> (r: Option<String>)
    ensures
        opt_view(r) == read_file_call(params@),
{
    let path = match console_string_field(params, "path") {
        Some(path) => path,
        None => {
            return None;
        },
    };
    let ghost shown_path = path@;
    let mut fields: Vec<Option<String>> = Vec::new();
    fields.push(Some(path));
    let line = match console_u64_field(params, "offset") {
        Some(n) => Some(decimal_text(n.saturating_add(1))),
        None => None,
    };
    fields.push(with_label("line=", line));
    fields.push(
        with_label(
            "byte=",
            show_number(keep_nonzero(console_u64_field(params, "line_byte_offset"))),
        ),
    );
    fields.push(with_label("limit=", show_number(console_u64_field(params, "limit"))));
    fields.push(with_label("max=", show_size(console_u64_field(params, "max_bytes"))));
    proof {
        assert(opts(fields@) =~= seq![
            Some(shown_path),
            labelled("line=", line_number(u64_field(params@, "offset"))),
            labelled("byte=", number_text(nonzero(u64_field(params@, "line_byte_offset")))),
            labelled("limit=", number_text(u64_field(params@, "limit"))),
            labelled("max=", size_text(u64_field(params@, "max_bytes"))),
        ]);
    }
    Some(console_join_fields(fields))
}

fn render_list_directory(params: &JsonValue) -> (r: String)
    ensures
        r@ == list_directory_call(params@),
{
    let mut fields: Vec<Option<String>> = Vec::new();
    fields.push(Some(path_or_dot(params)));
    fields.push(
        with_label("offset=", show_number(keep_nonzero(console_u64_field(params, "offset")))),
    );
    fields.push(with_label("max=", show_number(console_u64_field(params, "max_results"))));
    proof {
        assert(opts(fields@) =~= seq![
            Some(or_text(string_field(params@, "path"), ".")),
            labelled("offset=", number_text(nonzero(u64_field(params@, "offset")))),
            labelled("max=", number_text(u64_field(params@, "max_results"))),
        ]);
    }
    console_join_fields(fields)
}

fn render_tree(params: &JsonValue) -> (r: String)
    ensures
        r@ == tree_call(params@),
{
    let mut fields: Vec<Option<String>> = Vec::new();
    fields.push(Some(path_or_dot(params)));
    fields.push(with_label("depth=", show_number(console_u64_field(params, "max_depth"))));
    fields.push(
        with_label("offset=", show_number(keep_nonzero(console_u64_field(params, "offset")))),
    );
    fields.push(with_label("max=", show_number(console_u64_field(params, "max_entries"))));
    proof {
        assert(opts(fields@) =~= seq![
            Some(or_text(string_field(params@, "path"), ".")),
            labelled("depth=", number_text(u64_field(params@, "max_depth"))),
            labelled("offset=", number_text(nonzero(u64_field(params@, "offset")))),
            labelled("max=", number_text(u64_field(params@, "max_entries"))),
        ]);
    }
    console_join_fields(fields)
}

fn render_glob(params: &JsonValue) -> (r: Option<String>)
    ensures
        opt_view(r) == glob_call(params@),
{
    let pattern = match console_string_field(params, "pattern") {
        Some(pattern) => pattern,
        None => {
            return None;
        },
    };
    let mut fields: Vec<Option<String>> = Vec::new();
    fields.push(Some(join2("pattern=", pattern.as_str())));
    fields.push(Some(join2("path=", path_or_dot(params).as_str())));
    fields.push(
        with_label("offset=", show_number(keep_nonzero(console_u64_field(params, "offset")))),
    );
    proof {
        assert(opts(fields@) =~= seq![
            Some("pattern="@ + pattern@),
            Some("path="@ + or_text(string_field(params@, "path"), ".")),
            labelled("offset=", number_text(nonzero(u64_field(params@, "offset")))),
        ]);
    }
    Some(console_join_fields(fields))
}

fn render_grep(params: &JsonValue) -> (r: Option<String>)
    ensures
        opt_view(r) == grep_call(params@),
{
    let query = match console_string_field(params, "query") {
        Some(query) => query,
        None => {
            return None;
        },
    };
    let mut fields: Vec<Option<String>> = Vec::new();
    fields.push(Some(join2("query=", query.as_str())));
    fields.push(Some(join2("path=", path_or_dot(params).as_str())));
    fields.push(with_label("include=", console_optional_string_field(params, "include")));
    fields.push(
        with_label("context=", show_number(keep_nonzero(console_u64_field(params, "context")))),
    );
    fields.push(show_flag(console_bool_field(params, "files_only"), "files_only"));
    proof {
        assert(opts(fields@) =~= seq![
            Some("query="@ + query@),
            Some("path="@ + or_text(string_field(params@, "path"), ".")),
            labelled("include=", string_field(params@, "include")),
            labelled("context=", number_text(nonzero(u64_field(params@, "context")))),
            flag(bool_field(params@, "files_only"), "files_only"),
        ]);
    }
    Some(console_join_fields(fields))
}

fn render_exec_command(params: &JsonValue) -> (r: Option<String>)
    ensures
        opt_view(r) == exec_command_call(params@),
{
    let command = match console_string_field(params, "command") {
        Some(command) => command,
        None => {
            return None;
        },
    };
    let mut fields: Vec<Option<String>> = Vec::new();
    fields.push(Some(join2("$ ", command.as_str())));
    fields.push(with_label("cwd=", console_optional_string_field(params, "workdir")));
    fields.push(
        with_label("timeout=", show_milliseconds(console_u64_field(params, "timeout_ms"))),
    );
    fields.push(show_flag(console_bool_field(params, "tty"), "tty"));
    fields.push(show_provided(params, "stdin", "stdin=<provided>"));
    proof {
        assert(opts(fields@) =~= seq![
            Some("$ "@ + command@),
            labelled("cwd=", string_field(params@, "workdir")),
            labelled("timeout=", milliseconds(u64_field(params@, "timeout_ms"))),
            flag(bool_field(params@, "tty"), "tty"),
            provided(params@, "stdin", "stdin=<provided>"),
        ]);
    }
    Some(console_join_fields(fields))
}

fn render_write_stdin(params: &JsonValue) -> (r: Option<String>)
    ensures
        opt_view(r) == write_stdin_call(params@),
{
    let session = match console_string_field(params, "session_id") {
        Some(session) => session,
        None => {
            return None;
        },
    };
    let mut fields: Vec<Option<String>> = Vec::new();
    fields.push(Some(join2("session=", session.as_str())));
    fields.push(show_provided_text(params, "chars", "input=<provided>"));
    fields.push(with_label("signal=", console_optional_string_field(params, "signal")));
    fields.push(show_flag(console_bool_field(params, "close_stdin"), "close_stdin"));
    fields.push(
        with_label("since=", show_number(console_u64_field(params, "since_output_offset"))),
    );
    fields.push(
        with_label("wait=", show_milliseconds(console_u64_field(params, "wait_for_exit_ms"))),
    );
    proof {
        assert(opts(fields@) =~= seq![
            Some("session="@ + session@),
            provided_text(params@, "chars", "input=<provided>"),
            labelled("signal=", string_field(params@, "signal")),
            flag(bool_field(params@, "close_stdin"), "close_stdin"),
            labelled("since=", number_text(u64_field(params@, "since_output_offset"))),
            labelled("wait=", milliseconds(u64_field(params@, "wait_for_exit_ms"))),
        ]);
    }
    Some(console_join_fields(fields))
}

fn render_skills_read(params: &JsonValue) -> (r: Option<String>)
    ensures
        opt_view(r) == skills_read_call(params@),
{
    let name = match console_string_field(params, "name") {
        Some(name) => name,
        None => {
            return None;
        },
    };
    let resource = unwrap_text(console_optional_string_field(params, "resource"), "SKILL.md");
    let mut fields: Vec<Option<String>> = Vec::new();
    fields.push(Some(join2("skill=", name.as_str())));
    fields.push(Some(join2("resource=", resource.as_str())));
    fields.push(
        with_label("offset=", show_number(keep_nonzero(console_u64_field(params, "offset")))),
    );
    fields.push(with_label("limit=", show_number(console_u64_field(params, "limit"))));
    proof {
        assert(opts(fields@) =~= seq![
            Some("skill="@ + name@),
            Some("resource="@ + or_text(string_field(params@, "resource"), "SKILL.md")),
            labelled("offset=", number_text(nonzero(u64_field(params@, "offset")))),
            labelled("limit=", number_text(u64_field(params@, "limit"))),
        ]);
    }
    Some(console_join_fields(fields))
}

fn render_remember(params: &JsonValue) -> (r: Option<String>)
    ensures
        opt_view(r) == remember_call(params@),
{
    let key = match console_string_field(params, "key") {
        Some(key) => key,
        None => {
            return None;
        },
    };
    match params.get("value") {
        None => None,
        Some(value) => {
            let deletes = match value.as_str() {
                Some(text) => text.is_empty(),
                None => false,
            };
            let operation = if deletes {
                "delete"
            } else {
                "set"
            };
            Some(join3(operation, " ", key.as_str()))
        },
    }
}

fn render_recall(params: &JsonValue) -> (r: String)
    ensures
        r@ == recall_call(params@),
{
    let mut fields: Vec<Option<String>> = Vec::new();
    fields.push(
        Some(
            unwrap_text(
                with_label("key=", console_optional_string_field(params, "key")),
                "memory page",
            ),
        ),
    );
    fields.push(
        with_label("offset=", show_number(keep_nonzero(console_u64_field(params, "offset")))),
    );
    fields.push(with_label("max=", show_number(console_u64_field(params, "max_results"))));
    fields.push(show_flag(console_bool_field(params, "include_plan"), "include_plan"));
    proof {
        assert(opts(fields@) =~= seq![
            Some(or_text(labelled("key=", string_field(params@, "key")), "memory page")),
            labelled("offset=", number_text(nonzero(u64_field(params@, "offset")))),
            labelled("max=", number_text(u64_field(params@, "max_results"))),
            flag(bool_field(params@, "include_plan"), "include_plan"),
        ]);
    }
    console_join_fields(fields)
}

/// A tool call as it is shown, where its parameters are those of the tool.
pub fn console_render_tool_call(tool: &str, params: &JsonValue) -> (r: Option<String>)
    ensures
        opt_view(r) == call_text(tool@, params@),
{
    if tool.eq("chatgpt_turn_init") {
        render_turn_init(params)
    } else if tool.eq("apply_patch") {
        match params.get("input") {
            Some(input) => match input.as_str() {
                Some(text) => Some(render_patch(text)),
                None => None,
            },
            None => None,
        }
    } else if tool.eq("read_file") {
        render_read_file(params)
    } else if tool.eq("list_directory") {
        Some(render_list_directory(params))
    } else if tool.eq("tree") {
        Some(render_tree(params))
    } else if tool.eq("glob") {
        render_glob(params)
    } else if tool.eq("grep") {
        render_grep(params)
    } else if tool.eq("view_image") {
        console_string_field(params, "path")
    } else if tool.eq("exec_command") {
        render_exec_command(params)
    } else if tool.eq("write_stdin") {
        render_write_stdin(params)
    } else if tool.eq("skills_list") {
        Some(join2("path=", path_or_dot(params).as_str()))
    } else if tool.eq("skills_read") {
        render_skills_read(params)
    } else if tool.eq("remember") {
        render_remember(params)
    } else if tool.eq("recall") {
        Some(render_recall(params))
    } else if tool.eq("update_plan") {
        Some(String::new())
    } else {
        None
    }
}

}
