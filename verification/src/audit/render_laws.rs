//! How calls and results are shown, part by part.
use vstd::prelude::*;

use crate::audit::calls::{
    call_text, exec_command_call, glob_call, grep_call, list_directory_call, listed, patch_target,
    patch_targets, patch_text, read_file_call, recall_call, remember_call, skills_read_call,
    tree_call, turn_init_call, write_stdin_call,
};
use crate::audit::console::{bool_field, human_bytes, line_text, string_field, u64_field};
use crate::audit::line::{error_text, event_line, pretty_payload, project_name};
use crate::audit::parts::{blanks, fields_text, joined, present};
use crate::audit::results::{
    glob_result, grep_result, item_line, item_lines, items_field, list_directory_result, list_lines,
    patch_result, process_result, read_file_result, recall_result, remember_result, result_text,
    seconds_field, signed_field, skills_list_result, skills_read_result, tree_result,
    turn_init_result, view_image_result, LineKind,
};
use crate::config::LogConfig;
use crate::json::{field, JsonView};
use crate::search::{lines, starts_with};
use crate::text::{decimal, signed_decimal};

verus! {

/// A further part of a line: two blanks, a label and a text, or nothing.
pub open spec fn part(label: &str, value: Option<Seq<char>>) -> Seq<char> {
    match value {
        Some(text) => "  "@ + (label@ + text),
        None => Seq::empty(),
    }
}

/// A number as a further part of a line.
pub open spec fn number_part(label: &str, value: Option<u64>) -> Seq<char> {
    match value {
        Some(n) => "  "@ + (label@ + decimal(n as nat)),
        None => Seq::empty(),
    }
}

/// A number as a further part of a line, unless it is zero.
pub open spec fn count_part(label: &str, value: Option<u64>) -> Seq<char> {
    match value {
        Some(n) => if n == 0 {
            Seq::empty()
        } else {
            "  "@ + (label@ + decimal(n as nat))
        },
        None => Seq::empty(),
    }
}

/// A word as a further part of a line, where something holds.
pub open spec fn word_part(word: &str, holds: bool) -> Seq<char> {
    if holds {
        "  "@ + word@
    } else {
        Seq::empty()
    }
}

/// What is there of some texts, two blanks before each.
pub open spec fn further(fields: Seq<Option<Seq<char>>>) -> Seq<char>
    decreases fields.len(),
{
    if fields.len() == 0 {
        Seq::empty()
    } else {
        match fields[0] {
            Some(text) => ("  "@ + text) + further(fields.skip(1)),
            None => further(fields.skip(1)),
        }
    }
}

proof fn lemma_further_last(fields: Seq<Option<Seq<char>>>)
    requires
        fields.len() > 0,
    ensures
        further(fields) == further(fields.drop_last()) + match fields.last() {
            Some(text) => "  "@ + text,
            None => Seq::empty(),
        },
    decreases fields.len(),
{
    if fields.len() > 1 {
        lemma_further_last(fields.skip(1));
        assert(fields.skip(1).drop_last() =~= fields.drop_last().skip(1));
    } else {
        assert(fields.skip(1) =~= Seq::empty());
        assert(fields.drop_last() =~= Seq::empty());
    }
    assert(further(fields) =~= further(fields.drop_last()) + match fields.last() {
        Some(text) => "  "@ + text,
        None => Seq::empty(),
    });
}

/// A line of parts shows those that are there, in order, two blanks between each
/// two.
pub proof fn line_shows_the_parts_that_are_there(fields: Seq<Option<Seq<char>>>)
    requires
        fields.len() > 0,
        fields[0] is Some,
    ensures
        fields_text(fields) == fields[0]->0 + further(fields.skip(1)),
        present(fields).len() > 0,
    decreases fields.len(),
{
    let rest = fields.skip(1);
    if fields.len() == 1 {
        assert(fields.drop_last() =~= Seq::empty());
        assert(present(fields.drop_last()) =~= Seq::<Seq<char>>::empty());
        assert(present(fields) =~= seq![fields[0]->0]);
        assert(rest =~= Seq::empty());
        assert(fields[0]->0 + further(rest) =~= fields[0]->0);
    } else {
        let front = fields.drop_last();
        line_shows_the_parts_that_are_there(front);
        lemma_further_last(rest);
        assert(rest.drop_last() =~= front.skip(1));
        assert(fields[0]->0 + further(rest) =~= (fields[0]->0 + further(rest.drop_last()))
            + match rest.last() {
            Some(text) => "  "@ + text,
            None => Seq::empty(),
        });
        match fields.last() {
            Some(text) => {
                let all = present(fields);
                assert(all.drop_last() =~= present(front));
                assert(joined(all, "  "@) == joined(present(front), "  "@) + "  "@ + text);
                assert(joined(all, "  "@) =~= joined(present(front), "  "@) + ("  "@ + text));
            },
            None => {},
        }
    }
}

spec fn shown(value: Option<Seq<char>>) -> Seq<char> {
    match value {
        Some(text) => "  "@ + text,
        None => Seq::empty(),
    }
}

proof fn lemma_two(fields: Seq<Option<Seq<char>>>)
    requires
        fields.len() == 2,
        fields[0] is Some,
    ensures
        fields_text(fields) == fields[0]->0 + shown(fields[1]),
{
    line_shows_the_parts_that_are_there(fields);
    reveal_with_fuel(further, 3);
    assert(further(fields.skip(1)) =~= shown(fields[1]));
}

proof fn lemma_three(fields: Seq<Option<Seq<char>>>)
    requires
        fields.len() == 3,
        fields[0] is Some,
    ensures
        fields_text(fields) == fields[0]->0 + shown(fields[1]) + shown(fields[2]),
{
    line_shows_the_parts_that_are_there(fields);
    reveal_with_fuel(further, 4);
    let rest = fields.skip(1);
    assert(rest.skip(1)[0] == fields[2]);
    assert(fields_text(fields) =~= fields[0]->0 + shown(fields[1]) + shown(fields[2]));
}

proof fn lemma_four(fields: Seq<Option<Seq<char>>>)
    requires
        fields.len() == 4,
        fields[0] is Some,
    ensures
        fields_text(fields) == fields[0]->0 + shown(fields[1]) + shown(fields[2]) + shown(
            fields[3],
        ),
{
    line_shows_the_parts_that_are_there(fields);
    line_shows_the_parts_that_are_there(fields.drop_last());
    lemma_further_last(fields.skip(1));
    assert(fields.skip(1).drop_last() =~= fields.drop_last().skip(1));
    lemma_three(fields.drop_last());
    assert(fields_text(fields) =~= fields_text(fields.drop_last()) + shown(fields[3]));
}

proof fn lemma_five(fields: Seq<Option<Seq<char>>>)
    requires
        fields.len() == 5,
        fields[0] is Some,
    ensures
        fields_text(fields) == fields[0]->0 + shown(fields[1]) + shown(fields[2]) + shown(fields[3])
            + shown(fields[4]),
{
    line_shows_the_parts_that_are_there(fields);
    line_shows_the_parts_that_are_there(fields.drop_last());
    lemma_further_last(fields.skip(1));
    assert(fields.skip(1).drop_last() =~= fields.drop_last().skip(1));
    lemma_four(fields.drop_last());
    assert(fields_text(fields) =~= fields_text(fields.drop_last()) + shown(fields[4]));
}

proof fn lemma_six(fields: Seq<Option<Seq<char>>>)
    requires
        fields.len() == 6,
        fields[0] is Some,
    ensures
        fields_text(fields) == fields[0]->0 + shown(fields[1]) + shown(fields[2]) + shown(fields[3])
            + shown(fields[4]) + shown(fields[5]),
{
    line_shows_the_parts_that_are_there(fields);
    line_shows_the_parts_that_are_there(fields.drop_last());
    lemma_further_last(fields.skip(1));
    assert(fields.skip(1).drop_last() =~= fields.drop_last().skip(1));
    lemma_five(fields.drop_last());
    assert(fields_text(fields) =~= fields_text(fields.drop_last()) + shown(fields[5]));
}

proof fn lemma_lines()
    ensures
        forall|fields: Seq<Option<Seq<char>>>|
            fields.len() == 2 && fields[0] is Some ==> #[trigger] fields_text(fields)
                == fields[0]->0 + shown(fields[1]),
        forall|fields: Seq<Option<Seq<char>>>|
            fields.len() == 2 && fields[0] is None && fields[1] is Some ==> #[trigger] fields_text(
                fields,
            ) == fields[1]->0,
        forall|fields: Seq<Option<Seq<char>>>|
            fields.len() == 3 && fields[0] is Some ==> #[trigger] fields_text(fields)
                == fields[0]->0 + shown(fields[1]) + shown(fields[2]),
        forall|fields: Seq<Option<Seq<char>>>|
            fields.len() == 4 && fields[0] is Some ==> #[trigger] fields_text(fields)
                == fields[0]->0 + shown(fields[1]) + shown(fields[2]) + shown(fields[3]),
        forall|fields: Seq<Option<Seq<char>>>|
            fields.len() == 5 && fields[0] is Some ==> #[trigger] fields_text(fields)
                == fields[0]->0 + shown(fields[1]) + shown(fields[2]) + shown(fields[3]) + shown(
                fields[4],
            ),
        forall|fields: Seq<Option<Seq<char>>>|
            fields.len() == 6 && fields[0] is Some ==> #[trigger] fields_text(fields)
                == fields[0]->0 + shown(fields[1]) + shown(fields[2]) + shown(fields[3]) + shown(
                fields[4],
            ) + shown(fields[5]),
{
    assert forall|fields: Seq<Option<Seq<char>>>|
        fields.len() == 2 && fields[0] is Some implies #[trigger] fields_text(fields)
        == fields[0]->0
        + shown(fields[1]) by {
        lemma_two(fields);
    }
    assert forall|fields: Seq<Option<Seq<char>>>|
        fields.len() == 3 && fields[0] is Some implies #[trigger] fields_text(fields)
        == fields[0]->0
        + shown(fields[1]) + shown(fields[2]) by {
        lemma_three(fields);
    }
    assert forall|fields: Seq<Option<Seq<char>>>|
        fields.len() == 4 && fields[0] is Some implies #[trigger] fields_text(fields)
        == fields[0]->0
        + shown(fields[1]) + shown(fields[2]) + shown(fields[3]) by {
        lemma_four(fields);
    }
    assert forall|fields: Seq<Option<Seq<char>>>|
        fields.len() == 5 && fields[0] is Some implies #[trigger] fields_text(fields)
        == fields[0]->0
        + shown(fields[1]) + shown(fields[2]) + shown(fields[3]) + shown(fields[4]) by {
        lemma_five(fields);
    }
    assert forall|fields: Seq<Option<Seq<char>>>|
        fields.len() == 6 && fields[0] is Some implies #[trigger] fields_text(fields)
        == fields[0]->0
        + shown(fields[1]) + shown(fields[2]) + shown(fields[3]) + shown(fields[4])
        + shown(fields[5]) by {
        lemma_six(fields);
    }
    assert forall|fields: Seq<Option<Seq<char>>>|
        fields.len() == 2 && fields[0] is None && fields[1] is Some implies #[trigger] fields_text(
        fields,
    ) == fields[1]->0 by {
        reveal_with_fuel(present, 3);
        let front = fields.drop_last();
        assert(front.drop_last() =~= Seq::<Option<Seq<char>>>::empty());
        assert(present(front) =~= Seq::<Seq<char>>::empty());
        assert(present(fields) =~= seq![fields[1]->0]);
    }
}

/// A path, or the current directory where none is given.
pub open spec fn path_or_here(path: Option<Seq<char>>) -> Seq<char> {
    match path {
        Some(path) => path,
        None => "."@,
    }
}

/// A size as a further part of a line.
pub open spec fn size_part(label: &str, value: Option<u64>) -> Seq<char> {
    match value {
        Some(n) => "  "@ + (label@ + human_bytes(n)),
        None => Seq::empty(),
    }
}

/// A time in milliseconds as a further part of a line.
pub open spec fn time_part(label: &str, value: Option<u64>) -> Seq<char> {
    match value {
        Some(n) => "  "@ + (label@ + (decimal(n as nat) + "ms"@)),
        None => Seq::empty(),
    }
}

/// The line behind `offset` others, counted from one, as a further part of a line.
pub open spec fn line_part(offset: Option<u64>) -> Seq<char> {
    match offset {
        Some(n) => "  "@ + ("line="@ + decimal(
            if n < u64::MAX {
                (n + 1) as nat
            } else {
                n as nat
            },
        )),
        None => Seq::empty(),
    }
}

/// The project before the other parts of a line.
pub open spec fn project_first(name: Option<Seq<char>>) -> Seq<char> {
    match name {
        Some(name) => ("project="@ + name) + "  "@,
        None => Seq::empty(),
    }
}

/// Yes or no.
pub open spec fn yes_or_no(value: bool) -> Seq<char> {
    if value {
        "true"@
    } else {
        "false"@
    }
}

/// The value is a text with something in it.
pub open spec fn is_filled(value: Option<JsonView>) -> bool {
    value is Some && value->0 is Text && (value->0->Text_0).len() > 0
}

/// The value is there and not null.
pub open spec fn is_given(value: Option<JsonView>) -> bool {
    value is Some && !(value->0 is Null)
}

/// The code that a process ended with, as a further part of a line.
pub open spec fn exit_part(code: Option<i64>) -> Seq<char> {
    match code {
        Some(n) => "  "@ + ("exit="@ + signed_decimal(n as int)),
        None => Seq::empty(),
    }
}

/// How many seconds something took, as a further part of a line.
pub open spec fn seconds_part(seconds: Option<Seq<char>>) -> Seq<char> {
    match seconds {
        Some(text) => "  "@ + (text + "s"@),
        None => Seq::empty(),
    }
}

/// A text as a further part of a line, unless it is empty.
pub open spec fn filled_part(label: &str, value: Option<Seq<char>>) -> Seq<char> {
    match value {
        Some(text) => if text.len() > 0 {
            "  "@ + (label@ + text)
        } else {
            Seq::empty()
        },
        None => Seq::empty(),
    }
}

/// The file of a skill that is read, the main one where none is named.
pub open spec fn resource_or_main(name: Option<Seq<char>>) -> Seq<char> {
    match name {
        Some(name) => name,
        None => "SKILL.md"@,
    }
}

/// What of memory is looked at.
pub open spec fn key_or_page(key: Option<Seq<char>>) -> Seq<char> {
    match key {
        Some(key) => "key="@ + key,
        None => "memory page"@,
    }
}

/// A start of a turn: the project, and whether there is a turn before it.
pub proof fn turn_init_call_is_shown(params: JsonView)
    ensures
        turn_init_call(params) == match bool_field(params, "previous_turn_ref_present") {
            None => None,
            Some(x) => Some(
                project_first(string_field(params, "project_key"))
                    + ("previous_turn_ref="@ + yes_or_no(x)),
            ),
        },
{
    lemma_lines();
    if let Some(x) = bool_field(params, "previous_turn_ref_present") {
        assert(turn_init_call(params)->0 =~= project_first(string_field(params, "project_key"))
            + ("previous_turn_ref="@ + yes_or_no(x)));
    }
}

/// A read of a file: its path and, where they are given, the line to start from, counted
/// from one, the byte in it, and the limits.
pub proof fn read_file_call_is_shown(params: JsonView)
    ensures
        read_file_call(params) == match string_field(params, "path") {
            None => None,
            Some(x) => Some(
                x
                    + line_part(u64_field(params, "offset"))
                    + count_part("byte=", u64_field(params, "line_byte_offset"))
                    + number_part("limit=", u64_field(params, "limit"))
                    + size_part("max=", u64_field(params, "max_bytes")),
            ),
        },
{
    lemma_lines();
    if let Some(x) = string_field(params, "path") {
        assert(read_file_call(params)->0 =~= x
            + line_part(u64_field(params, "offset"))
            + count_part("byte=", u64_field(params, "line_byte_offset"))
            + number_part("limit=", u64_field(params, "limit"))
            + size_part("max=", u64_field(params, "max_bytes")));
    }
}

/// A list of a directory: its path, the current one where none is given, and which part of
/// the list.
pub proof fn list_directory_call_is_shown(params: JsonView)
    ensures
        list_directory_call(params) == path_or_here(string_field(params, "path"))
            + count_part("offset=", u64_field(params, "offset"))
            + number_part("max=", u64_field(params, "max_results")),
{
    lemma_lines();
    assert(list_directory_call(params) =~= path_or_here(string_field(params, "path"))
        + count_part("offset=", u64_field(params, "offset"))
        + number_part("max=", u64_field(params, "max_results")));
}

/// A tree of directories: where it starts, how deep it goes, and which part of it.
pub proof fn tree_call_is_shown(params: JsonView)
    ensures
        tree_call(params) == path_or_here(string_field(params, "path"))
            + number_part("depth=", u64_field(params, "max_depth"))
            + count_part("offset=", u64_field(params, "offset"))
            + number_part("max=", u64_field(params, "max_entries")),
{
    lemma_lines();
    assert(tree_call(params) =~= path_or_here(string_field(params, "path"))
        + number_part("depth=", u64_field(params, "max_depth"))
        + count_part("offset=", u64_field(params, "offset"))
        + number_part("max=", u64_field(params, "max_entries")));
}

/// A search for names: the pattern, where it is looked for, and from which match on.
pub proof fn glob_call_is_shown(params: JsonView)
    ensures
        glob_call(params) == match string_field(params, "pattern") {
            None => None,
            Some(x) => Some(
                ("pattern="@ + x)
                    + part("path=", Some(path_or_here(string_field(params, "path"))))
                    + count_part("offset=", u64_field(params, "offset")),
            ),
        },
{
    lemma_lines();
    if let Some(x) = string_field(params, "pattern") {
        assert(glob_call(params)->0 =~= ("pattern="@ + x)
            + part("path=", Some(path_or_here(string_field(params, "path"))))
            + count_part("offset=", u64_field(params, "offset")));
    }
}

/// A search for text: what is looked for, where, in which files, and how it is shown.
pub proof fn grep_call_is_shown(params: JsonView)
    ensures
        grep_call(params) == match string_field(params, "query") {
            None => None,
            Some(x) => Some(
                ("query="@ + x)
                    + part("path=", Some(path_or_here(string_field(params, "path"))))
                    + part("include=", string_field(params, "include"))
                    + count_part("context=", u64_field(params, "context"))
                    + word_part("files_only", bool_field(params, "files_only") == Some(true)),
            ),
        },
{
    lemma_lines();
    if let Some(x) = string_field(params, "query") {
        assert(grep_call(params)->0 =~= ("query="@ + x)
            + part("path=", Some(path_or_here(string_field(params, "path"))))
            + part("include=", string_field(params, "include"))
            + count_part("context=", u64_field(params, "context"))
            + word_part("files_only", bool_field(params, "files_only") == Some(true)));
    }
}

/// A command: its text, directory and time, and whether it has a terminal. Of what it is
/// given to read only that it is.
pub proof fn exec_command_call_is_shown(params: JsonView)
    ensures
        exec_command_call(params) == match string_field(params, "command") {
            None => None,
            Some(x) => Some(
                ("$ "@ + x)
                    + part("cwd=", string_field(params, "workdir"))
                    + time_part("timeout=", u64_field(params, "timeout_ms"))
                    + word_part("tty", bool_field(params, "tty") == Some(true))
                    + word_part("stdin=<provided>", is_given(field(params, "stdin"@))),
            ),
        },
{
    lemma_lines();
    if let Some(x) = string_field(params, "command") {
        assert(exec_command_call(params)->0 =~= ("$ "@ + x)
            + part("cwd=", string_field(params, "workdir"))
            + time_part("timeout=", u64_field(params, "timeout_ms"))
            + word_part("tty", bool_field(params, "tty") == Some(true))
            + word_part("stdin=<provided>", is_given(field(params, "stdin"@))));
    }
}

/// Input to a running command: which one, and what happens to it. Of the input itself only
/// that there is one.
pub proof fn write_stdin_call_is_shown(params: JsonView)
    ensures
        write_stdin_call(params) == match string_field(params, "session_id") {
            None => None,
            Some(x) => Some(
                ("session="@ + x)
                    + word_part("input=<provided>", is_filled(field(params, "chars"@)))
                    + part("signal=", string_field(params, "signal"))
                    + word_part("close_stdin", bool_field(params, "close_stdin") == Some(true))
                    + number_part("since=", u64_field(params, "since_output_offset"))
                    + time_part("wait=", u64_field(params, "wait_for_exit_ms")),
            ),
        },
{
    lemma_lines();
    if let Some(x) = string_field(params, "session_id") {
        assert(write_stdin_call(params)->0 =~= ("session="@ + x)
            + word_part("input=<provided>", is_filled(field(params, "chars"@)))
            + part("signal=", string_field(params, "signal"))
            + word_part("close_stdin", bool_field(params, "close_stdin") == Some(true))
            + number_part("since=", u64_field(params, "since_output_offset"))
            + time_part("wait=", u64_field(params, "wait_for_exit_ms")));
    }
}

/// A read of a skill: which one, which of its files, and which part of it.
pub proof fn skills_read_call_is_shown(params: JsonView)
    ensures
        skills_read_call(params) == match string_field(params, "name") {
            None => None,
            Some(x) => Some(
                ("skill="@ + x)
                    + part("resource=", Some(resource_or_main(string_field(params, "resource"))))
                    + count_part("offset=", u64_field(params, "offset"))
                    + number_part("limit=", u64_field(params, "limit")),
            ),
        },
{
    lemma_lines();
    if let Some(x) = string_field(params, "name") {
        assert(skills_read_call(params)->0 =~= ("skill="@ + x)
            + part("resource=", Some(resource_or_main(string_field(params, "resource"))))
            + count_part("offset=", u64_field(params, "offset"))
            + number_part("limit=", u64_field(params, "limit")));
    }
}

/// A look into memory: one key or a page, which part of it, and whether with the plan.
pub proof fn recall_call_is_shown(params: JsonView)
    ensures
        recall_call(params) == key_or_page(string_field(params, "key"))
            + count_part("offset=", u64_field(params, "offset"))
            + number_part("max=", u64_field(params, "max_results"))
            + word_part("include_plan", bool_field(params, "include_plan") == Some(true)),
{
    lemma_lines();
    assert(recall_call(params) =~= key_or_page(string_field(params, "key"))
        + count_part("offset=", u64_field(params, "offset"))
        + number_part("max=", u64_field(params, "max_results"))
        + word_part("include_plan", bool_field(params, "include_plan") == Some(true)));
}

/// What became of a command: why it ended, with which code, after how long, and its output.
pub proof fn process_result_is_shown(result: JsonView)
    ensures
        process_result(result) == match string_field(result, "completion_reason") {
            None => None,
            Some(x) => Some(
                x
                    + exit_part(signed_field(result, "exit_code"))
                    + seconds_part(seconds_field(result, "wall_time_seconds"))
                    + part("session=", string_field(result, "session_id"))
                    + word_part("truncated", bool_field(result, "truncated") == Some(true))
                    + filled_part("output=", string_field(result, "output")),
            ),
        },
{
    lemma_lines();
    if let Some(x) = string_field(result, "completion_reason") {
        assert(process_result(result)->0 =~= x
            + exit_part(signed_field(result, "exit_code"))
            + seconds_part(seconds_field(result, "wall_time_seconds"))
            + part("session=", string_field(result, "session_id"))
            + word_part("truncated", bool_field(result, "truncated") == Some(true))
            + filled_part("output=", string_field(result, "output")));
    }
}

/// An image: its path, what it is, and its size.
pub proof fn view_image_result_is_shown(result: JsonView)
    ensures
        view_image_result(result) is Some <==> string_field(result, "path") is Some && string_field(
            result,
            "mime_type",
        ) is Some && u64_field(result, "bytes") is Some,
        view_image_result(result) is Some ==> view_image_result(result)->0 == string_field(
            result,
            "path",
        )->0 + part("", string_field(result, "mime_type")) + ("  "@ + human_bytes(
            u64_field(result, "bytes")->0,
        )),
{
    lemma_lines();
    reveal_strlit("");
    if view_image_result(result) is Some {
        assert(""@ + string_field(result, "mime_type")->0 =~= string_field(
            result,
            "mime_type",
        )->0);
        assert(view_image_result(result)->0 =~= string_field(result, "path")->0 + part(
            "",
            string_field(result, "mime_type"),
        ) + ("  "@ + human_bytes(u64_field(result, "bytes")->0)));
    }
}

/// What was read of a skill: which one and which of its files, how much of how much, and
/// whether there is more.
pub proof fn skills_read_result_is_shown(result: JsonView)
    ensures
        skills_read_result(result) is Some <==> string_field(result, "name") is Some
            && string_field(result, "resource") is Some && u64_field(result, "shown_bytes") is Some
            && u64_field(result, "total_bytes") is Some && bool_field(result, "truncated") is Some,
        skills_read_result(result) is Some ==> skills_read_result(result)->0 == ("skill="@
            + string_field(result, "name")->0) + part("resource=", string_field(result, "resource"))
            + ("  "@ + ("shown="@ + human_bytes(u64_field(result, "shown_bytes")->0))) + ("  "@ + (
        "total="@ + human_bytes(u64_field(result, "total_bytes")->0))) + word_part(
            "continued",
            bool_field(result, "truncated")->0,
        ),
{
    lemma_lines();
    if skills_read_result(result) is Some {
        assert(skills_read_result(result)->0 =~= ("skill="@ + string_field(result, "name")->0)
            + part("resource=", string_field(result, "resource")) + ("  "@ + ("shown="@
            + human_bytes(u64_field(result, "shown_bytes")->0))) + ("  "@ + ("total="@
            + human_bytes(u64_field(result, "total_bytes")->0))) + word_part(
            "continued",
            bool_field(result, "truncated")->0,
        ));
    }
}

/// The start of a turn: where it was refused for something that can be mended, for what;
/// else the project, what changed, and the turn.
pub proof fn turn_init_result_is_shown(result: JsonView)
    ensures
        turn_init_result(result) is Some <==> string_field(result, "status") is Some,
        string_field(result, "status") == Some("soft_error"@) ==> turn_init_result(result)->0
            == "soft_error"@ + " "@ + match field(result, "soft_error"@) {
            Some(value) => match string_field(value, "code") {
                Some(code) => code,
                None => "soft_error"@,
            },
            None => "soft_error"@,
        },
        string_field(result, "status") is Some && string_field(result, "status")->0
            != "soft_error"@ ==> turn_init_result(result)->0 == string_field(result, "status")->0
            + part("project=", string_field(result, "project_key")) + part(
            "workspace=",
            string_field(result, "workspace_state"),
        ) + truth_part("instructions_changed=", bool_field(result, "instructions_changed"))
            + truth_part("state_changed=", bool_field(result, "state_changed")) + part(
            "turn=",
            string_field(result, "turn_ref"),
        ),
{
    lemma_lines();
    if string_field(result, "status") is Some && string_field(result, "status")->0
        != "soft_error"@ {
        assert(turn_init_result(result)->0 =~= string_field(result, "status")->0 + part(
            "project=",
            string_field(result, "project_key"),
        ) + part("workspace=", string_field(result, "workspace_state")) + truth_part(
            "instructions_changed=",
            bool_field(result, "instructions_changed"),
        ) + truth_part("state_changed=", bool_field(result, "state_changed")) + part(
            "turn=",
            string_field(result, "turn_ref"),
        ));
    }
}

/// Yes or no as a further part of a line.
pub open spec fn truth_part(label: &str, value: Option<bool>) -> Seq<char> {
    match value {
        Some(b) => "  "@ + (label@ + if b {
            "true"@
        } else {
            "false"@
        }),
        None => Seq::empty(),
    }
}

/// Lines of items: one for each of the first items that can be shown, indented, and behind
/// them how many more items there are.
pub proof fn list_shows_the_first_items(kind: LineKind, items: Seq<JsonView>, limit: int)
    requires
        limit >= 0,
    ensures
        items.len() <= limit ==> list_lines(kind, items, limit) == item_lines(
            kind,
            items,
            items.len() as int,
        ),
        items.len() > limit ==> list_lines(kind, items, limit) == item_lines(kind, items, limit)
            + ("\n    ... +"@ + decimal((items.len() - limit) as nat) + " more"@),
        item_lines(kind, items, 0) == Seq::<char>::empty(),
        forall|k: int|
            0 <= k < items.len() ==> #[trigger] item_lines(kind, items, k + 1) == item_lines(
                kind,
                items,
                k,
            ) + match item_line(kind, items[k]) {
                Some(line) => "\n    "@ + line,
                None => Seq::empty(),
            },
{
    assert forall|k: int| 0 <= k < items.len() implies #[trigger] item_lines(kind, items, k + 1)
        == item_lines(kind, items, k) + match item_line(kind, items[k]) {
        Some(line) => "\n    "@ + line,
        None => Seq::empty(),
    } by {
        assert(item_lines(kind, items, k + 1) =~= item_lines(kind, items, k) + match item_line(
            kind,
            items[k],
        ) {
            Some(line) => "\n    "@ + line,
            None => Seq::empty(),
        });
    }
}

/// The lines of items: a changed file behind a mark for what happened to it; an entry of a
/// directory with its kind and size in columns; one of a tree indented by its depth; a
/// match with its line number; a skill with its description.
#[verifier::rlimit(40)]
pub proof fn items_are_shown(item: JsonView, path: Seq<char>, kind: Seq<char>)
    ensures
        string_field(item, "path") == Some(path) && string_field(item, "operation") == Some(kind)
            ==> {
            let line = item_line(LineKind::ChangedFile, item);
            let rest = " "@ + path + match string_field(item, "destination") {
                Some(to) => " -> "@ + to,
                None => ""@,
            };
            &&& line is Some
            &&& kind == "create"@ ==> line->0 == "+"@ + rest
            &&& kind == "delete"@ ==> line->0 == "-"@ + rest
            &&& kind == "move"@ ==> line->0 == "→"@ + rest
            &&& kind != "create"@ && kind != "delete"@ && kind != "move"@ ==> line->0 == "~"@ + rest
        },
        string_field(item, "name") == Some(path) && string_field(item, "type") == Some(kind) ==> {
            let size = match u64_field(item, "bytes") {
                Some(n) => human_bytes(n),
                None => "-"@,
            };
            item_line(LineKind::Entry, item) == Some(
                kind + blanks(9 - kind.len()) + " "@ + blanks(9 - size.len()) + size + "  "@ + path,
            )
        },
        string_field(item, "path") == Some(path) ==> item_line(LineKind::Match, item) == Some(
            path + match u64_field(item, "line") {
                Some(n) => ":"@ + decimal(n as nat),
                None => ""@,
            } + match string_field(item, "text") {
                Some(text) => "  "@ + text,
                None => ""@,
            },
        ),
        string_field(item, "name") == Some(path) ==> item_line(LineKind::Skill, item) == Some(
            path + match string_field(item, "description") {
                Some(text) => " — "@ + text,
                None => ""@,
            },
        ),
        item_line(LineKind::NoteKey, item) == string_field(item, "key"),
        item == JsonView::Text(path) ==> item_line(LineKind::Path, item) == Some(line_text(path)),
{
    reveal_strlit("create");
    reveal_strlit("delete");
    reveal_strlit("move");
    assert("create"@[0] == 'c' && "delete"@[0] == 'd' && "move"@.len() == 4);
    if string_field(item, "path") == Some(path) && string_field(item, "operation") == Some(kind) {
        let rest = " "@ + path + match string_field(item, "destination") {
            Some(to) => " -> "@ + to,
            None => ""@,
        };
        let line = item_line(LineKind::ChangedFile, item)->0;
        if kind == "create"@ {
            assert(line =~= "+"@ + rest);
        } else if kind == "delete"@ {
            assert(line =~= "-"@ + rest);
        } else if kind == "move"@ {
            assert(line =~= "→"@ + rest);
        } else {
            assert(line =~= "~"@ + rest);
        }
    }
    if string_field(item, "name") == Some(path) && string_field(item, "type") == Some(kind) {
        let size = match u64_field(item, "bytes") {
            Some(n) => human_bytes(n),
            None => "-"@,
        };
        assert(item_line(LineKind::Entry, item)->0 =~= kind + blanks(9 - kind.len()) + " "@
            + blanks(9 - size.len()) + size + "  "@ + path);
    }
}

/// An entry of a tree stands two blanks to the right of the one above it, ten levels at
/// most; a directory ends in a slash, a symbolic link in an at sign.
pub proof fn tree_entry_is_indented(item: JsonView, path: Seq<char>, kind: Seq<char>, depth: u64)
    requires
        string_field(item, "path") == Some(path),
        string_field(item, "type") == Some(kind),
        u64_field(item, "depth") == Some(depth),
    ensures
        ({
            let line = item_line(LineKind::TreeEntry, item);
            let indent: int = if depth <= 1 {
                0
            } else if depth <= 12 {
                2 * depth - 2
            } else {
                22
            };
            &&& line is Some
            &&& kind == "directory"@ ==> line->0 == blanks(indent) + path + "/"@
            &&& kind == "symlink"@ ==> line->0 == blanks(indent) + path + "@"@
            &&& kind != "directory"@ && kind != "symlink"@ ==> line->0 == blanks(indent) + path
        }),
{
    reveal_strlit("directory");
    reveal_strlit("symlink");
    reveal_strlit("");
    assert("directory"@.len() != "symlink"@.len());
    if kind != "directory"@ && kind != "symlink"@ {
        assert(item_line(LineKind::TreeEntry, item)->0 =~= blanks(
            crate::audit::results::tree_indent(u64_field(item, "depth")),
        ) + path);
    }
}

/// So many blanks are that many blanks.
pub proof fn blanks_are_blank(n: int)
    ensures
        blanks(n).len() == if n > 0 {
            n
        } else {
            0
        },
        forall|i: int| 0 <= i < blanks(n).len() ==> #[trigger] blanks(n)[i] == ' ',
    decreases n,
{
    if n > 0 {
        blanks_are_blank(n - 1);
    }
}

/// A line of a patch that names a file is shown by a mark for what happens to it: added,
/// updated, deleted, or where it is moved to.
pub proof fn patch_line_names_its_file(name: Seq<char>)
    ensures
        patch_target("*** Add File: "@ + name) == Some("+"@ + " "@ + line_text(name)),
        patch_target("*** Update File: "@ + name) == Some("~"@ + " "@ + line_text(name)),
        patch_target("*** Delete File: "@ + name) == Some("-"@ + " "@ + line_text(name)),
        patch_target("*** Move to: "@ + name) == Some("→"@ + " "@ + line_text(name)),
{
    let add = "*** Add File: "@;
    let update = "*** Update File: "@;
    let delete = "*** Delete File: "@;
    let rename = "*** Move to: "@;
    lemma_marks();
    lemma_prefix(add, name);
    lemma_prefix(update, name);
    lemma_prefix(delete, name);
    lemma_prefix(rename, name);
    assert((update + name)[4] == 'U');
    assert((delete + name)[4] == 'D');
    assert((rename + name)[4] == 'M');
    lemma_other(update + name, add, 4);
    lemma_other(delete + name, add, 4);
    lemma_other(delete + name, update, 4);
    lemma_other(rename + name, add, 4);
    lemma_other(rename + name, update, 4);
    lemma_other(rename + name, delete, 4);
}

proof fn lemma_marks()
    ensures
        "*** Add File: "@.len() == 14 && "*** Add File: "@[4] == 'A',
        "*** Update File: "@.len() == 17 && "*** Update File: "@[4] == 'U',
        "*** Delete File: "@.len() == 17 && "*** Delete File: "@[4] == 'D',
        "*** Move to: "@.len() == 13 && "*** Move to: "@[4] == 'M',
        "*** Add File: "@[0] == '*' && "*** Update File: "@[0] == '*' && "*** Delete File: "@[0]
            == '*' && "*** Move to: "@[0] == '*',
{
    reveal_strlit("*** Add File: ");
    reveal_strlit("*** Update File: ");
    reveal_strlit("*** Delete File: ");
    reveal_strlit("*** Move to: ");
}

/// No other line of a patch names a file: what starts with anything but a star does not.
pub proof fn other_patch_lines_name_no_file(line: Seq<char>)
    requires
        line.len() == 0 || line[0] != '*',
    ensures
        patch_target(line) is None,
{
    lemma_marks();
    if line.len() > 0 {
        lemma_other(line, "*** Add File: "@, 0);
        lemma_other(line, "*** Update File: "@, 0);
        lemma_other(line, "*** Delete File: "@, 0);
        lemma_other(line, "*** Move to: "@, 0);
    }
}

/// The files of a patch are shown in the order of its lines, six of them, and how many more
/// there are.
pub proof fn patch_shows_its_files_in_order(front: Seq<Seq<char>>, line: Seq<char>)
    ensures
        patch_targets(front.push(line)) == match patch_target(line) {
            Some(target) => patch_targets(front).push(target),
            None => patch_targets(front),
        },
        patch_targets(Seq::empty()) == Seq::<Seq<char>>::empty(),
        front.len() <= 6 ==> patch_text(front) == "patch"@ + listed(front, front.len() as int),
        front.len() > 6 ==> patch_text(front) == "patch"@ + listed(front, 6) + ("\n    ... +"@
            + decimal((front.len() - 6) as nat) + " more"@),
        forall|k: int|
            0 <= k < front.len() ==> #[trigger] listed(front, k + 1) == listed(front, k)
                + "\n    "@ + front[k],
{
    assert(front.push(line).drop_last() =~= front);
}

proof fn lemma_prefix(prefix: Seq<char>, name: Seq<char>)
    ensures
        starts_with(prefix + name, prefix),
        (prefix + name).skip(prefix.len() as int) == name,
{
    assert((prefix + name).subrange(0, prefix.len() as int) =~= prefix);
    assert((prefix + name).skip(prefix.len() as int) =~= name);
}

proof fn lemma_other(text: Seq<char>, prefix: Seq<char>, at: int)
    requires
        0 <= at < prefix.len(),
        at < text.len(),
        text[at] != prefix[at],
    ensures
        !starts_with(text, prefix),
{
    if starts_with(text, prefix) {
        assert(text.subrange(0, prefix.len() as int)[at] == prefix[at]);
    }
}

/// What is remembered and what becomes of it.
pub proof fn memory_calls_are_shown(params: JsonView, key: Seq<char>)
    requires
        string_field(params, "key") == Some(key),
    ensures
        field(params, "value"@) is None ==> remember_call(params) is None,
        field(params, "value"@) == Some(JsonView::Text(Seq::empty())) ==> remember_call(params)
            == Some("delete"@ + " "@ + key),
        field(params, "value"@) is Some && !(field(params, "value"@)->0 is Text && (field(
            params,
            "value"@,
        )->0->Text_0).len() == 0) ==> remember_call(params) == Some("set"@ + " "@ + key),
        bool_field(params, "saved") == Some(true) && bool_field(params, "deleted") is Some
            ==> remember_result(params) == Some("saved"@ + " "@ + key),
        bool_field(params, "saved") == Some(false) && bool_field(params, "deleted") == Some(true)
            ==> remember_result(params) == Some("deleted"@ + " "@ + key),
        bool_field(params, "saved") == Some(false) && bool_field(params, "deleted") == Some(false)
            ==> remember_result(params) == Some("unchanged"@ + " "@ + key),
        field(params, "value"@) == Some(JsonView::Null) ==> recall_result(params) == Some(
            "key="@ + key + "  "@ + "missing"@,
        ),
        field(params, "value"@) is Some && !(field(params, "value"@)->0 is Null) ==> recall_result(
            params,
        ) == Some("key="@ + key + "  "@ + "found"@),
{
}

/// What was read of a file: path, size, number of lines, the first and the last line of
/// the window counted from one, and the text.
pub proof fn read_file_result_is_shown(
    result: JsonView,
    path: Seq<char>,
    bytes: u64,
    total: u64,
    shown_lines: u64,
    offset: u64,
)
    requires
        string_field(result, "path") == Some(path),
        u64_field(result, "bytes") == Some(bytes),
        u64_field(result, "total_lines") == Some(total),
        u64_field(result, "shown_lines") == Some(shown_lines),
        u64_field(result, "offset") == Some(offset),
        offset + shown_lines < u64::MAX,
    ensures
        read_file_result(result) == Some(
            path + "  "@ + human_bytes(bytes) + "  lines="@ + decimal(total as nat) + "  window="@
                + decimal((offset + 1) as nat) + ".."@ + decimal((offset + shown_lines) as nat)
                + word_part("truncated", bool_field(result, "truncated") == Some(true))
                + match string_field(result, "content") {
                Some(text) => if text.len() > 0 {
                    "  content="@ + text
                } else {
                    Seq::empty()
                },
                None => Seq::empty(),
            },
        ),
{
    reveal_strlit("");
    reveal_strlit("  truncated");
    reveal_strlit("  ");
    reveal_strlit("truncated");
    assert("  truncated"@ =~= "  "@ + "truncated"@);
    assert(read_file_result(result)->0 =~= path + "  "@ + human_bytes(bytes) + "  lines="@
        + decimal(total as nat) + "  window="@ + decimal((offset + 1) as nat) + ".."@ + decimal(
        (offset + shown_lines) as nat,
    ) + word_part("truncated", bool_field(result, "truncated") == Some(true)) + match string_field(
        result,
        "content",
    ) {
        Some(text) => if text.len() > 0 {
            "  content="@ + text
        } else {
            Seq::empty()
        },
        None => Seq::empty(),
    });
}

/// Results that are lists: how many there are, and the first of them.
#[verifier::rlimit(40)]
pub proof fn lists_are_shown(result: JsonView, path: Seq<char>, items: Seq<JsonView>, count: u64)
    ensures
        string_field(result, "path") == Some(path) && u64_field(result, "count") == Some(count)
            && items_field(result, "entries") == Some(items) ==> list_directory_result(result)
            == Some(
            path + "  "@ + decimal(count as nat) + " entr"@ + (if count == 1 {
                "y"@
            } else {
                "ies"@
            }) + list_lines(LineKind::Entry, items, 8),
        ),
        string_field(result, "path") == Some(path) && items_field(result, "entries") == Some(items)
            ==> tree_result(result) == Some(
            path + "  "@ + decimal(items.len()) + " entries"@ + list_lines(
                LineKind::TreeEntry,
                items,
                10,
            ),
        ),
        items_field(result, "paths") == Some(items) && u64_field(result, "count") == Some(count)
            ==> glob_result(result) == Some(
            decimal(count as nat) + " match(es)"@ + list_lines(LineKind::Path, items, 10),
        ),
        items_field(result, "paths") == Some(items) && u64_field(result, "count") is None
            ==> glob_result(result) == Some(
            decimal(items.len()) + " match(es)"@ + list_lines(LineKind::Path, items, 10),
        ),
        items_field(result, "matches") == Some(items) && u64_field(result, "count") == Some(count)
            ==> grep_result(result) == Some(
            decimal(count as nat) + " match(es)"@ + (if bool_field(result, "incomplete") == Some(
                true,
            ) {
                "  incomplete"@
            } else {
                ""@
            }) + list_lines(LineKind::Match, items, 8),
        ),
        items_field(result, "skills") == Some(items) ==> skills_list_result(result) == Some(
            decimal(items.len()) + " skill(s)"@ + list_lines(LineKind::Skill, items, 8),
        ),
        bool_field(result, "applied") == Some(true) && u64_field(result, "count") == Some(count)
            && items_field(result, "files") == Some(items) ==> patch_result(result) == Some(
            "applied"@ + " "@ + decimal(count as nat) + " file(s)"@ + list_lines(
                LineKind::ChangedFile,
                items,
                8,
            ),
        ),
        bool_field(result, "applied") == Some(false) && u64_field(result, "count") == Some(count)
            && items_field(result, "files") == Some(items) ==> patch_result(result) == Some(
            "not applied"@ + " "@ + decimal(count as nat) + " file(s)"@ + list_lines(
                LineKind::ChangedFile,
                items,
                8,
            ),
        ),
{
}

/// A page of memory: how many notes of how many, from which on, their keys, and how many
/// tasks the plan has where it is there.
pub proof fn memory_page_is_shown(
    result: JsonView,
    notes: Seq<JsonView>,
    offset: u64,
    total: u64,
)
    requires
        string_field(result, "key") is None,
        items_field(result, "notes") == Some(notes),
        u64_field(result, "offset") == Some(offset),
        u64_field(result, "total") == Some(total),
    ensures
        recall_result(result) == Some(
            decimal(notes.len()) + " memory note(s)  offset="@ + decimal(offset as nat) + "/"@
                + decimal(total as nat) + list_lines(LineKind::NoteKey, notes, 10) + match field(
                result,
                "plan"@,
            ) {
                None => ""@,
                Some(JsonView::Null) => ""@,
                Some(plan) => "  plan="@ + decimal(
                    match items_field(plan, "items") {
                        Some(items) => items.len(),
                        None => 0,
                    },
                ) + " task(s)"@,
            },
        ),
{
}

/// Every tool's call is shown in the way of that tool.
pub proof fn calls_are_shown_by_tool(params: JsonView)
    ensures
        call_text("chatgpt_turn_init"@, params) == turn_init_call(params),
        call_text("apply_patch"@, params) == match field(params, "input"@) {
            Some(JsonView::Text(input)) => Some(patch_text(patch_targets(lines(input)))),
            _ => None,
        },
        call_text("read_file"@, params) == read_file_call(params),
        call_text("list_directory"@, params) == Some(list_directory_call(params)),
        call_text("tree"@, params) == Some(tree_call(params)),
        call_text("glob"@, params) == glob_call(params),
        call_text("grep"@, params) == grep_call(params),
        call_text("view_image"@, params) == string_field(params, "path"),
        call_text("exec_command"@, params) == exec_command_call(params),
        call_text("write_stdin"@, params) == write_stdin_call(params),
        call_text("skills_read"@, params) == skills_read_call(params),
        call_text("remember"@, params) == remember_call(params),
        call_text("recall"@, params) == Some(recall_call(params)),
        call_text("update_plan"@, params) == Some(Seq::<char>::empty()),
{
    lemma_tool_names();
}

/// So is every tool's result.
pub proof fn results_are_shown_by_tool(result: JsonView)
    ensures
        result_text("chatgpt_turn_init"@, result) == turn_init_result(result),
        result_text("apply_patch"@, result) == patch_result(result),
        result_text("read_file"@, result) == read_file_result(result),
        result_text("list_directory"@, result) == list_directory_result(result),
        result_text("tree"@, result) == tree_result(result),
        result_text("glob"@, result) == glob_result(result),
        result_text("grep"@, result) == grep_result(result),
        result_text("view_image"@, result) == view_image_result(result),
        result_text("exec_command"@, result) == process_result(result),
        result_text("write_stdin"@, result) == process_result(result),
        result_text("skills_list"@, result) == skills_list_result(result),
        result_text("skills_read"@, result) == skills_read_result(result),
        result_text("remember"@, result) == remember_result(result),
        result_text("recall"@, result) == recall_result(result),
        result_text("update_plan"@, result) == Some(Seq::<char>::empty()),
{
    lemma_tool_names();
}

proof fn lemma_tool_names()
    ensures
        "chatgpt_turn_init"@.len() == 17,
        "apply_patch"@.len() == 11 && "apply_patch"@[0] == 'a',
        "read_file"@.len() == 9,
        "list_directory"@.len() == 14,
        "tree"@.len() == 4 && "tree"@[0] == 't',
        "glob"@.len() == 4 && "glob"@[0] == 'g' && "glob"@[1] == 'l',
        "grep"@.len() == 4 && "grep"@[0] == 'g' && "grep"@[1] == 'r',
        "view_image"@.len() == 10,
        "exec_command"@.len() == 12,
        "write_stdin"@.len() == 11 && "write_stdin"@[0] == 'w',
        "skills_list"@.len() == 11 && "skills_list"@[0] == 's' && "skills_list"@[7] == 'l',
        "skills_read"@.len() == 11 && "skills_read"@[0] == 's' && "skills_read"@[7] == 'r',
        "remember"@.len() == 8,
        "recall"@.len() == 6,
        "update_plan"@.len() == 11 && "update_plan"@[0] == 'u',
{
    reveal_strlit("chatgpt_turn_init");
    reveal_strlit("apply_patch");
    reveal_strlit("read_file");
    reveal_strlit("list_directory");
    reveal_strlit("tree");
    reveal_strlit("glob");
    reveal_strlit("grep");
    reveal_strlit("view_image");
    reveal_strlit("exec_command");
    reveal_strlit("write_stdin");
    reveal_strlit("skills_list");
    reveal_strlit("skills_read");
    reveal_strlit("remember");
    reveal_strlit("recall");
    reveal_strlit("update_plan");
}

/// The line of a call and that of a result: the project in brackets, an arrow, the tool,
/// and what is shown of it. Other events have no line.
#[verifier::rlimit(40)]
pub proof fn lines_of_calls_and_results(
    config: LogConfig,
    secret: Seq<char>,
    event: JsonView,
    tool: Seq<char>,
    text: Seq<char>,
)
    requires
        field(event, "tool"@) == Some(JsonView::Text(tool)),
    ensures
        field(event, "event"@) == Some(JsonView::Text("tool_call"@)) && call_text(
            tool,
            pretty_payload(event, "params", secret),
        ) == Some(text) && 0 < text.len() <= 500 ==> event_line(config, secret, event) == Some(
            "["@ + ("\x1b[32m"@ + project_name(event, secret) + "\x1b[0m"@) + "] "@ + ("\x1b[90m"@
                + "->"@ + "\x1b[0m"@) + " "@ + ("\x1b[31m"@ + tool + "\x1b[0m"@) + (" "@ + text),
        ),
        field(event, "event"@) == Some(JsonView::Text("tool_result"@)) && result_text(
            tool,
            pretty_payload(event, "result", secret),
        ) == Some(text) && 0 < text.len() <= 500 ==> event_line(config, secret, event) == Some(
            "["@ + ("\x1b[34m"@ + project_name(event, secret) + "\x1b[0m"@) + "] "@ + ("\x1b[90m"@
                + "<-"@ + "\x1b[0m"@) + " "@ + ("\x1b[33m"@ + tool + "\x1b[0m"@) + (" "@ + text),
        ),
        field(event, "event"@) == Some(JsonView::Text("tool_timeout"@)) && error_text(
            pretty_payload(event, "error", secret),
        ) == Some(text) && text.len() <= 500 ==> event_line(config, secret, event) == Some(
            "["@ + ("\x1b[34m"@ + project_name(event, secret) + "\x1b[0m"@) + "] "@ + ("\x1b[90m"@
                + "<-"@ + "\x1b[0m"@) + " "@ + ("\x1b[33m"@ + tool + "\x1b[0m"@) + " "@
                + "tool_timeout"@ + ": "@ + text,
        ),
        field(event, "event"@) == Some(JsonView::Text("tool_error"@)) && error_text(
            pretty_payload(event, "error", secret),
        ) == Some(text) && text.len() <= 500 ==> event_line(config, secret, event) == Some(
            "["@ + ("\x1b[34m"@ + project_name(event, secret) + "\x1b[0m"@) + "] "@ + ("\x1b[90m"@
                + "<-"@ + "\x1b[0m"@) + " "@ + ("\x1b[33m"@ + tool + "\x1b[0m"@) + " "@
                + "tool_error"@ + ": "@ + text,
        ),
        field(event, "event"@) is None ==> event_line(config, secret, event) is None,
        field(event, "event"@) == Some(JsonView::Text("daemon_status"@)) ==> event_line(
            config,
            secret,
            event,
        ) is None,
{
    reveal_strlit("tool_call");
    reveal_strlit("tool_result");
    reveal_strlit("tool_timeout");
    reveal_strlit("tool_error");
    reveal_strlit("daemon_status");
    reveal_strlit("plan_updated");
    assert("tool_call"@.len() == 9 && "tool_result"@.len() == 11 && "tool_timeout"@.len() == 12
        && "tool_error"@.len() == 10 && "daemon_status"@.len() == 13 && "plan_updated"@.len()
        == 12);
    assert("tool_timeout"@[0] == 't' && "plan_updated"@[0] == 'p');
    crate::audit::laws::long_text_is_shown_by_its_edges(text);
}

}
