//! Events: how they are made up, made safe, counted and filed.
use vstd::prelude::*;

use crate::audit::console::{head, take_head};
use crate::audit::redact::{
    bound_event, bounded, event_room, number_json, scrub, scrubbed, text_fits,
};
use crate::audit::redact_laws::{bounding_keeps_order, scrubbing_keeps_order};
use crate::error::AppError;
use crate::json::{
    field, fields_view, json_text, lemma_object_ordered, push_field, to_text, well_ordered,
    JsonValue, JsonView,
};
use crate::project::{join_path, joined_path, ContextView, ProjectContext};
use crate::request_context::mode_name;
use crate::search::{has_prefix, starts_with};
use crate::text::{
    byte_len, decimal, decimal_usize, from_chars, is_less, join2, join3, lemma_less_total,
    lemma_less_transitive, lossy_prefix, opt_view, take_bytes_lossy, text_less, to_chars,
    utf8_len,
};

verus! {

/// How many fields stand before the place of a name.
pub open spec fn field_place(fields: Seq<(Seq<char>, JsonView)>, name: Seq<char>) -> int
    decreases fields.len(),
{
    if fields.len() == 0 || !text_less(fields[0].0, name) {
        0
    } else {
        1 + field_place(fields.skip(1), name)
    }
}

/// An object with a field that it may not have had; any other value as it is.
pub open spec fn with_default(value: JsonView, name: Seq<char>, default: JsonView) -> JsonView {
    match value {
        JsonView::Object(fields) => if field(value, name) is Some {
            value
        } else {
            JsonView::Object(fields.insert(field_place(fields, name), (name, default)))
        },
        _ => value,
    }
}

fn add_default(value: JsonValue, name: &str, default: JsonValue) -> (r: JsonValue)
    ensures
        r@ == with_default(value@, name@, default@),
{
    if value.get(name).is_some() {
        return value;
    }
    match value {
        JsonValue::Object(fields) => {
            let ghost views = fields_view(fields@);
            proof {
                assert(value@->Object_0 =~= views);
            }
            let mut place: usize = 0;
            proof {
                assert(views.skip(0) =~= views);
            }
            while place < fields.len() && is_less(fields[place].0.as_str(), name)
                invariant
                    place <= fields@.len(),
                    views == fields_view(fields@),
                    field_place(views, name@) == place + field_place(
                        views.skip(place as int),
                        name@,
                    ),
                decreases fields.len() - place,
            {
                proof {
                    assert(views.skip(place as int).skip(1) =~= views.skip(place + 1));
                }
                place += 1;
            }
            let mut changed = fields;
            let ghost added = default@;
            changed.insert(place, (name.to_owned(), default));
            proof {
                assert(fields_view(changed@) =~= views.insert(place as int, (name@, added)));
            }
            JsonValue::object(changed)
        },
        other => other,
    }
}

proof fn lemma_field_absent(fields: Seq<(Seq<char>, JsonView)>, name: Seq<char>, from: int)
    requires
        0 <= from,
        crate::json::field_from(fields, name, from) is None,
    ensures
        forall|i: int| from <= i < fields.len() ==> (#[trigger] fields[i]).0 != name,
    decreases fields.len() - from,
{
    if from < fields.len() {
        lemma_field_absent(fields, name, from + 1);
    }
}

proof fn lemma_field_place(fields: Seq<(Seq<char>, JsonView)>, name: Seq<char>)
    ensures
        0 <= field_place(fields, name) <= fields.len(),
        forall|j: int|
            0 <= j < field_place(fields, name) ==> text_less((#[trigger] fields[j]).0, name),
        field_place(fields, name) < fields.len() ==> !text_less(
            fields[field_place(fields, name)].0,
            name,
        ),
    decreases fields.len(),
{
    if fields.len() > 0 && text_less(fields[0].0, name) {
        let rest = fields.skip(1);
        lemma_field_place(rest, name);
        assert forall|j: int| 0 <= j < field_place(fields, name) implies text_less(
            (#[trigger] fields[j]).0,
            name,
        ) by {
            if j > 0 {
                assert(rest[j - 1] == fields[j]);
            }
        }
    }
}

/// A field that is added stands in its place.
pub proof fn default_keeps_order(value: JsonView, name: Seq<char>, default: JsonView)
    requires
        well_ordered(value),
        well_ordered(default),
    ensures
        well_ordered(with_default(value, name, default)),
{
    if let JsonView::Object(fields) = value {
        if field(value, name) is None {
            lemma_field_absent(fields, name, 0);
            lemma_field_place(fields, name);
            let p = field_place(fields, name);
            let after = fields.insert(p, (name, default));
            assert forall|i: int, j: int| 0 <= i < j < after.len() implies text_less(
                (#[trigger] after[i]).0,
                (#[trigger] after[j]).0,
            ) by {
                if j == p {
                    assert(after[i] == fields[i]);
                } else if i == p {
                    assert(after[j] == fields[j - 1]);
                    lemma_less_total(name, fields[p].0);
                    if j - 1 > p {
                        assert(text_less(fields[p].0, fields[j - 1].0));
                        lemma_less_transitive(name, fields[p].0, fields[j - 1].0);
                    }
                } else {
                    let x = if i < p {
                        i
                    } else {
                        i - 1
                    };
                    let y = if j < p {
                        j
                    } else {
                        j - 1
                    };
                    assert(after[i] == fields[x] && after[j] == fields[y]);
                    assert(text_less(fields[x].0, fields[y].0));
                }
            }
            assert forall|i: int| 0 <= i < after.len() implies well_ordered(
                (#[trigger] after[i]).1,
            ) by {
                if i < p {
                    assert(after[i] == fields[i]);
                } else if i > p {
                    assert(after[i] == fields[i - 1]);
                }
            }
        }
    }
}

/// The object with these fields, each in its place. Of fields with the same name
/// the first counts.
pub open spec fn object_with(fields: Seq<(Seq<char>, JsonView)>) -> JsonView
    decreases fields.len(),
{
    if fields.len() == 0 {
        JsonView::Object(Seq::empty())
    } else {
        with_default(object_with(fields.drop_last()), fields.last().0, fields.last().1)
    }
}

pub fn object_from(fields: &Vec<(String, JsonValue)>) -> (value: JsonValue)
    ensures
        value@ == object_with(fields_view(fields@)),
        (forall|i: int|
            0 <= i < fields@.len() ==> well_ordered((#[trigger] fields_view(fields@)[i]).1))
            ==> well_ordered(value@),
{
    let ghost all = fields_view(fields@);
    let ghost sound = forall|i: int| 0 <= i < fields@.len() ==> well_ordered((#[trigger] all[i]).1);
    let mut value = JsonValue::object(Vec::new());
    let mut i: usize = 0;
    proof {
        assert(value@->Object_0 =~= Seq::empty());
        assert(all.take(0) =~= Seq::empty());
    }
    while i < fields.len()
        invariant
            i <= fields@.len(),
            all == fields_view(fields@),
            all.len() == fields@.len(),
            sound == (forall|k: int| 0 <= k < fields@.len() ==> well_ordered((#[trigger] all[k]).1)),
            value@ == object_with(all.take(i as int)),
            sound ==> well_ordered(value@),
        decreases fields.len() - i,
    {
        proof {
            assert(all.take(i + 1).drop_last() =~= all.take(i as int));
            assert(all[i as int] == (fields@[i as int].0@, fields@[i as int].1@));
            if sound {
                default_keeps_order(value@, all[i as int].0, all[i as int].1);
            }
        }
        value = add_default(value, fields[i].0.as_str(), fields[i].1.copy());
        i += 1;
    }
    proof {
        assert(all.take(i as int) =~= all);
    }
    value
}

/// An event as it is queued: with its time, scrubbed and bounded.
pub open spec fn queued_event(event: JsonView, now: Seq<char>, secret: Seq<char>, limit: int) -> JsonView {
    let timed = with_default(event, "timestamp"@, JsonView::Text(now));
    let safe = scrubbed(timed, secret, limit);
    bounded(safe, json_text(safe), limit)
}

/// Make an event ready for the queue.
pub fn prepare_event(event: JsonValue, now: &str, auth_token: &str, limit: usize) -> (r: JsonValue)
    requires
        well_ordered(event@),
    ensures
        r@ == queued_event(event@, now@, auth_token@, limit as int),
        well_ordered(r@),
        text_fits(r@, event_room(limit as int)),
{
    proof {
        default_keeps_order(event@, "timestamp"@, JsonView::Text(now@));
    }
    let timed = add_default(event, "timestamp", JsonValue::text(now));
    proof {
        scrubbing_keeps_order(timed@, auth_token@, limit as int);
    }
    let safe = scrub(&timed, auth_token, limit);
    proof {
        bounding_keeps_order(safe@, json_text(safe@), limit as int);
    }
    bound_event(safe, limit)
}

/// What an event takes of the room in the queue.
pub open spec fn queue_share(text: Option<Seq<char>>, limit: int) -> int {
    let size = match text {
        Some(text) => utf8_len(text) as int,
        None => limit,
    };
    if size < 1 {
        1
    } else if size > u32::MAX {
        u32::MAX as int
    } else {
        size
    }
}

pub fn queue_bytes(text: &Option<String>, limit: usize) -> (n: u32)
    ensures
        n == queue_share(opt_view(*text), limit as int),
{
    let size = match text {
        Some(text) => byte_len(text.as_str()),
        None => limit,
    };
    if size < 1 {
        1
    } else if size > 0xffff_ffff {
        0xffff_ffff
    } else {
        size as u32
    }
}

/// The event as it is written to a file: scrubbed and bounded once more.
pub open spec fn filed_event(event: JsonView, secret: Seq<char>, limit: int) -> JsonView {
    let safe = scrubbed(event, secret, limit);
    bounded(safe, json_text(safe), limit)
}

pub fn file_event(event: &JsonValue, auth_token: &str, limit: usize) -> (r: JsonValue)
    requires
        well_ordered(event@),
    ensures
        r@ == filed_event(event@, auth_token@, limit as int),
        well_ordered(r@),
        text_fits(r@, event_room(limit as int)),
{
    proof {
        scrubbing_keeps_order(event@, auth_token@, limit as int);
    }
    let safe = scrub(event, auth_token, limit);
    proof {
        bounding_keeps_order(safe@, json_text(safe@), limit as int);
    }
    bound_event(safe, limit)
}

pub open spec fn event_name(event: JsonView) -> Seq<char> {
    match field(event, "event"@) {
        Some(JsonView::Text(name)) => name,
        _ => "daemon_event"@,
    }
}

pub fn name_of_event(event: &JsonValue) -> (name: String)
    ensures
        name@ == event_name(event@),
{
    match event.get("event") {
        Some(value) => match value.as_str() {
            Some(name) => name.to_owned(),
            None => "daemon_event".to_owned(),
        },
        None => "daemon_event".to_owned(),
    }
}

/// The file that events of a name are written to.
pub open spec fn event_file_name(event: Seq<char>) -> Seq<char> {
    if event == "tool_call"@ || event == "tool_result"@ || event == "tool_error"@ || event
        == "tool_timeout"@ || event == "process_started"@ || event == "process_exited"@ || event
        == "process_killed"@ {
        "tool-calls.log"@
    } else if starts_with(event, "task_"@) || event == "tasks_updated"@ {
        "tasks.log"@
    } else if starts_with(event, "plan_"@) {
        "plans.log"@
    } else {
        "rust-agent.log"@
    }
}

pub fn event_file(root: &str, event: &str, separator: char) -> (path: String)
    ensures
        path@ == joined_path(root@, event_file_name(event@), separator),
{
    let name = if event.eq("tool_call") || event.eq("tool_result") || event.eq("tool_error")
        || event.eq("tool_timeout") || event.eq("process_started") || event.eq("process_exited")
        || event.eq("process_killed") {
        "tool-calls.log"
    } else if has_prefix(event, "task_") || event.eq("tasks_updated") {
        "tasks.log"
    } else if has_prefix(event, "plan_") {
        "plans.log"
    } else {
        "rust-agent.log"
    };
    join_path(root, name, separator)
}

/// How much of an event too large for its file is kept.
pub open spec fn stored_share(limit: int, size: int) -> int {
    let room = if limit > 512 {
        limit - 512
    } else {
        0
    };
    if room < size {
        room
    } else {
        size
    }
}

/// What stands in the file for an event too large for it.
pub open spec fn file_cut(text: Seq<char>, name: Seq<char>, limit: int, now: Seq<char>) -> JsonView {
    let size = utf8_len(text) as int;
    let stored = stored_share(limit, size);
    JsonView::Object(
        seq![
            ("event"@, JsonView::Text(name)),
            ("event_excerpt"@, JsonView::Text(lossy_prefix(text, stored))),
            ("log_truncated"@, JsonView::Bool(true)),
            ("original_bytes"@, number_json(size)),
            ("stored_bytes"@, number_json(stored)),
            ("timestamp"@, JsonView::Text(now)),
        ],
    )
}

/// The line of an event in its file, given the text of the event.
pub open spec fn file_line(text: Seq<char>, name: Seq<char>, limit: int, now: Seq<char>) -> Seq<
    char,
> {
    if utf8_len(text) <= limit {
        text + "\n"@
    } else {
        match json_text(file_cut(text, name, limit, now)) {
            Some(cut) => cut + "\n"@,
            None => "\n"@,
        }
    }
}

pub proof fn lemma_file_cut_ordered(text: Seq<char>, name: Seq<char>, limit: int, now: Seq<char>)
    ensures
        well_ordered(file_cut(text, name, limit, now)),
{
    reveal_strlit("event");
    reveal_strlit("event_excerpt");
    reveal_strlit("log_truncated");
    reveal_strlit("original_bytes");
    reveal_strlit("stored_bytes");
    reveal_strlit("timestamp");
    reveal_with_fuel(text_less, 7);
    let fields = file_cut(text, name, limit, now)->Object_0;
    assert(fields.len() == 6);
    assert(fields[0].0 == "event"@ && fields[1].0 == "event_excerpt"@ && fields[2].0
        == "log_truncated"@ && fields[3].0 == "original_bytes"@ && fields[4].0 == "stored_bytes"@
        && fields[5].0 == "timestamp"@);
    assert(text_less("event"@, "event_excerpt"@));
    assert(text_less("event_excerpt"@, "log_truncated"@));
    assert(text_less("log_truncated"@, "original_bytes"@));
    assert(text_less("original_bytes"@, "stored_bytes"@));
    assert(text_less("stored_bytes"@, "timestamp"@));
    assert forall|i: int| 0 <= i < fields.len() implies well_ordered((#[trigger] fields[i]).1) by {
        if i == 0 {
        } else if i == 1 {
        } else if i == 2 {
        } else if i == 3 {
        } else if i == 4 {
        } else {
            assert(i == 5);
        }
    }
    lemma_object_ordered(fields);
}

/// The line of an event in its file, given the text of the event.
pub fn line_for_file(text: String, name: &str, limit: usize, now: &str) -> (line: String)
    ensures
        line@ == file_line(text@, name@, limit as int, now@),
{
    let size = byte_len(text.as_str());
    if size <= limit {
        return join2(text.as_str(), "\n");
    }
    let room: usize = if limit > 512 {
        limit - 512
    } else {
        0
    };
    let stored: usize = if room < size {
        room
    } else {
        size
    };
    let excerpt = take_bytes_lossy(text.as_str(), stored);
    let mut fields: Vec<(String, JsonValue)> = Vec::new();
    push_field(&mut fields, "event", JsonValue::text(name));
    push_field(&mut fields, "event_excerpt", JsonValue::text(excerpt.as_str()));
    push_field(&mut fields, "log_truncated", JsonValue::truth(true));
    push_field(&mut fields, "original_bytes", JsonValue::number(size as u64));
    push_field(&mut fields, "stored_bytes", JsonValue::number(stored as u64));
    push_field(&mut fields, "timestamp", JsonValue::text(now));
    let cut = JsonValue::object(fields);
    proof {
        assert(cut@->Object_0 =~= file_cut(text@, name@, limit as int, now@)->Object_0);
        lemma_file_cut_ordered(text@, name@, limit as int, now@);
    }
    match to_text(&cut) {
        Some(cut_text) => join2(cut_text.as_str(), "\n"),
        None => "\n".to_owned(),
    }
}

/// What is written down for an event: the file, and the line in it if the event
/// has a text.
pub struct LogEntry {
    pub path: String,
    pub line: Option<String>,
}

/// Prepare what is written down for an event.
pub fn log_entry(
    event: &JsonValue,
    auth_token: &str,
    root: &str,
    separator: char,
    limit: usize,
    now: &str,
) -> (entry: LogEntry)
    requires
        well_ordered(event@),
    ensures
        ({
            let filed = filed_event(event@, auth_token@, limit as int);
            let name = event_name(filed);
            &&& entry.path@ == joined_path(root@, event_file_name(name), separator)
            &&& opt_view(entry.line) == match json_text(filed) {
                Some(text) => Some(file_line(text, name, limit as int, now@)),
                None => None,
            }
        }),
{
    let filed = file_event(event, auth_token, limit);
    let name = name_of_event(&filed);
    let path = event_file(root, name.as_str(), separator);
    let line = match to_text(&filed) {
        Some(text) => Some(line_for_file(text, name.as_str(), limit, now)),
        None => None,
    };
    LogEntry { path, line }
}

/// Prepare an event for the queue, and say what it takes of the room there.
pub fn queue_entry(event: JsonValue, now: &str, auth_token: &str, limit: usize) -> (entry: (
    JsonValue,
    u32,
))
    requires
        well_ordered(event@),
    ensures
        entry.0@ == queued_event(event@, now@, auth_token@, limit as int),
        well_ordered(entry.0@),
        text_fits(entry.0@, event_room(limit as int)),
        entry.1 == queue_share(
            json_text(queued_event(event@, now@, auth_token@, limit as int)),
            limit as int,
        ),
{
    let queued = prepare_event(event, now, auth_token, limit);
    let text = to_text(&queued);
    let share = queue_bytes(&text, limit);
    (queued, share)
}

/// A step of the rotation of a log file.
pub enum RotationStep {
    Remove(String),
    RenameIfPresent(String, String),
    Rename(String, String),
}

pub enum RotationView {
    Remove(Seq<char>),
    RenameIfPresent(Seq<char>, Seq<char>),
    Rename(Seq<char>, Seq<char>),
}

impl View for RotationStep {
    type V = RotationView;

    open spec fn view(&self) -> RotationView {
        match *self {
            RotationStep::Remove(path) => RotationView::Remove(path@),
            RotationStep::RenameIfPresent(from, to) => RotationView::RenameIfPresent(from@, to@),
            RotationStep::Rename(from, to) => RotationView::Rename(from@, to@),
        }
    }
}

pub open spec fn steps_view(steps: Seq<RotationStep>) -> Seq<RotationView> {
    steps.map_values(|step: RotationStep| step@)
}

pub open spec fn separates(c: char, separator: char) -> bool {
    c == '/' || c == separator
}

/// Where the last name of a path ends: separators and single dots behind it name
/// nothing.
pub open spec fn name_end(path: Seq<char>, separator: char) -> int
    decreases path.len(),
{
    if path.len() == 0 {
        0
    } else if separates(path.last(), separator) || (path.last() == '.' && path.len() >= 2
        && separates(path[path.len() - 2], separator)) {
        name_end(path.drop_last(), separator)
    } else {
        path.len() as int
    }
}

/// Where the last part of a text starts.
pub open spec fn part_start(path: Seq<char>, separator: char) -> int
    decreases path.len(),
{
    if path.len() == 0 || separates(path.last(), separator) {
        path.len() as int
    } else {
        part_start(path.drop_last(), separator)
    }
}

/// How much of a name stands before its last dot; a dot in front starts no ending.
pub open spec fn stem_len(name: Seq<char>) -> int
    decreases name.len(),
{
    if name.len() <= 1 {
        0
    } else if name.last() == '.' {
        name.len() - 1
    } else {
        stem_len(name.drop_last())
    }
}

/// The last name of a path.
pub open spec fn file_name(path: Seq<char>, separator: char) -> Seq<char> {
    let whole = path.take(name_end(path, separator));
    whole.skip(part_start(whole, separator))
}

/// Whether a path ends in the name of a file.
pub open spec fn names_file(path: Seq<char>, separator: char) -> bool {
    let name = file_name(path, separator);
    name.len() > 0 && name != "."@ && name != ".."@
}

/// A path without the ending of its file.
pub open spec fn file_stem(path: Seq<char>, separator: char) -> Seq<char> {
    let name = file_name(path, separator);
    let start = name_end(path, separator) - name.len();
    path.take(
        start + if stem_len(name) > 0 {
            stem_len(name)
        } else {
            name.len() as int
        },
    )
}

/// The name of an older copy of a log file: the ending is replaced by `log` and a
/// number.
pub open spec fn older_copy(path: Seq<char>, separator: char, n: int) -> Seq<char> {
    if names_file(path, separator) {
        file_stem(path, separator) + ".log."@ + decimal(n as nat)
    } else {
        path
    }
}

/// Every older copy from `n` down grows older by one.
pub open spec fn shifts(path: Seq<char>, separator: char, n: int) -> Seq<RotationView>
    decreases n,
{
    if n <= 0 {
        Seq::empty()
    } else {
        seq![
            RotationView::RenameIfPresent(older_copy(path, separator, n), older_copy(path, separator, n + 1)),
        ] + shifts(path, separator, n - 1)
    }
}

/// How a log file of `size` bytes makes room: nothing happens to one that is
/// not full; else the oldest copy goes, and the file becomes the newest copy.
pub open spec fn rotation(
    path: Seq<char>,
    separator: char,
    size: u64,
    max_bytes: u64,
    max_files: int,
) -> Seq<RotationView> {
    if size < max_bytes {
        Seq::empty()
    } else if max_files <= 0 {
        seq![RotationView::Remove(path)]
    } else {
        seq![RotationView::Remove(older_copy(path, separator, max_files))] + shifts(path, separator, max_files - 1)
            + seq![RotationView::Rename(path, older_copy(path, separator, 1))]
    }
}

/// A name has an end, and starts no later than that.
pub proof fn lemma_name_range(path: Seq<char>, separator: char)
    ensures
        0 <= name_end(path, separator) <= path.len(),
        0 <= part_start(path, separator) <= path.len(),
    decreases path.len(),
{
    if path.len() > 0 {
        lemma_name_range(path.drop_last(), separator);
    }
}

fn find_name_end(chars: &Vec<char>, separator: char) -> (end: usize)
    ensures
        end == name_end(chars@, separator),
        end <= chars@.len(),
{
    let mut end: usize = chars.len();
    proof {
        assert(chars@.take(end as int) =~= chars@);
    }
    while end > 0 && (chars[end - 1] == '/' || chars[end - 1] == separator || (chars[end - 1] == '.'
        && end >= 2 && (chars[end - 2] == '/' || chars[end - 2] == separator)))
        invariant
            end <= chars@.len(),
            name_end(chars@, separator) == name_end(chars@.take(end as int), separator),
        decreases end,
    {
        proof {
            assert(chars@.take(end as int).drop_last() =~= chars@.take(end - 1));
        }
        end -= 1;
    }
    end
}

fn find_part_start(chars: &Vec<char>, end: usize, separator: char) -> (start: usize)
    requires
        end <= chars@.len(),
    ensures
        start <= end,
        start == part_start(chars@.take(end as int), separator),
{
    let mut start: usize = end;
    while start > 0 && chars[start - 1] != '/' && chars[start - 1] != separator
        invariant
            start <= end <= chars@.len(),
            part_start(chars@.take(end as int), separator) == part_start(
                chars@.take(start as int),
                separator,
            ),
        decreases start,
    {
        proof {
            assert(chars@.take(start as int).drop_last() =~= chars@.take(start - 1));
        }
        start -= 1;
    }
    start
}

fn find_stem_len(name: &Vec<char>) -> (len: usize)
    ensures
        len == stem_len(name@),
        len <= name@.len(),
{
    let mut len: usize = name.len();
    proof {
        assert(name@.take(len as int) =~= name@);
    }
    while len > 1
        invariant
            len <= name@.len(),
            stem_len(name@) == stem_len(name@.take(len as int)),
        decreases len,
    {
        if name[len - 1] == '.' {
            return len - 1;
        }
        proof {
            assert(name@.take(len as int).drop_last() =~= name@.take(len - 1));
        }
        len -= 1;
    }
    0
}

/// The path without the ending of its file, if it ends in the name of a file.
fn find_stem(path: &str, separator: char) -> (stem: Option<String>)
    ensures
        match stem {
            Some(stem) => names_file(path@, separator) && stem@ == file_stem(path@, separator),
            None => !names_file(path@, separator),
        },
{
    let chars = to_chars(path);
    let end = find_name_end(&chars, separator);
    let start = find_part_start(&chars, end, separator);
    let name_text = from_chars(&chars, start, end);
    proof {
        assert(name_text@ =~= file_name(path@, separator));
    }
    if name_text.as_str().is_empty() || name_text.as_str().eq(".") || name_text.as_str().eq("..") {
        return None;
    }
    let name = to_chars(name_text.as_str());
    let len = find_stem_len(&name);
    let kept = if len > 0 {
        len
    } else {
        name.len()
    };
    let stem = from_chars(&chars, 0, start + kept);
    proof {
        assert(stem@ =~= file_stem(path@, separator));
    }
    Some(stem)
}

fn copy_name(path: &str, separator: char, n: usize) -> (name: String)
    ensures
        name@ == older_copy(path@, separator, n as int),
{
    match find_stem(path, separator) {
        Some(stem) => join3(stem.as_str(), ".log.", decimal_usize(n).as_str()),
        None => path.to_owned(),
    }
}

/// The steps that make room for a log file of `size` bytes.
pub fn rotation_steps(
    path: &str,
    separator: char,
    size: u64,
    max_bytes: u64,
    max_files: usize,
) -> (steps: Vec<RotationStep>)
    ensures
        steps_view(steps@) == rotation(path@, separator, size, max_bytes, max_files as int),
{
    let mut steps: Vec<RotationStep> = Vec::new();
    if size < max_bytes {
        proof {
            assert(steps_view(steps@) =~= Seq::empty());
        }
        return steps;
    }
    if max_files == 0 {
        steps.push(RotationStep::Remove(path.to_owned()));
        proof {
            assert(steps_view(steps@) =~= seq![RotationView::Remove(path@)]);
        }
        return steps;
    }
    steps.push(RotationStep::Remove(copy_name(path, separator, max_files)));
    let ghost first = seq![RotationView::Remove(older_copy(path@, separator, max_files as int))];
    let mut n: usize = max_files - 1;
    proof {
        assert(steps_view(steps@) =~= first);
        assert(first + shifts(path@, separator, max_files - 1) =~= steps_view(steps@) + shifts(
            path@,
            separator,
            n as int,
        ));
    }
    while n > 0
        invariant
            n <= max_files - 1,
            first + shifts(path@, separator, max_files - 1) == steps_view(steps@) + shifts(path@, separator, n as int),
        decreases n,
    {
        let ghost before = steps_view(steps@);
        let from = copy_name(path, separator, n);
        let to = copy_name(path, separator, n + 1);
        let ghost step = RotationView::RenameIfPresent(from@, to@);
        steps.push(RotationStep::RenameIfPresent(from, to));
        n -= 1;
        proof {
            assert(steps_view(steps@) =~= before.push(step));
            assert(before + (seq![step] + shifts(path@, separator, n as int)) =~= steps_view(steps@) + shifts(
                path@,
                separator,
                n as int,
            ));
        }
    }
    let ghost before = steps_view(steps@);
    let newest = copy_name(path, separator, 1);
    steps.push(RotationStep::Rename(path.to_owned(), newest));
    proof {
        assert(before + shifts(path@, separator, 0) =~= before);
        assert(steps_view(steps@) =~= before + seq![
            RotationView::Rename(path@, older_copy(path@, separator, 1)),
        ]);
    }
    steps
}

/// The event that tells of dropped events.
pub open spec fn drop_event(count: u64) -> JsonView {
    JsonView::Object(
        seq![
            ("count"@, number_json(count as int)),
            ("event"@, JsonView::Text("log_events_dropped"@)),
        ],
    )
}

pub fn dropped_events(count: u64) -> (event: JsonValue)
    ensures
        event@ == drop_event(count),
        well_ordered(event@),
{
    let mut fields: Vec<(String, JsonValue)> = Vec::new();
    push_field(&mut fields, "count", JsonValue::number(count));
    push_field(&mut fields, "event", JsonValue::text("log_events_dropped"));
    let event = JsonValue::object(fields);
    proof {
        assert(event@->Object_0 =~= drop_event(count)->Object_0);
        reveal_strlit("count");
        reveal_strlit("event");
        reveal_with_fuel(text_less, 2);
        let shown = drop_event(count)->Object_0;
        assert(text_less(shown[0].0, shown[1].0));
        assert forall|k: int| 0 <= k < shown.len() implies well_ordered((#[trigger] shown[k]).1) by {
            if k == 0 {
            } else {
                assert(k == 1);
            }
        }
        lemma_object_ordered(shown);
    }
    event
}

/// What a running tool is known by: the start of its command, or of its path.
pub open spec fn summary_of(params: JsonView) -> Seq<char> {
    match (field(params, "command"@), field(params, "path"@)) {
        (Some(JsonView::Text(command)), _) => head(command, 160),
        (_, Some(JsonView::Text(path))) => head(path, 160),
        _ => Seq::empty(),
    }
}

pub fn summarize(params: &JsonValue) -> (summary: String)
    ensures
        summary@ == summary_of(params@),
{
    if let Some(value) = params.get("command") {
        if let Some(command) = value.as_str() {
            return take_head(command, 160);
        }
    }
    if let Some(value) = params.get("path") {
        if let Some(path) = value.as_str() {
            return take_head(path, 160);
        }
    }
    String::new()
}

pub open spec fn optional_text(text: Option<Seq<char>>) -> JsonView {
    match text {
        Some(text) => JsonView::Text(text),
        None => JsonView::Null,
    }
}

/// A project as events name it.
pub open spec fn project_value(project: ContextView) -> JsonView {
    JsonView::Object(
        seq![
            ("alias"@, optional_text(project.project_alias)),
            ("effective_key"@, JsonView::Text(project.effective_project_key)),
            ("native_key"@, JsonView::Text(project.native_project_key)),
            ("transport_mode"@, JsonView::Text(mode_name(project.transport_mode))),
        ],
    )
}

pub fn project_json(project: &ProjectContext) -> (value: JsonValue)
    ensures
        value@ == project_value(project@),
{
    let mut fields: Vec<(String, JsonValue)> = Vec::new();
    let alias = match &project.project_alias {
        Some(alias) => JsonValue::text(alias.as_str()),
        None => JsonValue::null(),
    };
    push_field(&mut fields, "alias", alias);
    push_field(
        &mut fields,
        "effective_key",
        JsonValue::text(project.effective_project_key.as_str()),
    );
    push_field(&mut fields, "native_key", JsonValue::text(project.native_project_key.as_str()));
    push_field(&mut fields, "transport_mode", JsonValue::text(project.transport_mode.as_str()));
    let value = JsonValue::object(fields);
    proof {
        assert(value@->Object_0 =~= project_value(project@)->Object_0);
    }
    value
}

pub open spec fn optional_project(project: Option<ContextView>) -> JsonView {
    match project {
        Some(project) => project_value(project),
        None => JsonView::Null,
    }
}

pub open spec fn project_view(project: Option<&ProjectContext>) -> Option<ContextView> {
    match project {
        Some(project) => Some(project@),
        None => None,
    }
}

fn optional_project_json(project: Option<&ProjectContext>) -> (value: JsonValue)
    ensures
        value@ == optional_project(project_view(project)),
{
    match project {
        Some(project) => project_json(project),
        None => JsonValue::null(),
    }
}

/// The event of a tool call.
pub open spec fn call_event(
    request_id: Seq<char>,
    tool: Seq<char>,
    project: Option<ContextView>,
    params: JsonView,
) -> JsonView {
    JsonView::Object(
        seq![
            ("event"@, JsonView::Text("tool_call"@)),
            ("params"@, params),
            ("project"@, optional_project(project)),
            ("request_id"@, JsonView::Text(request_id)),
            ("tool"@, JsonView::Text(tool)),
        ],
    )
}

/// A payload as it enters an event: whole. Credentials leave it when the event is
/// scrubbed, so that what an agent did can still be told from the trail.
pub fn redact_tool_payload(value: &JsonValue) -> (payload: JsonValue)
    ensures
        payload@ == value@,
{
    value.copy()
}

pub fn tool_call_event(
    request_id: &str,
    tool: &str,
    project: Option<&ProjectContext>,
    params: &JsonValue,
) -> (event: JsonValue)
    ensures
        event@ == call_event(request_id@, tool@, project_view(project), params@),
        well_ordered(params@) ==> well_ordered(event@),
{
    let mut fields: Vec<(String, JsonValue)> = Vec::new();
    push_field(&mut fields, "event", JsonValue::text("tool_call"));
    push_field(&mut fields, "params", redact_tool_payload(params));
    push_field(&mut fields, "project", optional_project_json(project));
    push_field(&mut fields, "request_id", JsonValue::text(request_id));
    push_field(&mut fields, "tool", JsonValue::text(tool));
    let event = JsonValue::object(fields);
    proof {
        assert(event@->Object_0 =~= call_event(
            request_id@,
            tool@,
            project_view(project),
            params@,
        )->Object_0);
        if well_ordered(params@) {
            lemma_call_event_ordered(request_id@, tool@, project_view(project), params@);
        }
    }
    event
}

/// The event of a tool's result.
pub open spec fn result_event(
    request_id: Seq<char>,
    tool: Seq<char>,
    project: Option<ContextView>,
    duration_ms: u64,
    result: JsonView,
) -> JsonView {
    JsonView::Object(
        seq![
            ("duration_ms"@, number_json(duration_ms as int)),
            ("event"@, JsonView::Text("tool_result"@)),
            ("project"@, optional_project(project)),
            ("request_id"@, JsonView::Text(request_id)),
            ("result"@, result),
            ("status"@, JsonView::Text("success"@)),
            ("tool"@, JsonView::Text(tool)),
        ],
    )
}

pub fn tool_result_event(
    request_id: &str,
    tool: &str,
    project: Option<&ProjectContext>,
    duration_ms: u64,
    result: &JsonValue,
) -> (event: JsonValue)
    ensures
        event@ == result_event(
            request_id@,
            tool@,
            project_view(project),
            duration_ms,
            result@,
        ),
        well_ordered(result@) ==> well_ordered(event@),
{
    let mut fields: Vec<(String, JsonValue)> = Vec::new();
    push_field(&mut fields, "duration_ms", JsonValue::number(duration_ms));
    push_field(&mut fields, "event", JsonValue::text("tool_result"));
    push_field(&mut fields, "project", optional_project_json(project));
    push_field(&mut fields, "request_id", JsonValue::text(request_id));
    push_field(&mut fields, "result", redact_tool_payload(result));
    push_field(&mut fields, "status", JsonValue::text("success"));
    push_field(&mut fields, "tool", JsonValue::text(tool));
    let event = JsonValue::object(fields);
    proof {
        assert(event@->Object_0 =~= result_event(
            request_id@,
            tool@,
            project_view(project),
            duration_ms,
            result@,
        )->Object_0);
        if well_ordered(result@) {
            lemma_result_event_ordered(
                request_id@,
                tool@,
                project_view(project),
                duration_ms,
                result@,
            );
        }
    }
    event
}

pub open spec fn error_value(code: Seq<char>, message: Seq<char>) -> JsonView {
    JsonView::Object(
        seq![("code"@, JsonView::Text(code)), ("message"@, JsonView::Text(message))],
    )
}

pub fn error_json(code: &str, message: &str) -> (value: JsonValue)
    ensures
        value@ == error_value(code@, message@),
{
    let mut fields: Vec<(String, JsonValue)> = Vec::new();
    push_field(&mut fields, "code", JsonValue::text(code));
    push_field(&mut fields, "message", JsonValue::text(message));
    let value = JsonValue::object(fields);
    proof {
        assert(value@->Object_0 =~= error_value(code@, message@)->Object_0);
    }
    value
}

/// A timeout is told from other errors by its code.
pub open spec fn failure_name(code: Seq<char>) -> Seq<char> {
    if code == "PROCESS_TIMEOUT"@ {
        "tool_timeout"@
    } else {
        "tool_error"@
    }
}

/// The event of a tool's failure.
pub open spec fn failure_event(
    request_id: Seq<char>,
    tool: Seq<char>,
    project: Option<ContextView>,
    duration_ms: u64,
    code: Seq<char>,
    message: Seq<char>,
) -> JsonView {
    JsonView::Object(
        seq![
            ("duration_ms"@, number_json(duration_ms as int)),
            ("error"@, error_value(code, message)),
            ("event"@, JsonView::Text(failure_name(code))),
            ("project"@, optional_project(project)),
            ("request_id"@, JsonView::Text(request_id)),
            ("status"@, JsonView::Text("error"@)),
            ("tool"@, JsonView::Text(tool)),
        ],
    )
}

pub fn tool_failure_event(
    request_id: &str,
    tool: &str,
    project: Option<&ProjectContext>,
    duration_ms: u64,
    error: &AppError,
) -> (event: JsonValue)
    ensures
        event@ == failure_event(
            request_id@,
            tool@,
            project_view(project),
            duration_ms,
            error@.code,
            error@.message,
        ),
        well_ordered(event@),
{
    let mut fields: Vec<(String, JsonValue)> = Vec::new();
    let name = if error.code().eq("PROCESS_TIMEOUT") {
        "tool_timeout"
    } else {
        "tool_error"
    };
    push_field(&mut fields, "duration_ms", JsonValue::number(duration_ms));
    push_field(&mut fields, "error", error_json(error.code(), error.message()));
    push_field(&mut fields, "event", JsonValue::text(name));
    push_field(&mut fields, "project", optional_project_json(project));
    push_field(&mut fields, "request_id", JsonValue::text(request_id));
    push_field(&mut fields, "status", JsonValue::text("error"));
    push_field(&mut fields, "tool", JsonValue::text(tool));
    let event = JsonValue::object(fields);
    proof {
        assert(event@->Object_0 =~= failure_event(
            request_id@,
            tool@,
            project_view(project),
            duration_ms,
            error@.code,
            error@.message,
        )->Object_0);
        lemma_failure_event_ordered(
            request_id@,
            tool@,
            project_view(project),
            duration_ms,
            error@.code,
            error@.message,
        );
    }
    event
}


proof fn lemma_project_ordered(project: Option<ContextView>)
    ensures
        well_ordered(optional_project(project)),
{
    if let Some(context) = project {
        reveal_strlit("alias");
        reveal_strlit("effective_key");
        reveal_strlit("native_key");
        reveal_strlit("transport_mode");
        reveal_with_fuel(text_less, 2);
        let fields = project_value(context)->Object_0;
        assert(fields.len() == 4);
        assert(text_less(fields[0].0, fields[1].0));
        assert(text_less(fields[1].0, fields[2].0));
        assert(text_less(fields[2].0, fields[3].0));
        assert forall|k: int| 0 <= k < fields.len() - 1 implies text_less(
            fields[k].0,
            #[trigger] fields[k + 1].0,
        ) by {
            if k == 0 {
            } else if k == 1 {
            } else {
                assert(k == 2);
            }
        }
        assert forall|k: int| 0 <= k < fields.len() implies well_ordered(
            (#[trigger] fields[k]).1,
        ) by {
            if k == 0 {
            } else if k == 1 {
            } else if k == 2 {
            } else {
                assert(k == 3);
            }
        }
        lemma_object_ordered(fields);
    }
}

pub proof fn lemma_error_ordered(code: Seq<char>, message: Seq<char>)
    ensures
        well_ordered(error_value(code, message)),
{
    reveal_strlit("code");
    reveal_strlit("message");
    reveal_with_fuel(text_less, 2);
    let fields = error_value(code, message)->Object_0;
    assert(fields.len() == 2);
    assert(text_less(fields[0].0, fields[1].0));
    assert forall|k: int| 0 <= k < fields.len() implies well_ordered((#[trigger] fields[k]).1) by {
        if k == 0 {
        } else {
            assert(k == 1);
        }
    }
    lemma_object_ordered(fields);
}

proof fn lemma_call_event_ordered(
    request_id: Seq<char>,
    tool: Seq<char>,
    project: Option<ContextView>,
    params: JsonView,
)
    requires
        well_ordered(params),
    ensures
        well_ordered(call_event(request_id, tool, project, params)),
{
    reveal_strlit("event");
    reveal_strlit("params");
    reveal_strlit("project");
    reveal_strlit("request_id");
    reveal_strlit("tool");
    reveal_with_fuel(text_less, 3);
    lemma_project_ordered(project);
    let fields = call_event(request_id, tool, project, params)->Object_0;
    assert(fields.len() == 5);
    assert(text_less(fields[0].0, fields[1].0));
    assert(text_less(fields[1].0, fields[2].0));
    assert(text_less(fields[2].0, fields[3].0));
    assert(text_less(fields[3].0, fields[4].0));
    assert forall|k: int| 0 <= k < fields.len() - 1 implies text_less(
        fields[k].0,
        #[trigger] fields[k + 1].0,
    ) by {
        if k == 0 {
        } else if k == 1 {
        } else if k == 2 {
        } else {
            assert(k == 3);
        }
    }
    assert forall|k: int| 0 <= k < fields.len() implies well_ordered((#[trigger] fields[k]).1) by {
        if k == 0 {
        } else if k == 1 {
        } else if k == 2 {
        } else if k == 3 {
        } else {
            assert(k == 4);
        }
    }
    lemma_object_ordered(fields);
}

proof fn lemma_result_event_ordered(
    request_id: Seq<char>,
    tool: Seq<char>,
    project: Option<ContextView>,
    duration_ms: u64,
    result: JsonView,
)
    requires
        well_ordered(result),
    ensures
        well_ordered(result_event(request_id, tool, project, duration_ms, result)),
{
    reveal_strlit("duration_ms");
    reveal_strlit("event");
    reveal_strlit("project");
    reveal_strlit("request_id");
    reveal_strlit("result");
    reveal_strlit("status");
    reveal_strlit("tool");
    reveal_with_fuel(text_less, 4);
    lemma_project_ordered(project);
    let fields = result_event(request_id, tool, project, duration_ms, result)->Object_0;
    assert(fields.len() == 7);
    assert(text_less(fields[0].0, fields[1].0));
    assert(text_less(fields[1].0, fields[2].0));
    assert(text_less(fields[2].0, fields[3].0));
    assert(text_less(fields[3].0, fields[4].0));
    assert(text_less(fields[4].0, fields[5].0));
    assert(text_less(fields[5].0, fields[6].0));
    assert forall|k: int| 0 <= k < fields.len() - 1 implies text_less(
        fields[k].0,
        #[trigger] fields[k + 1].0,
    ) by {
        if k == 0 {
        } else if k == 1 {
        } else if k == 2 {
        } else if k == 3 {
        } else if k == 4 {
        } else {
            assert(k == 5);
        }
    }
    assert forall|k: int| 0 <= k < fields.len() implies well_ordered((#[trigger] fields[k]).1) by {
        if k == 0 {
        } else if k == 1 {
        } else if k == 2 {
        } else if k == 3 {
        } else if k == 4 {
        } else if k == 5 {
        } else {
            assert(k == 6);
        }
    }
    lemma_object_ordered(fields);
}

proof fn lemma_failure_event_ordered(
    request_id: Seq<char>,
    tool: Seq<char>,
    project: Option<ContextView>,
    duration_ms: u64,
    code: Seq<char>,
    message: Seq<char>,
)
    ensures
        well_ordered(failure_event(request_id, tool, project, duration_ms, code, message)),
{
    reveal_strlit("duration_ms");
    reveal_strlit("error");
    reveal_strlit("event");
    reveal_strlit("project");
    reveal_strlit("request_id");
    reveal_strlit("status");
    reveal_strlit("tool");
    reveal_with_fuel(text_less, 3);
    lemma_project_ordered(project);
    lemma_error_ordered(code, message);
    let fields = failure_event(
        request_id,
        tool,
        project,
        duration_ms,
        code,
        message,
    )->Object_0;
    assert(fields.len() == 7);
    assert(text_less(fields[0].0, fields[1].0));
    assert(text_less(fields[1].0, fields[2].0));
    assert(text_less(fields[2].0, fields[3].0));
    assert(text_less(fields[3].0, fields[4].0));
    assert(text_less(fields[4].0, fields[5].0));
    assert(text_less(fields[5].0, fields[6].0));
    assert forall|k: int| 0 <= k < fields.len() - 1 implies text_less(
        fields[k].0,
        #[trigger] fields[k + 1].0,
    ) by {
        if k == 0 {
        } else if k == 1 {
        } else if k == 2 {
        } else if k == 3 {
        } else if k == 4 {
        } else {
            assert(k == 5);
        }
    }
    assert forall|k: int| 0 <= k < fields.len() implies well_ordered((#[trigger] fields[k]).1) by {
        if k == 0 {
        } else if k == 1 {
        } else if k == 2 {
        } else if k == 3 {
        } else if k == 4 {
        } else if k == 5 {
        } else {
            assert(k == 6);
        }
    }
    lemma_object_ordered(fields);
}

}
