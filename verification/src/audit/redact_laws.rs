//! What holds of everything that is written down.
use vstd::prelude::*;

use crate::audit::redact::{
    all_kept, bounded, carried, chosen_fields, event_cut, event_room, excerpt_bytes, items_left_out, kept_field, number_json,
    reduced, scrubbed, sensitive_key, text_cut, text_fits, without_secret, SCRUB_ARRAY_ITEMS,
};
use crate::json::{field, field_from, fields_ascend, well_ordered, JsonView};
use crate::search::{contains, differs_at, never_overlaps, replaced_text_is_gone, stands_at};
use crate::text::{
    byte_prefix, lemma_byte_prefix, lemma_less_transitive, lemma_utf8_len_concat,
    lemma_utf8_len_front, lossy_prefix, text_less, utf8_len,
};

verus! {

/// A field of an ordered value is ordered.
pub proof fn lemma_field_ordered(value: JsonView, name: Seq<char>)
    requires
        well_ordered(value),
    ensures
        field(value, name) is Some ==> well_ordered(field(value, name)->0),
{
    if let JsonView::Object(fields) = value {
        lemma_field_from(fields, name, 0);
    }
}

proof fn lemma_field_from(fields: Seq<(Seq<char>, JsonView)>, name: Seq<char>, from: int)
    requires
        0 <= from,
        forall|i: int| 0 <= i < fields.len() ==> well_ordered((#[trigger] fields[i]).1),
    ensures
        field_from(fields, name, from) is Some ==> well_ordered(field_from(fields, name, from)->0),
    decreases fields.len() - from,
{
    if from < fields.len() && fields[from].0 != name {
        lemma_field_from(fields, name, from + 1);
    }
}

proof fn lemma_left_out_ordered(all: int, shown: int)
    ensures
        well_ordered(items_left_out(all, shown)),
{
    reveal_strlit("original_items");
    reveal_strlit("shown_items");
    reveal_strlit("truncated");
    reveal_with_fuel(text_less, 2);
    let fields = items_left_out(all, shown)->Object_0;
    assert(fields.len() == 3);
    assert(fields[0].0 == "original_items"@ && fields[1].0 == "shown_items"@ && fields[2].0
        == "truncated"@);
    assert(text_less(fields[0].0, fields[1].0));
    assert(text_less(fields[1].0, fields[2].0));
    assert(text_less(fields[0].0, fields[2].0));
    assert forall|i: int| 0 <= i < fields.len() implies well_ordered((#[trigger] fields[i]).1) by {
        if i == 0 {
        } else if i == 1 {
        } else {
            assert(i == 2);
        }
    }
}

proof fn lemma_text_cut_ordered(text: Seq<char>, limit: int)
    ensures
        well_ordered(text_cut(text, limit)),
{
    reveal_strlit("excerpt");
    reveal_strlit("original_bytes");
    reveal_strlit("shown_bytes");
    reveal_strlit("truncated");
    reveal_with_fuel(text_less, 2);
    let fields = text_cut(text, limit)->Object_0;
    assert(fields.len() == 4);
    assert(fields[0].0 == "excerpt"@ && fields[1].0 == "original_bytes"@ && fields[2].0
        == "shown_bytes"@ && fields[3].0 == "truncated"@);
    assert(text_less(fields[0].0, fields[1].0));
    assert(text_less(fields[0].0, fields[2].0));
    assert(text_less(fields[0].0, fields[3].0));
    assert(text_less(fields[1].0, fields[2].0));
    assert(text_less(fields[1].0, fields[3].0));
    assert(text_less(fields[2].0, fields[3].0));
    assert forall|i: int| 0 <= i < fields.len() implies well_ordered((#[trigger] fields[i]).1) by {
        if i == 0 {
        } else if i == 1 {
        } else if i == 2 {
        } else {
            assert(i == 3);
        }
    }
}

/// Scrubbing keeps fields in the order of their names.
pub proof fn scrubbing_keeps_order(value: JsonView, secret: Seq<char>, limit: int)
    requires
        well_ordered(value),
    ensures
        well_ordered(scrubbed(value, secret, limit)),
    decreases value,
{
    match value {
        JsonView::Object(fields) => {
            let after = scrubbed(value, secret, limit)->Object_0;
            assert forall|i: int| 0 <= i < after.len() implies well_ordered(
                (#[trigger] after[i]).1,
            ) by {
                assert(well_ordered(fields[i].1));
                scrubbing_keeps_order(fields[i].1, secret, limit);
            }
            assert forall|i: int, j: int| 0 <= i < j < after.len() implies text_less(
                (#[trigger] after[i]).0,
                (#[trigger] after[j]).0,
            ) by {
                assert(text_less(fields[i].0, fields[j].0));
            }
        },
        JsonView::Array(items) => {
            let after = scrubbed(value, secret, limit)->Array_0;
            assert forall|i: int| 0 <= i < after.len() implies well_ordered(
                #[trigger] after[i],
            ) by {
                if i < items.len() && i < SCRUB_ARRAY_ITEMS {
                    assert(well_ordered(items[i]));
                    scrubbing_keeps_order(items[i], secret, limit);
                } else {
                    lemma_left_out_ordered(items.len() as int, SCRUB_ARRAY_ITEMS as int);
                }
            }
        },
        JsonView::Text(text) => {
            lemma_text_cut_ordered(without_secret(text, secret), limit);
        },
        _ => {},
    }
}

/// Fields in order, all of them ordered, none behind `last`.
pub open spec fn ordered_up_to(fields: Seq<(Seq<char>, JsonView)>, last: Seq<char>) -> bool {
    &&& fields_ascend(fields)
    &&& forall|i: int|
        0 <= i < fields.len() ==> well_ordered((#[trigger] fields[i]).1) && (fields[i].0 == last
            || text_less(fields[i].0, last))
}

proof fn lemma_append(
    fields: Seq<(Seq<char>, JsonView)>,
    last: Seq<char>,
    more: Seq<(Seq<char>, JsonView)>,
    name: Seq<char>,
)
    requires
        ordered_up_to(fields, last),
        text_less(last, name),
        more.len() <= 1,
        more.len() == 1 ==> more[0].0 == name && well_ordered(more[0].1),
    ensures
        ordered_up_to(fields + more, name),
{
    let after = fields + more;
    assert forall|i: int| 0 <= i < after.len() implies well_ordered((#[trigger] after[i]).1) && (
    after[i].0 == name || text_less(after[i].0, name)) by {
        if i < fields.len() {
            assert(after[i] == fields[i]);
            if fields[i].0 != last {
                lemma_less_transitive(fields[i].0, last, name);
            }
        } else {
            assert(after[i] == more[0]);
        }
    }
    assert forall|i: int, j: int| 0 <= i < j < after.len() implies text_less(
        (#[trigger] after[i]).0,
        (#[trigger] after[j]).0,
    ) by {
        assert(after[i] == fields[i]);
        if j < fields.len() {
            assert(after[j] == fields[j]);
        } else {
            assert(after[j] == more[0]);
            if fields[i].0 != last {
                lemma_less_transitive(fields[i].0, last, name);
            }
        }
    }
}

proof fn lemma_kept_one(value: JsonView, name: &str)
    requires
        well_ordered(value),
    ensures
        kept_field(value, name).len() <= 1,
        kept_field(value, name).len() == 1 ==> kept_field(value, name)[0].0 == name@
            && well_ordered(kept_field(value, name)[0].1),
{
    lemma_field_ordered(value, name@);
}

/// Bounding keeps fields in the order of their names.
pub proof fn bounding_keeps_order(value: JsonView, text: Option<Seq<char>>, maximum: int)
    requires
        well_ordered(value),
    ensures
        well_ordered(bounded(value, text, maximum)),
{
    match text {
        None => {
            let fields = bounded(value, None, maximum)->Object_0;
            assert(fields.len() == 1);
            assert(well_ordered(fields[0].1));
        },
        Some(text) => {
            lemma_reduced(
                value,
                text,
                event_room(maximum),
                excerpt_bytes(event_room(maximum), utf8_len(text) as int),
            );
            assert forall|shown: int, kept: Seq<bool>| well_ordered(
                #[trigger] event_cut(value, text, shown, kept),
            ) by {
                lemma_event_cut_ordered(value, text, shown, kept);
            }
        },
    }
}

/// Reducing an event ends at one of the forms that stand for it: with no more of an
/// excerpt than at first, and with all of the fields if they fit without any excerpt.
proof fn lemma_reduced(value: JsonView, text: Seq<char>, room: int, shown: int)
    requires
        shown >= 0,
    ensures
        exists|s: int, k: Seq<bool>|
            0 <= s <= shown && reduced(value, text, room, shown) == #[trigger] event_cut(
                value,
                text,
                s,
                k,
            ) && (text_fits(event_cut(value, text, 0, all_kept()), room) ==> k == all_kept()),
    decreases shown,
{
    if text_fits(event_cut(value, text, shown, all_kept()), room) {
        assert(reduced(value, text, room, shown) == event_cut(value, text, shown, all_kept()));
    } else if shown > 0 {
        lemma_reduced(value, text, room, shown / 2);
        let (s, k) = choose|s: int, k: Seq<bool>|
            0 <= s <= shown / 2 && reduced(value, text, room, shown / 2) == #[trigger] event_cut(
                value,
                text,
                s,
                k,
            ) && (text_fits(event_cut(value, text, 0, all_kept()), room) ==> k == all_kept());
        assert(reduced(value, text, room, shown) == event_cut(value, text, s, k));
    } else {
        let k = chosen_fields(value, text, room, Seq::empty());
        assert(reduced(value, text, room, shown) == event_cut(value, text, 0, k));
    }
}

pub proof fn lemma_event_cut_ordered(value: JsonView, text: Seq<char>, shown: int, kept: Seq<bool>)
    requires
        well_ordered(value),
    ensures
        well_ordered(event_cut(value, text, shown, kept)),
{
    reveal_strlit("event");
    reveal_strlit("event_excerpt");
    reveal_strlit("original_bytes");
    reveal_strlit("project");
    reveal_strlit("request_id");
    reveal_strlit("shown_bytes");
    reveal_strlit("status");
    reveal_strlit("timestamp");
    reveal_strlit("tool");
    reveal_strlit("truncated");
    reveal_with_fuel(text_less, 7);
    let size = utf8_len(text) as int;
    let excerpt = ("event_excerpt"@, JsonView::Text(lossy_prefix(text, shown)));
    let original = ("original_bytes"@, number_json(size));
    let bytes = ("shown_bytes"@, number_json(shown));
    let cut = ("truncated"@, JsonView::Bool(true));
    lemma_kept_one(value, "event");
    lemma_kept_one(value, "project");
    lemma_kept_one(value, "request_id");
    lemma_kept_one(value, "status");
    lemma_kept_one(value, "timestamp");
    lemma_kept_one(value, "tool");
    let f0 = Seq::<(Seq<char>, JsonView)>::empty();
    assert(ordered_up_to(f0, Seq::empty()));
    let f1 = f0 + carried(value, "event", 0, kept);
    assert(f1 =~= carried(value, "event", 0, kept));
    lemma_append(f0, Seq::empty(), carried(value, "event", 0, kept), "event"@);
    let f2 = f1 + seq![excerpt];
    lemma_append(f1, "event"@, seq![excerpt], "event_excerpt"@);
    let f3 = f2 + seq![original];
    lemma_append(f2, "event_excerpt"@, seq![original], "original_bytes"@);
    assert(f3 =~= f1 + seq![excerpt, original]);
    let f4 = f3 + carried(value, "project", 5, kept);
    lemma_append(f3, "original_bytes"@, carried(value, "project", 5, kept), "project"@);
    let f5 = f4 + carried(value, "request_id", 2, kept);
    lemma_append(f4, "project"@, carried(value, "request_id", 2, kept), "request_id"@);
    let f6 = f5 + seq![bytes];
    lemma_append(f5, "request_id"@, seq![bytes], "shown_bytes"@);
    let f7 = f6 + carried(value, "status", 4, kept);
    lemma_append(f6, "shown_bytes"@, carried(value, "status", 4, kept), "status"@);
    let f8 = f7 + carried(value, "timestamp", 1, kept);
    lemma_append(f7, "status"@, carried(value, "timestamp", 1, kept), "timestamp"@);
    let f9 = f8 + carried(value, "tool", 3, kept);
    lemma_append(f8, "timestamp"@, carried(value, "tool", 3, kept), "tool"@);
    let f10 = f9 + seq![cut];
    lemma_append(f9, "tool"@, seq![cut], "truncated"@);
    assert(event_cut(value, text, shown, kept)->Object_0 =~= f10);
}

/// No text in the value holds the secret.
pub open spec fn secret_free(value: JsonView, secret: Seq<char>) -> bool
    decreases value,
{
    match value {
        JsonView::Text(text) => !contains(text, secret),
        JsonView::Array(items) => forall|i: int|
            0 <= i < items.len() ==> secret_free(#[trigger] items[i], secret),
        JsonView::Object(fields) => forall|i: int|
            0 <= i < fields.len() ==> secret_free((#[trigger] fields[i]).1, secret),
        _ => true,
    }
}

/// What starts a text holds nothing that the text does not hold.
proof fn lemma_prefix_contains(text: Seq<char>, n: int, pattern: Seq<char>)
    requires
        0 <= n <= text.len(),
        contains(text.take(n), pattern),
    ensures
        contains(text, pattern),
{
    let at = choose|at: int| #[trigger] stands_at(text.take(n), pattern, at);
    assert(text.take(n).subrange(at, at + pattern.len()) =~= text.subrange(
        at,
        at + pattern.len(),
    ));
    assert(stands_at(text, pattern, at));
}

proof fn lemma_mark_is_free(secret: Seq<char>)
    requires
        secret.len() > 0,
        never_overlaps(secret, "[REDACTED]"@),
    ensures
        !contains("[REDACTED]"@, secret),
{
    assert forall|at: int| !#[trigger] stands_at("[REDACTED]"@, secret, at) by {
        if stands_at("[REDACTED]"@, secret, at) {
            assert(differs_at(secret, "[REDACTED]"@, at));
            let i = choose|i: int|
                0 <= i < secret.len() && 0 <= i + at < "[REDACTED]"@.len() && #[trigger] secret[i]
                    != "[REDACTED]"@[i + at];
            assert("[REDACTED]"@.subrange(at, at + secret.len())[i] == "[REDACTED]"@[i + at]);
        }
    }
}

/// The start of a text takes at most two bytes more than was asked for: those of
/// a replacement character that stands for one byte of a character that was cut.
pub proof fn excerpt_fits(text: Seq<char>, limit: int)
    requires
        limit >= 0,
    ensures
        utf8_len(lossy_prefix(text, limit)) <= limit + 2,
{
    let whole = byte_prefix(text, limit);
    lemma_byte_prefix(text, limit);
    if utf8_len(whole) != limit && whole.len() != text.len() {
        let mark = seq!['\u{fffd}'];
        assert(whole.push('\u{fffd}') =~= whole + mark);
        lemma_utf8_len_concat(whole, mark);
        lemma_utf8_len_front(mark);
        lemma_utf8_len_front(mark.skip(1));
    }
}

/// An event that is too large is marked, its size is told, and so is how much of its
/// text is kept. It keeps what it is about where that fits into the room.
pub proof fn large_event_is_cut(value: JsonView, text: Seq<char>, maximum: int)
    requires
        utf8_len(text) > event_room(maximum),
    ensures
        ({
            let room = event_room(maximum);
            let cut = bounded(value, Some(text), maximum);
            &&& field(cut, "truncated"@) == Some(JsonView::Bool(true))
            &&& field(cut, "original_bytes"@) == Some(number_json(utf8_len(text) as int))
            &&& exists|shown: int|
                0 <= shown < room && field(cut, "shown_bytes"@) == Some(
                    #[trigger] number_json(shown),
                ) && field(cut, "event_excerpt"@) == Some(JsonView::Text(lossy_prefix(text, shown)))
            &&& text_fits(event_cut(value, text, 0, all_kept()), room) ==> {
                &&& field(cut, "event"@) == field(value, "event"@)
                &&& field(cut, "timestamp"@) == field(value, "timestamp"@)
                &&& field(cut, "request_id"@) == field(value, "request_id"@)
                &&& field(cut, "tool"@) == field(value, "tool"@)
                &&& field(cut, "status"@) == field(value, "status"@)
                &&& field(cut, "project"@) == field(value, "project"@)
            }
        }),
{
    let room = event_room(maximum);
    let cut = bounded(value, Some(text), maximum);
    let first = excerpt_bytes(room, utf8_len(text) as int);
    lemma_reduced(value, text, room, first);
    let (shown, kept) = choose|s: int, k: Seq<bool>|
        0 <= s <= first && cut == #[trigger] event_cut(value, text, s, k)
            && (text_fits(event_cut(value, text, 0, all_kept()), room) ==> k == all_kept());
    lemma_cut_fields(value, text, shown, kept);
    assert(field(cut, "shown_bytes"@) == Some(number_json(shown)));
}

/// What a cut event holds under each name.
proof fn lemma_cut_fields(value: JsonView, text: Seq<char>, shown: int, kept: Seq<bool>)
    ensures
        ({
            let cut = event_cut(value, text, shown, kept);
            &&& field(cut, "truncated"@) == Some(JsonView::Bool(true))
            &&& field(cut, "original_bytes"@) == Some(number_json(utf8_len(text) as int))
            &&& field(cut, "shown_bytes"@) == Some(number_json(shown))
            &&& field(cut, "event_excerpt"@) == Some(JsonView::Text(lossy_prefix(text, shown)))
            &&& kept == all_kept() ==> {
                &&& field(cut, "event"@) == field(value, "event"@)
                &&& field(cut, "timestamp"@) == field(value, "timestamp"@)
                &&& field(cut, "request_id"@) == field(value, "request_id"@)
                &&& field(cut, "tool"@) == field(value, "tool"@)
                &&& field(cut, "status"@) == field(value, "status"@)
                &&& field(cut, "project"@) == field(value, "project"@)
            }
        }),
{
    lemma_names_differ();
    lemma_cut_lookup(value, text, shown, kept, "truncated"@);
    lemma_cut_lookup(value, text, shown, kept, "original_bytes"@);
    lemma_cut_lookup(value, text, shown, kept, "shown_bytes"@);
    lemma_cut_lookup(value, text, shown, kept, "event_excerpt"@);
    if kept == all_kept() {
        lemma_cut_lookup(value, text, shown, kept, "event"@);
        lemma_cut_lookup(value, text, shown, kept, "timestamp"@);
        lemma_cut_lookup(value, text, shown, kept, "request_id"@);
        lemma_cut_lookup(value, text, shown, kept, "tool"@);
        lemma_cut_lookup(value, text, shown, kept, "status"@);
        lemma_cut_lookup(value, text, shown, kept, "project"@);
    }
}

proof fn lemma_names_differ()
    ensures
        "event"@.len() == 5,
        "event_excerpt"@.len() == 13,
        "original_bytes"@.len() == 14,
        "project"@.len() == 7,
        "request_id"@.len() == 10,
        "shown_bytes"@.len() == 11,
        "status"@.len() == 6,
        "tool"@.len() == 4,
        "timestamp"@.len() == 9,
        "truncated"@.len() == 9,
        "timestamp"@ != "truncated"@,
{
    reveal_strlit("event");
    reveal_strlit("event_excerpt");
    reveal_strlit("original_bytes");
    reveal_strlit("project");
    reveal_strlit("request_id");
    reveal_strlit("shown_bytes");
    reveal_strlit("status");
    reveal_strlit("timestamp");
    reveal_strlit("tool");
    reveal_strlit("truncated");
    assert("timestamp"@[1] == 'i' && "truncated"@[1] == 'r');
}

/// What a cut event holds under a name: what the first of its parts holds that has it.
proof fn lemma_cut_lookup(
    value: JsonView,
    text: Seq<char>,
    shown: int,
    kept: Seq<bool>,
    name: Seq<char>,
)
    ensures
        field(event_cut(value, text, shown, kept), name) == {
            let excerpt = seq![("event_excerpt"@, JsonView::Text(lossy_prefix(text, shown)))];
            let size = seq![("original_bytes"@, number_json(utf8_len(text) as int))];
            let bytes = seq![("shown_bytes"@, number_json(shown))];
            let mark = seq![("truncated"@, JsonView::Bool(true))];
            let r9 = part_of(carried(value, "tool", 3, kept), part_of(mark, None, name), name);
            let r8 = part_of(carried(value, "timestamp", 1, kept), r9, name);
            let r7 = part_of(carried(value, "status", 4, kept), r8, name);
            let r6 = part_of(bytes, r7, name);
            let r5 = part_of(carried(value, "request_id", 2, kept), r6, name);
            let r4 = part_of(carried(value, "project", 5, kept), r5, name);
            let r2 = part_of(excerpt, part_of(size, r4, name), name);
            part_of(carried(value, "event", 0, kept), r2, name)
        },
{
    let event = carried(value, "event", 0, kept);
    let excerpt = seq![("event_excerpt"@, JsonView::Text(lossy_prefix(text, shown)))];
    let size = seq![("original_bytes"@, number_json(utf8_len(text) as int))];
    let project = carried(value, "project", 5, kept);
    let request = carried(value, "request_id", 2, kept);
    let bytes = seq![("shown_bytes"@, number_json(shown))];
    let status = carried(value, "status", 4, kept);
    let time = carried(value, "timestamp", 1, kept);
    let tool = carried(value, "tool", 3, kept);
    let mark = seq![("truncated"@, JsonView::Bool(true))];
    let f2 = event + excerpt;
    let f3 = f2 + size;
    let f4 = f3 + project;
    let f5 = f4 + request;
    let f6 = f5 + bytes;
    let f7 = f6 + status;
    let f8 = f7 + time;
    let f9 = f8 + tool;
    assert(event_cut(value, text, shown, kept)->Object_0 =~= f9 + mark);
    lemma_field_joined(f9, mark, name);
    lemma_field_joined(f8, tool, name);
    lemma_field_joined(f7, time, name);
    lemma_field_joined(f6, status, name);
    lemma_field_joined(f5, bytes, name);
    lemma_field_joined(f4, request, name);
    lemma_field_joined(f3, project, name);
    lemma_field_joined(f2, size, name);
    lemma_field_joined(event, excerpt, name);
    lemma_part(event, name);
    lemma_part(excerpt, name);
    lemma_part(size, name);
    lemma_part(project, name);
    lemma_part(request, name);
    lemma_part(bytes, name);
    lemma_part(status, name);
    lemma_part(time, name);
    lemma_part(tool, name);
    lemma_part(mark, name);
}

proof fn lemma_part(part: Seq<(Seq<char>, JsonView)>, name: Seq<char>)
    requires
        part.len() <= 1,
    ensures
        field_from(part, name, 0) == part_of(part, None, name),
{
    reveal_with_fuel(field_from, 2);
}

/// What stands under a name in a list of at most one field, else what is behind it.
spec fn part_of(
    part: Seq<(Seq<char>, JsonView)>,
    rest: Option<JsonView>,
    name: Seq<char>,
) -> Option<JsonView> {
    if part.len() > 0 && part[0].0 == name {
        Some(part[0].1)
    } else {
        rest
    }
}

/// A name stands in the first of two lists that has it.
proof fn lemma_field_joined(
    a: Seq<(Seq<char>, JsonView)>,
    b: Seq<(Seq<char>, JsonView)>,
    name: Seq<char>,
)
    ensures
        field_from(a + b, name, 0) == if field_from(a, name, 0) is Some {
            field_from(a, name, 0)
        } else {
            field_from(b, name, 0)
        },
{
    let all = a + b;
    if exists|k: int| 0 <= k < a.len() && (#[trigger] a[k]).0 == name {
        let at = lemma_first(a, name);
        lemma_found(a, name, 0, at);
        assert(all[at] == a[at]);
        assert forall|k: int| 0 <= k < at implies (#[trigger] all[k]).0 != name by {
            assert(all[k] == a[k]);
        }
        lemma_found(all, name, 0, at);
    } else {
        lemma_missing(a, name, 0);
        if exists|k: int| 0 <= k < b.len() && (#[trigger] b[k]).0 == name {
            let at = lemma_first(b, name);
            lemma_found(b, name, 0, at);
            assert(all[a.len() + at] == b[at]);
            assert forall|k: int| 0 <= k < a.len() + at implies (#[trigger] all[k]).0 != name by {
                if k < a.len() {
                    assert(all[k] == a[k]);
                } else {
                    assert(all[k] == b[k - a.len()]);
                }
            }
            lemma_found(all, name, 0, a.len() + at);
        } else {
            lemma_missing(b, name, 0);
            assert forall|k: int| 0 <= k < all.len() implies (#[trigger] all[k]).0 != name by {
                if k < a.len() {
                    assert(all[k] == a[k]);
                } else {
                    assert(all[k] == b[k - a.len()]);
                }
            }
            lemma_missing(all, name, 0);
        }
    }
}

/// Where a name stands first.
proof fn lemma_first(fields: Seq<(Seq<char>, JsonView)>, name: Seq<char>) -> (at: int)
    requires
        exists|k: int| 0 <= k < fields.len() && (#[trigger] fields[k]).0 == name,
    ensures
        0 <= at < fields.len(),
        fields[at].0 == name,
        forall|k: int| 0 <= k < at ==> (#[trigger] fields[k]).0 != name,
    decreases fields.len(),
{
    let k = choose|k: int| 0 <= k < fields.len() && (#[trigger] fields[k]).0 == name;
    if exists|j: int| 0 <= j < k && (#[trigger] fields[j]).0 == name {
        let front = fields.take(k);
        let j = choose|j: int| 0 <= j < k && (#[trigger] fields[j]).0 == name;
        assert(front[j] == fields[j]);
        let at = lemma_first(front, name);
        assert(front[at] == fields[at]);
        assert forall|i: int| 0 <= i < at implies (#[trigger] fields[i]).0 != name by {
            assert(front[i] == fields[i]);
        }
        at
    } else {
        k
    }
}

proof fn lemma_found(fields: Seq<(Seq<char>, JsonView)>, name: Seq<char>, from: int, at: int)
    requires
        0 <= from <= at < fields.len(),
        fields[at].0 == name,
        forall|k: int| from <= k < at ==> (#[trigger] fields[k]).0 != name,
    ensures
        field_from(fields, name, from) == Some(fields[at].1),
    decreases at - from,
{
    if from < at {
        lemma_found(fields, name, from + 1, at);
    }
}

proof fn lemma_missing(fields: Seq<(Seq<char>, JsonView)>, name: Seq<char>, from: int)
    requires
        0 <= from,
        forall|k: int| from <= k < fields.len() ==> (#[trigger] fields[k]).0 != name,
    ensures
        field_from(fields, name, from) is None,
    decreases fields.len() - from,
{
    if from < fields.len() {
        lemma_missing(fields, name, from + 1);
    }
}

/// A secret that has nothing in common with the mark that stands for it is in
/// no text of what is written down.
pub proof fn scrubbed_value_is_secret_free(value: JsonView, secret: Seq<char>, limit: int)
    requires
        secret.len() > 0,
        never_overlaps(secret, "[REDACTED]"@),
        limit >= 0,
    ensures
        secret_free(scrubbed(value, secret, limit), secret),
    decreases value,
{
    reveal_strlit("[REDACTED]");
    match value {
        JsonView::Object(fields) => {
            let after = scrubbed(value, secret, limit)->Object_0;
            assert forall|i: int| 0 <= i < after.len() implies secret_free(
                (#[trigger] after[i]).1,
                secret,
            ) by {
                if sensitive_key(fields[i].0) {
                    lemma_mark_is_free(secret);
                } else {
                    scrubbed_value_is_secret_free(fields[i].1, secret, limit);
                }
            }
        },
        JsonView::Array(items) => {
            let after = scrubbed(value, secret, limit)->Array_0;
            assert forall|i: int| 0 <= i < after.len() implies secret_free(
                #[trigger] after[i],
                secret,
            ) by {
                if i < items.len() && i < SCRUB_ARRAY_ITEMS {
                    scrubbed_value_is_secret_free(items[i], secret, limit);
                } else {
                    let fields = after[i]->Object_0;
                    assert forall|k: int| 0 <= k < fields.len() implies secret_free(
                        (#[trigger] fields[k]).1,
                        secret,
                    ) by {
                        if k == 0 {
                        } else if k == 1 {
                        } else {
                            assert(k == 2);
                        }
                    }
                }
            }
        },
        JsonView::Text(text) => {
            let shown = without_secret(text, secret);
            replaced_text_is_gone(text, secret, "[REDACTED]"@);
            if utf8_len(shown) > limit {
                lemma_byte_prefix(shown, limit);
                let excerpt = byte_prefix(shown, limit);
                if contains(excerpt, secret) {
                    lemma_prefix_contains(shown, excerpt.len() as int, secret);
                }
                let fields = text_cut(shown, limit)->Object_0;
                assert forall|k: int| 0 <= k < fields.len() implies secret_free(
                    (#[trigger] fields[k]).1,
                    secret,
                ) by {
                    if k == 0 {
                    } else if k == 1 {
                    } else if k == 2 {
                    } else {
                        assert(k == 3);
                    }
                }
            }
        },
        _ => {},
    }
}

/// A field with the name of a credential is written down without its value, at
/// every depth.
pub proof fn credentials_are_hidden(
    fields: Seq<(Seq<char>, JsonView)>,
    i: int,
    secret: Seq<char>,
    limit: int,
)
    requires
        0 <= i < fields.len(),
    ensures
        ({
            let after = scrubbed(JsonView::Object(fields), secret, limit)->Object_0;
            &&& after.len() == fields.len()
            &&& after[i].0 == fields[i].0
            &&& after[i].1 == if sensitive_key(fields[i].0) {
                JsonView::Text("[REDACTED]"@)
            } else {
                scrubbed(fields[i].1, secret, limit)
            }
        }),
{
}

}
