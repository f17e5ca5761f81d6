//! What of an event may be written down: no credentials, and no more than fits.
use vstd::prelude::*;
use vstd::utf8::is_ascii_chars_encode_utf8;

use crate::audit::redact_laws::lemma_event_cut_ordered;
use crate::json::{
    bounded_text, field, fields_view, flat_bound, json_text, push_field, to_text, views,
    well_ordered, JsonValue, JsonView, NumberView,
};
use crate::search::{contains, ends_with, has_suffix, replace, replaced, split, split_text, texts};
use crate::text::{
    byte_len, byte_prefix, join2, lemma_byte_prefix, lossy_prefix, lowered, opt_view, take_bytes, take_bytes_lossy,
    to_lowered, utf8_len,
};

verus! {

/// How many items of an array are kept.
pub const SCRUB_ARRAY_ITEMS: usize = 1024;

/// Words that make every name they are a part of a credential's name.
pub open spec fn sensitive_words() -> Seq<Seq<char>> {
    seq!["secret"@, "token"@, "password"@, "passwd"@, "credential"@, "credentials"@]
}

/// Names of credentials, also as the last part of a name.
pub open spec fn sensitive_names() -> Seq<Seq<char>> {
    seq![
        "authorization"@,
        "cookie"@,
        "set_cookie"@,
        "password"@,
        "passwd"@,
        "secret"@,
        "token"@,
        "access_token"@,
        "refresh_token"@,
        "api_key"@,
        "apikey"@,
        "private_key"@,
        "access_key"@,
        "secret_access_key"@,
        "mcp_auth_token"@,
    ]
}

/// A name in small letters, its parts joined by underscores.
pub open spec fn normalized(key: Seq<char>) -> Seq<char> {
    replaced(lowered(key), "-"@, "_"@)
}

/// Whether a field of this name holds a credential.
pub open spec fn sensitive_key(key: Seq<char>) -> bool {
    ||| lowered(key) == "openai/subject"@
    ||| lowered(key) == "openai/session"@
    ||| lowered(key) == "mcp-session-id"@
    ||| exists|i: int|
        0 <= i < split(normalized(key), '_').len() && sensitive_words().contains(
            #[trigger] split(normalized(key), '_')[i],
        )
    ||| exists|i: int|
        0 <= i < sensitive_names().len() && names_credential(
            normalized(key),
            #[trigger] sensitive_names()[i],
        )
}

/// `name` is a credential's name, or ends in it.
pub open spec fn names_credential(name: Seq<char>, credential: Seq<char>) -> bool {
    name == credential || ends_with(name, "_"@ + credential)
}

fn sensitive_name(i: usize) -> (name: &'static str)
    requires
        i < 15,
    ensures
        name@ == sensitive_names()[i as int],
{
    match i {
        0 => "authorization",
        1 => "cookie",
        2 => "set_cookie",
        3 => "password",
        4 => "passwd",
        5 => "secret",
        6 => "token",
        7 => "access_token",
        8 => "refresh_token",
        9 => "api_key",
        10 => "apikey",
        11 => "private_key",
        12 => "access_key",
        13 => "secret_access_key",
        _ => "mcp_auth_token",
    }
}

fn is_sensitive_word(part: &str) -> (r: bool)
    ensures
        r == sensitive_words().contains(part@),
{
    let r = part.eq("secret") || part.eq("token") || part.eq("password") || part.eq("passwd")
        || part.eq("credential") || part.eq("credentials");
    proof {
        let words = sensitive_words();
        assert(words[0] == "secret"@ && words[1] == "token"@ && words[2] == "password"@ && words[3]
            == "passwd"@ && words[4] == "credential"@ && words[5] == "credentials"@);
        assert(words.len() == 6);
    }
    r
}

pub fn is_sensitive_key(key: &str) -> (r: bool)
    ensures
        r == sensitive_key(key@),
{
    let lower = to_lowered(key);
    if lower.as_str().eq("openai/subject") || lower.as_str().eq("openai/session")
        || lower.as_str().eq("mcp-session-id") {
        return true;
    }
    let name = replace(lower.as_str(), "-", "_");
    let parts = split_text(name.as_str(), '_');
    let mut i: usize = 0;
    while i < parts.len()
        invariant
            i <= parts@.len(),
            texts(parts@) == split(normalized(key@), '_'),
            forall|j: int|
                0 <= j < i ==> !sensitive_words().contains(
                    #[trigger] split(normalized(key@), '_')[j],
                ),
        decreases parts.len() - i,
    {
        proof {
            assert(split(normalized(key@), '_')[i as int] == parts@[i as int]@);
        }
        if is_sensitive_word(parts[i].as_str()) {
            return true;
        }
        i += 1;
    }
    let mut k: usize = 0;
    while k < 15
        invariant
            k <= 15,
            name@ == normalized(key@),
            forall|j: int|
                0 <= j < k ==> !names_credential(
                    normalized(key@),
                    #[trigger] sensitive_names()[j],
                ),
        decreases 15 - k,
    {
        let credential = sensitive_name(k);
        if name.as_str().eq(credential) || has_suffix(
            name.as_str(),
            join2("_", credential).as_str(),
        ) {
            proof {
                assert(names_credential(normalized(key@), sensitive_names()[k as int]));
            }
            return true;
        }
        k += 1;
    }
    false
}

/// A text without the secret.
pub open spec fn without_secret(text: Seq<char>, secret: Seq<char>) -> Seq<char> {
    if secret.len() == 0 {
        text
    } else {
        replaced(text, secret, "[REDACTED]"@)
    }
}

pub fn hide_secret(text: &str, secret: &str) -> (r: String)
    ensures
        r@ == without_secret(text@, secret@),
{
    if secret.is_empty() {
        text.to_owned()
    } else {
        replace(text, secret, "[REDACTED]")
    }
}

pub open spec fn number_json(n: int) -> JsonView {
    JsonView::Number(NumberView::Unsigned(n as u64))
}

/// What stands for the items of an array that are left out.
pub open spec fn items_left_out(all: int, shown: int) -> JsonView {
    JsonView::Object(
        seq![
            ("original_items"@, number_json(all)),
            ("shown_items"@, number_json(shown)),
            ("truncated"@, JsonView::Bool(true)),
        ],
    )
}

/// What stands for a text that is too long.
pub open spec fn text_cut(text: Seq<char>, limit: int) -> JsonView {
    let excerpt = byte_prefix(text, limit);
    JsonView::Object(
        seq![
            ("excerpt"@, JsonView::Text(excerpt)),
            ("original_bytes"@, number_json(utf8_len(text) as int)),
            ("shown_bytes"@, number_json(utf8_len(excerpt) as int)),
            ("truncated"@, JsonView::Bool(true)),
        ],
    )
}

/// A text without the secret, cut to `limit` bytes.
pub open spec fn scrubbed_text(text: Seq<char>, secret: Seq<char>, limit: int) -> JsonView {
    let shown = without_secret(text, secret);
    if utf8_len(shown) <= limit {
        JsonView::Text(shown)
    } else {
        text_cut(shown, limit)
    }
}

/// A value without credentials and without the secret, its texts cut to `limit`
/// bytes and its arrays to their first items.
pub open spec fn scrubbed(value: JsonView, secret: Seq<char>, limit: int) -> JsonView
    decreases value,
{
    match value {
        JsonView::Object(fields) => JsonView::Object(
            Seq::new(
                fields.len(),
                |i: int|
                    if 0 <= i < fields.len() {
                        (
                            fields[i].0,
                            if sensitive_key(fields[i].0) {
                                JsonView::Text("[REDACTED]"@)
                            } else {
                                scrubbed(fields[i].1, secret, limit)
                            },
                        )
                    } else {
                        (Seq::empty(), JsonView::Null)
                    },
            ),
        ),
        JsonView::Array(items) => {
            let kept = if items.len() <= SCRUB_ARRAY_ITEMS {
                items.len()
            } else {
                SCRUB_ARRAY_ITEMS as nat
            };
            let shown = Seq::new(
                kept,
                |i: int|
                    if 0 <= i < items.len() {
                        scrubbed(items[i], secret, limit)
                    } else {
                        JsonView::Null
                    },
            );
            JsonView::Array(
                if items.len() > kept {
                    shown.push(items_left_out(items.len() as int, kept as int))
                } else {
                    shown
                },
            )
        },
        JsonView::Text(text) => scrubbed_text(text, secret, limit),
        _ => value,
    }
}

pub(crate) fn left_out_value(all: usize, shown: usize) -> (value: JsonValue)
    ensures
        value@ == items_left_out(all as int, shown as int),
{
    let mut fields: Vec<(String, JsonValue)> = Vec::new();
    push_field(&mut fields, "original_items", JsonValue::number(all as u64));
    push_field(&mut fields, "shown_items", JsonValue::number(shown as u64));
    push_field(&mut fields, "truncated", JsonValue::truth(true));
    let value = JsonValue::object(fields);
    proof {
        assert(value@->Object_0 =~= items_left_out(all as int, shown as int)->Object_0);
    }
    value
}

fn scrub_text(text: &str, secret: &str, limit: usize) -> (value: JsonValue)
    ensures
        value@ == scrubbed_text(text@, secret@, limit as int),
{
    let shown = hide_secret(text, secret);
    if byte_len(shown.as_str()) <= limit {
        return JsonValue::text(shown.as_str());
    }
    let (excerpt, bytes) = take_bytes(shown.as_str(), limit);
    let mut fields: Vec<(String, JsonValue)> = Vec::new();
    push_field(&mut fields, "excerpt", JsonValue::text(excerpt.as_str()));
    push_field(
        &mut fields,
        "original_bytes",
        JsonValue::number(byte_len(shown.as_str()) as u64),
    );
    push_field(&mut fields, "shown_bytes", JsonValue::number(bytes as u64));
    push_field(&mut fields, "truncated", JsonValue::truth(true));
    let value = JsonValue::object(fields);
    proof {
        assert(value@->Object_0 =~= text_cut(shown@, limit as int)->Object_0);
    }
    value
}

/// A value as it may be written down. See [`scrubbed`].
pub fn scrub(value: &JsonValue, secret: &str, limit: usize) -> (r: JsonValue)
    ensures
        r@ == scrubbed(value@, secret@, limit as int),
    decreases value,
{
    match value {
        JsonValue::Object(fields) => {
            let mut kept: Vec<(String, JsonValue)> = Vec::new();
            let mut i: usize = 0;
            let ghost expected = scrubbed(value@, secret@, limit as int)->Object_0;
            proof {
                assert(fields_view(kept@) =~= expected.take(0));
            }
            while i < fields.len()
                invariant
                    i <= fields@.len(),
                    *value == JsonValue::Object(*fields),
                    expected == scrubbed(value@, secret@, limit as int)->Object_0,
                    fields_view(kept@) == expected.take(i as int),
                decreases fields.len() - i,
            {
                proof {
                    assert(value->Object_0 == *fields);
                    assert(decreases_to!(value => fields@[i as int]));
                    assert(value@->Object_0[i as int] == (
                        fields@[i as int].0@,
                        fields@[i as int].1@,
                    ));
                    assert(expected.take(i + 1) =~= expected.take(i as int).push(
                        expected[i as int],
                    ));
                }
                if is_sensitive_key(fields[i].0.as_str()) {
                    push_field(&mut kept, fields[i].0.as_str(), JsonValue::text("[REDACTED]"));
                } else {
                    let shown = scrub(&fields[i].1, secret, limit);
                    push_field(&mut kept, fields[i].0.as_str(), shown);
                }
                i += 1;
            }
            proof {
                assert(expected.take(i as int) =~= expected);
            }
            JsonValue::object(kept)
        },
        JsonValue::Array(items) => {
            let count = if items.len() <= SCRUB_ARRAY_ITEMS {
                items.len()
            } else {
                SCRUB_ARRAY_ITEMS
            };
            let mut kept: Vec<JsonValue> = Vec::new();
            let mut i: usize = 0;
            let ghost expected = scrubbed(value@, secret@, limit as int)->Array_0;
            while i < count
                invariant
                    i <= count <= items@.len(),
                    count <= SCRUB_ARRAY_ITEMS,
                    count < items@.len() ==> count == SCRUB_ARRAY_ITEMS,
                    *value == JsonValue::Array(*items),
                    expected == scrubbed(value@, secret@, limit as int)->Array_0,
                    kept@.len() == i,
                    forall|j: int| 0 <= j < i ==> (#[trigger] kept@[j])@ == expected[j],
                decreases count - i,
            {
                proof {
                    assert(value->Array_0 == *items);
                    assert(decreases_to!(value => items@[i as int]));
                    assert(value@->Array_0[i as int] == items@[i as int]@);
                }
                kept.push(scrub(&items[i], secret, limit));
                i += 1;
            }
            if items.len() > count {
                kept.push(left_out_value(items.len(), count));
            }
            proof {
                assert(views(kept@) =~= expected);
            }
            JsonValue::array(kept)
        },
        JsonValue::Text(text) => scrub_text(text.as_str(), secret, limit),
        _ => value.copy(),
    }
}

/// The fields of a value that are kept when the whole is too large.
pub open spec fn kept_field(value: JsonView, name: &str) -> Seq<(Seq<char>, JsonView)> {
    match field(value, name@) {
        Some(kept) => seq![(name@, kept)],
        None => Seq::empty(),
    }
}

/// How many bytes are shown of an event that is larger than `maximum`.
pub open spec fn excerpt_bytes(maximum: int, size: int) -> int {
    let reserve = if maximum / 2 < 768 {
        maximum / 2
    } else {
        768
    };
    if maximum - reserve < size {
        maximum - reserve
    } else {
        size
    }
}

pub open spec fn event_room(maximum: int) -> int {
    if maximum < 1024 {
        1024
    } else {
        maximum
    }
}

/// Every field that tells what an event is about is carried over.
pub open spec fn all_kept() -> Seq<bool> {
    seq![true, true, true, true, true, true]
}

/// A field that is carried over, if the one of its rank is.
pub open spec fn carried(value: JsonView, name: &str, rank: int, kept: Seq<bool>) -> Seq<
    (Seq<char>, JsonView),
> {
    if rank < kept.len() && kept[rank] {
        kept_field(value, name)
    } else {
        Seq::empty()
    }
}

/// What stands for an event that is too large: what it is about, by the fields that are
/// kept, and the first `shown` bytes of its text.
pub open spec fn event_cut(
    value: JsonView,
    text: Seq<char>,
    shown: int,
    kept: Seq<bool>,
) -> JsonView {
    JsonView::Object(
        carried(value, "event", 0, kept) + seq![
            ("event_excerpt"@, JsonView::Text(lossy_prefix(text, shown))),
            ("original_bytes"@, number_json(utf8_len(text) as int)),
        ] + carried(value, "project", 5, kept) + carried(value, "request_id", 2, kept) + seq![
            ("shown_bytes"@, number_json(shown)),
        ] + carried(value, "status", 4, kept) + carried(value, "timestamp", 1, kept) + carried(
            value,
            "tool",
            3,
            kept,
        ) + seq![("truncated"@, JsonView::Bool(true))],
    )
}

/// Whether a value takes no more than `room` bytes when it is written.
pub open spec fn text_fits(value: JsonView, room: int) -> bool {
    json_text(value) is Some && utf8_len(json_text(value)->0) <= room
}

/// Which fields are kept where not all of them fit: in turn, each that still does.
pub open spec fn chosen_fields(value: JsonView, text: Seq<char>, room: int, kept: Seq<bool>) -> Seq<
    bool,
>
    decreases 6 - kept.len(),
{
    if kept.len() >= 6 {
        kept
    } else {
        chosen_fields(
            value,
            text,
            room,
            kept.push(text_fits(event_cut(value, text, 0, kept.push(true)), room)),
        )
    }
}

/// What stands for an event and fits: half of the excerpt is given up as long as it
/// takes, and then the fields that are too large.
pub open spec fn reduced(value: JsonView, text: Seq<char>, room: int, shown: int) -> JsonView
    decreases shown,
{
    let cut = event_cut(value, text, shown, all_kept());
    if text_fits(cut, room) {
        cut
    } else if shown > 0 {
        reduced(value, text, room, shown / 2)
    } else {
        event_cut(value, text, 0, chosen_fields(value, text, room, Seq::empty()))
    }
}

/// A value whose text takes no more than `maximum` bytes, or what stands for
/// it.
pub open spec fn bounded(value: JsonView, text: Option<Seq<char>>, maximum: int) -> JsonView {
    match text {
        None => JsonView::Object(seq![("event"@, JsonView::Text("serialization_error"@))]),
        Some(text) => if utf8_len(text) <= event_room(maximum) {
            value
        } else {
            reduced(
                value,
                text,
                event_room(maximum),
                excerpt_bytes(event_room(maximum), utf8_len(text) as int),
            )
        },
    }
}

fn carry_field(
    fields: &mut Vec<(String, JsonValue)>,
    value: &JsonValue,
    name: &str,
    rank: usize,
    kept: &Vec<bool>,
)
    ensures
        fields_view(final(fields)@) == fields_view(old(fields)@) + carried(
            value@,
            name,
            rank as int,
            kept@,
        ),
{
    if rank < kept.len() && kept[rank] {
        if let Some(found) = value.get(name) {
            push_field(fields, name, found.copy());
        }
    }
    proof {
        assert(fields_view(fields@) =~= fields_view(old(fields)@) + carried(
            value@,
            name,
            rank as int,
            kept@,
        ));
    }
}

fn add_field(fields: &mut Vec<(String, JsonValue)>, name: &str, value: JsonValue)
    ensures
        fields_view(final(fields)@) == fields_view(old(fields)@) + seq![(name@, value@)],
{
    push_field(fields, name, value);
    proof {
        assert(fields_view(fields@) =~= fields_view(old(fields)@) + seq![(name@, value@)]);
    }
}

/// Make up what stands for an event that is too large. See [`event_cut`].
pub fn cut_event(value: &JsonValue, text: &str, shown: usize, kept: &Vec<bool>) -> (r: JsonValue)
    ensures
        r@ == event_cut(value@, text@, shown as int, kept@),
{
    let excerpt = take_bytes_lossy(text, shown);
    let size = byte_len(text);
    let mut fields: Vec<(String, JsonValue)> = Vec::new();
    carry_field(&mut fields, value, "event", 0, kept);
    let ghost first = carried(value@, "event", 0, kept@);
    proof {
        assert(fields_view(fields@) =~= first);
    }
    add_field(&mut fields, "event_excerpt", JsonValue::text(excerpt.as_str()));
    add_field(&mut fields, "original_bytes", JsonValue::number(size as u64));
    proof {
        let one = ("event_excerpt"@, JsonView::Text(excerpt@));
        let two = ("original_bytes"@, number_json(size as int));
        assert(first + seq![one] + seq![two] =~= first + seq![one, two]);
    }
    carry_field(&mut fields, value, "project", 5, kept);
    carry_field(&mut fields, value, "request_id", 2, kept);
    add_field(&mut fields, "shown_bytes", JsonValue::number(shown as u64));
    carry_field(&mut fields, value, "status", 4, kept);
    carry_field(&mut fields, value, "timestamp", 1, kept);
    carry_field(&mut fields, value, "tool", 3, kept);
    add_field(&mut fields, "truncated", JsonValue::truth(true));
    JsonValue::object(fields)
}

/// The least that can stand for an event takes few bytes.
proof fn lemma_least_cut(value: JsonView, text: Seq<char>)
    ensures
        ({
            let fields = event_cut(value, text, 0, Seq::empty())->Object_0;
            flat_bound(fields) is Some && flat_bound(fields)->0 <= 1024
        }),
{
    reveal_strlit("event_excerpt");
    reveal_strlit("original_bytes");
    reveal_strlit("shown_bytes");
    reveal_strlit("truncated");
    is_ascii_chars_encode_utf8("event_excerpt"@);
    is_ascii_chars_encode_utf8("original_bytes"@);
    is_ascii_chars_encode_utf8("shown_bytes"@);
    is_ascii_chars_encode_utf8("truncated"@);
    lemma_byte_prefix(text, 0);
    let excerpt = lossy_prefix(text, 0);
    let whole = byte_prefix(text, 0);
    assert(utf8_len(whole) == 0);
    assert(excerpt == whole);
    let a = ("event_excerpt"@, JsonView::Text(excerpt));
    let b = ("original_bytes"@, number_json(utf8_len(text) as int));
    let c = ("shown_bytes"@, number_json(0));
    let d = ("truncated"@, JsonView::Bool(true));
    let fields = event_cut(value, text, 0, Seq::empty())->Object_0;
    assert(fields =~= seq![a, b, c, d]);
    assert(seq![a, b, c, d].drop_last() =~= seq![a, b, c]);
    assert(seq![a, b, c].drop_last() =~= seq![a, b]);
    assert(seq![a, b].drop_last() =~= seq![a]);
    assert(seq![a].drop_last() =~= Seq::<(Seq<char>, JsonView)>::empty());
    reveal_with_fuel(flat_bound, 5);
    assert(flat_bound(seq![a]) == Some((2 + 6 * 13 + 2 + 4) as nat));
    assert(flat_bound(seq![a, b]) == Some((86 + 6 * 14 + 20 + 4) as nat));
    assert(flat_bound(seq![a, b, c]) == Some((194 + 6 * 11 + 20 + 4) as nat));
    assert(flat_bound(seq![a, b, c, d]) == Some((284 + 6 * 9 + 5 + 4) as nat));
}

/// A field that is not kept might as well not be spoken of.
proof fn lemma_left_out(value: JsonView, text: Seq<char>, shown: int, kept: Seq<bool>)
    ensures
        event_cut(value, text, shown, kept.push(false)) == event_cut(value, text, shown, kept),
{
    let more = kept.push(false);
    assert(carried(value, "event", 0, more) == carried(value, "event", 0, kept));
    assert(carried(value, "timestamp", 1, more) == carried(value, "timestamp", 1, kept));
    assert(carried(value, "request_id", 2, more) == carried(value, "request_id", 2, kept));
    assert(carried(value, "tool", 3, more) == carried(value, "tool", 3, kept));
    assert(carried(value, "status", 4, more) == carried(value, "status", 4, kept));
    assert(carried(value, "project", 5, more) == carried(value, "project", 5, kept));
}

fn fits_in(value: &JsonValue, room: usize) -> (fits: bool)
    requires
        well_ordered(value@),
    ensures
        fits == text_fits(value@, room as int),
        bounded_text(json_text(value@), value@),
{
    match to_text(value) {
        Some(written) => byte_len(written.as_str()) <= room,
        None => false,
    }
}

/// Keep of the fields what fits.
fn choose_fields(value: &JsonValue, text: &str, room: usize) -> (r: JsonValue)
    requires
        well_ordered(value@),
        room >= 1024,
    ensures
        r@ == event_cut(
            value@,
            text@,
            0,
            chosen_fields(value@, text@, room as int, Seq::empty()),
        ),
        text_fits(r@, room as int),
{
    let mut kept: Vec<bool> = Vec::new();
    let mut r = cut_event(value, text, 0, &kept);
    proof {
        assert(kept@ =~= Seq::<bool>::empty());
        lemma_event_cut_ordered(value@, text@, 0, kept@);
        lemma_least_cut(value@, text@);
    }
    fits_in(&r, room);
    while kept.len() < 6
        invariant
            well_ordered(value@),
            kept@.len() <= 6,
            r@ == event_cut(value@, text@, 0, kept@),
            text_fits(r@, room as int),
            chosen_fields(value@, text@, room as int, Seq::empty()) == chosen_fields(
                value@,
                text@,
                room as int,
                kept@,
            ),
        decreases 6 - kept.len(),
    {
        let ghost before = kept@;
        kept.push(true);
        let larger = cut_event(value, text, 0, &kept);
        proof {
            lemma_event_cut_ordered(value@, text@, 0, kept@);
            lemma_left_out(value@, text@, 0, before);
        }
        if fits_in(&larger, room) {
            r = larger;
        } else {
            kept.pop();
            kept.push(false);
            proof {
                assert(kept@ =~= before.push(false));
            }
        }
    }
    r
}

/// Reduce an event until it fits.
fn reduce_event(value: &JsonValue, text: &str, room: usize, most: usize) -> (r: JsonValue)
    requires
        well_ordered(value@),
        room >= 1024,
    ensures
        r@ == reduced(value@, text@, room as int, most as int),
        text_fits(r@, room as int),
{
    let kept = vec![true, true, true, true, true, true];
    let mut shown: usize = most;
    proof {
        assert(kept@ =~= all_kept());
    }
    loop
        invariant
            well_ordered(value@),
            room >= 1024,
            kept@ == all_kept(),
            reduced(value@, text@, room as int, most as int) == reduced(
                value@,
                text@,
                room as int,
                shown as int,
            ),
        decreases shown,
    {
        let cut = cut_event(value, text, shown, &kept);
        proof {
            lemma_event_cut_ordered(value@, text@, shown as int, kept@);
        }
        if fits_in(&cut, room) {
            return cut;
        }
        if shown == 0 {
            return choose_fields(value, text, room);
        }
        shown = shown / 2;
    }
}

/// Hold a value to `maximum` bytes, given its text. See [`bounded`].
pub fn bound_serialized(value: JsonValue, text: Option<String>, maximum: usize) -> (r: JsonValue)
    requires
        well_ordered(value@),
    ensures
        r@ == bounded(value@, opt_view(text), maximum as int),
        text is Some && utf8_len(opt_view(text)->0) > event_room(maximum as int) ==> text_fits(
            r@,
            event_room(maximum as int),
        ),
{
    let room = if maximum < 1024 {
        1024
    } else {
        maximum
    };
    match text {
        None => {
            let mut fields: Vec<(String, JsonValue)> = Vec::new();
            push_field(&mut fields, "event", JsonValue::text("serialization_error"));
            let r = JsonValue::object(fields);
            proof {
                assert(r@->Object_0 =~= bounded(value@, None, maximum as int)->Object_0);
            }
            r
        },
        Some(text) => {
            let size = byte_len(text.as_str());
            if size <= room {
                return value;
            }
            let reserve: usize = if room / 2 < 768 {
                room / 2
            } else {
                768
            };
            let shown: usize = if room - reserve < size {
                room - reserve
            } else {
                size
            };
            reduce_event(&value, text.as_str(), room, shown)
        },
    }
}

/// Hold a value to `maximum` bytes, or 1024 if that is less. Limits on each text
/// alone do not bound an event of very many small values.
pub fn bound_event(value: JsonValue, maximum: usize) -> (r: JsonValue)
    requires
        well_ordered(value@),
    ensures
        r@ == bounded(value@, json_text(value@), maximum as int),
        text_fits(r@, event_room(maximum as int)),
{
    let text = to_text(&value);
    bound_serialized(value, text, maximum)
}

}
