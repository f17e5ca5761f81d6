//! What always holds of what is kept and shown of events.
use vstd::arithmetic::power2::pow2;
use vstd::prelude::*;

use crate::audit::console::{
    excerpt, half_even, head, hex_number, human_bytes, line_text, nearest_53_bits, pretty, redacted_excerpt, safe_char,
    safe_inline, string_field, tail,
};
use crate::audit::events::{
    event_file_name, event_name, field_place, file_cut, file_line, filed_event, name_end, object_with,
    older_copy, part_start, queue_share, queued_event, stem_len, summary_of, with_default,
};
use crate::audit::line::{
    error_text, generic_payload, line_chars, lines_fitting, plan_body, plan_line, plan_lines, plan_row_text,
    plan_text, project_name, status_color, step_width, PlanLineView,
};
use crate::audit::logger::{
    activity_in, elapsed, notes_activity, running_json, running_list, running_of, runs_in,
    ActivityView, AuditView, RunningView,
};
use crate::audit::queue::{offered, power_of_two, EventQueue};
use crate::audit::redact::{
    all_kept, bounded, chosen_fields, event_cut, items_left_out, names_credential, normalized,
    number_json, scrubbed, sensitive_key, text_fits,
    sensitive_names, sensitive_words,
    without_secret,
};
use crate::digest::hex_char;
use crate::audit::redact_laws::{scrubbed_value_is_secret_free, secret_free};
use crate::json::{field, field_from, json_text, JsonView, NumberView};
use crate::search::{contains, ends_with, never_overlaps, split, stands_at, starts_with};
use crate::text::{byte_prefix, control, decimal, lower_char, lowered, utf8_len};
use crate::text_laws::{
    nothing_is_replaced_without_a_pattern, one_character_is_replaced_in_place,
    prefix_is_the_longest,
};

verus! {

/// A name in small letters with underscores for its dashes.
pub open spec fn plain(key: Seq<char>) -> Seq<char> {
    key.map_values(
        |c: char|
            if c == '-' {
                '_'
            } else {
                lower_char(c)
            },
    )
}

/// A word that makes a name a credential's, as one of its parts.
pub open spec fn secret_word(word: Seq<char>) -> bool {
    word == "secret"@ || word == "token"@ || word == "password"@ || word == "passwd"@ || word
        == "credential"@ || word == "credentials"@
}

/// A name of a credential.
pub open spec fn secret_name(name: Seq<char>) -> bool {
    name == "authorization"@ || name == "cookie"@ || name == "set_cookie"@ || name == "password"@
        || name == "passwd"@ || name == "secret"@ || name == "token"@ || name == "access_token"@
        || name == "refresh_token"@ || name == "api_key"@ || name == "apikey"@ || name
        == "private_key"@ || name == "access_key"@ || name == "secret_access_key"@ || name
        == "mcp_auth_token"@
}

/// A field holds a credential exactly if its name, in small letters and with
/// underscores for dashes, has a part between underscores that says so, or is or ends in
/// the name of one, or names who is asking.
#[verifier::rlimit(40)]
pub proof fn credentials_are_told_by_their_names(key: Seq<char>)
    ensures
        sensitive_key(key) <==> {
            ||| lowered(key) == "openai/subject"@
            ||| lowered(key) == "openai/session"@
            ||| lowered(key) == "mcp-session-id"@
            ||| exists|i: int|
                0 <= i < split(plain(key), '_').len() && secret_word(
                    #[trigger] split(plain(key), '_')[i],
                )
            ||| secret_name(plain(key))
            ||| exists|at: int|
                0 <= at < plain(key).len() && plain(key)[at] == '_' && secret_name(
                    #[trigger] plain(key).skip(at + 1),
                )
        },
{
    lemma_normalized(key);
    let name = plain(key);
    let parts = split(name, '_');
    let words = sensitive_words();
    let names = sensitive_names();
    assert forall|word: Seq<char>| #[trigger] words.contains(word) <==> secret_word(word) by {
        assert(words[0] == "secret"@ && words[1] == "token"@ && words[2] == "password"@ && words[3]
            == "passwd"@ && words[4] == "credential"@ && words[5] == "credentials"@);
    }
    lemma_names();
    if exists|i: int| 0 <= i < names.len() && names_credential(name, #[trigger] names[i]) {
        let i = choose|i: int| 0 <= i < names.len() && names_credential(name, #[trigger] names[i]);
        assert(secret_name(names[i]));
        if name != names[i] {
            lemma_ending(name, names[i]);
            let at = name.len() - names[i].len() - 1;
            assert(name.skip(at + 1) == names[i]);
        }
    }
    if secret_name(name) {
        let i = choose|i: int| 0 <= i < names.len() && #[trigger] names[i] == name;
        assert(names_credential(name, names[i]));
    }
    if exists|at: int|
        0 <= at < name.len() && name[at] == '_' && secret_name(#[trigger] name.skip(at + 1)) {
        let at = choose|at: int|
            0 <= at < name.len() && name[at] == '_' && secret_name(#[trigger] name.skip(at + 1));
        let i = choose|i: int| 0 <= i < names.len() && #[trigger] names[i] == name.skip(at + 1);
        reveal_strlit("_");
        let ending = "_"@ + names[i];
        assert(name.subrange(name.len() - ending.len(), name.len() as int) =~= ending);
        assert(names_credential(name, names[i]));
    }
}

proof fn lemma_normalized(key: Seq<char>)
    ensures
        normalized(key) == plain(key),
{
    reveal_strlit("-");
    reveal_strlit("_");
    assert("-"@ =~= seq!['-']);
    assert("_"@ =~= seq!['_']);
    one_character_is_replaced_in_place(lowered(key), '-', '_');
    assert(normalized(key) =~= plain(key));
}

proof fn lemma_ending(name: Seq<char>, credential: Seq<char>)
    requires
        ends_with(name, "_"@ + credential),
    ensures
        name.len() >= credential.len() + 1,
        name[name.len() - credential.len() - 1] == '_',
        name.skip(name.len() - credential.len()) == credential,
{
    reveal_strlit("_");
    let ending = "_"@ + credential;
    let last = name.subrange(name.len() - ending.len(), name.len() as int);
    assert(last == ending);
    assert(last[0] == '_');
    assert forall|i: int| 0 <= i < credential.len() implies name.skip(
        name.len() - credential.len(),
    )[i] == credential[i] by {
        assert(last[i + 1] == ending[i + 1]);
    }
    assert(name.skip(name.len() - credential.len()) =~= credential);
}

proof fn lemma_names()
    ensures
        forall|i: int|
            0 <= i < sensitive_names().len() ==> secret_name(#[trigger] sensitive_names()[i]),
        forall|name: Seq<char>| #[trigger]
            secret_name(name) ==> exists|i: int|
                0 <= i < sensitive_names().len() && #[trigger] sensitive_names()[i] == name,
{
    let all = sensitive_names();
    assert(all[0] == "authorization"@ && all[1] == "cookie"@ && all[2] == "set_cookie"@ && all[3]
        == "password"@ && all[4] == "passwd"@ && all[5] == "secret"@ && all[6] == "token"@ && all[7]
        == "access_token"@ && all[8] == "refresh_token"@ && all[9] == "api_key"@ && all[10]
        == "apikey"@ && all[11] == "private_key"@ && all[12] == "access_key"@ && all[13]
        == "secret_access_key"@ && all[14] == "mcp_auth_token"@);
    assert(all.len() == 15);
}

/// What holds no secret and is not too long is kept as it is; so are numbers, truth
/// values and nulls.
pub proof fn harmless_values_are_kept(value: JsonView, secret: Seq<char>, limit: int)
    ensures
        value is Text && !contains(value->Text_0, secret) && utf8_len(value->Text_0) <= limit
            ==> scrubbed(value, secret, limit) == value,
        value is Number || value is Bool || value is Null ==> scrubbed(value, secret, limit)
            == value && pretty(value, secret) == value,
        value is Text && !contains(value->Text_0, secret) && value->Text_0.len() <= 500 ==> pretty(
            value,
            secret,
        ) == value,
{
    if value is Text && !contains(value->Text_0, secret) {
        nothing_is_replaced_without_a_pattern(value->Text_0, secret, "[REDACTED]"@);
    }
}

/// A text that is too long is shown by its longest start that fits, with its size and
/// the size of what is shown.
pub proof fn long_text_is_shown_by_its_start(text: Seq<char>, secret: Seq<char>, limit: int)
    requires
        !contains(text, secret),
        utf8_len(text) > limit >= 0,
    ensures
        ({
            let cut = scrubbed(JsonView::Text(text), secret, limit);
            exists|n: int|
                0 <= n < text.len() && utf8_len(#[trigger] text.take(n)) <= limit && utf8_len(
                    text.take(n + 1),
                ) > limit && cut == JsonView::Object(
                    seq![
                        ("excerpt"@, JsonView::Text(text.take(n))),
                        (
                            "original_bytes"@,
                            JsonView::Number(NumberView::Unsigned(utf8_len(text) as u64)),
                        ),
                        (
                            "shown_bytes"@,
                            JsonView::Number(NumberView::Unsigned(utf8_len(text.take(n)) as u64)),
                        ),
                        ("truncated"@, JsonView::Bool(true)),
                    ],
                )
        }),
{
    nothing_is_replaced_without_a_pattern(text, secret, "[REDACTED]"@);
    prefix_is_the_longest(text, limit);
    let n = byte_prefix(text, limit).len() as int;
    assert(n < text.len()) by {
        assert(text.take(text.len() as int) =~= text);
    }
    assert(utf8_len(text.take(n)) <= limit);
}

/// Of an array the first 1024 items are kept, each without its secrets and in its place;
/// on a console it is 128. Where more are left out, one item says how many there were.
pub proof fn long_arrays_are_cut(items: Seq<JsonView>, secret: Seq<char>, limit: int)
    ensures
        ({
            let kept = scrubbed(JsonView::Array(items), secret, limit);
            let n: int = if items.len() <= 1024 {
                items.len() as int
            } else {
                1024
            };
            &&& kept is Array
            &&& kept->Array_0.len() == if items.len() > 1024 {
                1025int
            } else {
                items.len() as int
            }
            &&& forall|i: int|
                0 <= i < n ==> #[trigger] kept->Array_0[i] == scrubbed(items[i], secret, limit)
            &&& items.len() > 1024 ==> kept->Array_0[1024] == items_left_out(
                items.len() as int,
                1024,
            )
        }),
        ({
            let kept = pretty(JsonView::Array(items), secret);
            let n: int = if items.len() <= 128 {
                items.len() as int
            } else {
                128
            };
            &&& kept is Array
            &&& kept->Array_0.len() == if items.len() > 128 {
                129int
            } else {
                items.len() as int
            }
            &&& forall|i: int| 0 <= i < n ==> #[trigger] kept->Array_0[i] == pretty(items[i], secret)
            &&& items.len() > 128 ==> kept->Array_0[128] == items_left_out(items.len() as int, 128)
        }),
{
}

/// An object keeps the names of its fields, in their order; a credential is not shown,
/// on a console neither.
pub proof fn fields_keep_their_names(
    fields: Seq<(Seq<char>, JsonView)>,
    i: int,
    secret: Seq<char>,
    limit: int,
)
    requires
        0 <= i < fields.len(),
    ensures
        ({
            let kept = scrubbed(JsonView::Object(fields), secret, limit);
            let shown = pretty(JsonView::Object(fields), secret);
            &&& kept is Object && kept->Object_0.len() == fields.len()
            &&& shown is Object && shown->Object_0.len() == fields.len()
            &&& kept->Object_0[i].0 == fields[i].0 && shown->Object_0[i].0 == fields[i].0
            &&& sensitive_key(fields[i].0) ==> kept->Object_0[i].1 == JsonView::Text("[REDACTED]"@)
                && shown->Object_0[i].1 == JsonView::Text("[REDACTED]"@)
            &&& !sensitive_key(fields[i].0) ==> kept->Object_0[i].1 == scrubbed(
                fields[i].1,
                secret,
                limit,
            ) && shown->Object_0[i].1 == pretty(fields[i].1, secret)
        }),
{
}

/// An event whose text fits is kept as it is; the room is never under a kibibyte. One
/// that has no text is an error.
pub proof fn small_event_is_kept(value: JsonView, text: Seq<char>, maximum: int)
    ensures
        utf8_len(text) <= maximum || utf8_len(text) <= 1024 ==> bounded(value, Some(text), maximum)
            == value,
        bounded(value, None, maximum) == JsonView::Object(
            seq![("event"@, JsonView::Text("serialization_error"@))],
        ),
{
}

proof fn lemma_hex_number(n: nat)
    ensures
        forall|i: int| 0 <= i < hex_number(n).len() ==> !control(#[trigger] hex_number(n)[i]),
    decreases n,
{
    let text = hex_number(n);
    if n >= 16 {
        let front = hex_number(n / 16);
        lemma_hex_number(n / 16);
        lemma_hex_digit((n % 16) as int);
        assert forall|i: int| 0 <= i < text.len() implies !control(#[trigger] text[i]) by {
            if i < front.len() {
                assert(text[i] == front[i]);
            }
        }
    } else {
        lemma_hex_digit(n as int);
    }
}

proof fn lemma_hex_digit(d: int)
    requires
        0 <= d < 16,
    ensures
        !control(hex_char(d)),
{
    if d < 10 {
        assert(48 <= ('0' as int + d) < 58);
    } else {
        assert(97 <= ('a' as int + d - 10) < 103);
    }
}

proof fn lemma_safe_char(c: char)
    ensures
        forall|i: int| 0 <= i < safe_char(c).len() ==> !control(#[trigger] safe_char(c)[i]),
        !control(c) ==> safe_char(c) == seq![c],
{
    reveal_strlit("\\n");
    reveal_strlit("\\r");
    reveal_strlit("\\t");
    reveal_strlit("\\0");
    reveal_strlit("\\x1b");
    reveal_strlit("\\u{");
    reveal_strlit("}");
    lemma_hex_number((c as u32) as nat);
}

/// A line never holds a control character, and characters that are none stay as they
/// are, in their order.
pub proof fn control_characters_are_written_out(a: Seq<char>, b: Seq<char>)
    ensures
        safe_inline(a + b) == safe_inline(a) + safe_inline(b),
        forall|i: int| 0 <= i < safe_inline(b).len() ==> !control(#[trigger] safe_inline(b)[i]),
        (forall|i: int| 0 <= i < b.len() ==> !control(#[trigger] b[i])) ==> safe_inline(b) == b,
        safe_inline(seq!['\n']) == "\\n"@,
        safe_inline(seq!['\r']) == "\\r"@,
        safe_inline(seq!['\t']) == "\\t"@,
        safe_inline(seq!['\0']) == "\\0"@,
        safe_inline(seq!['\u{1b}']) == "\\x1b"@,
    decreases b.len(),
{
    assert(safe_inline(Seq::<char>::empty()) =~= Seq::<char>::empty());
    lemma_alone('\n');
    lemma_alone('\r');
    lemma_alone('\t');
    lemma_alone('\0');
    lemma_alone('\u{1b}');
    if b.len() == 0 {
        assert(a + b =~= a);
        assert(safe_inline(a) + safe_inline(b) =~= safe_inline(a));
        assert(safe_inline(b) =~= b);
    } else {
        let rest = b.drop_last();
        control_characters_are_written_out(a, rest);
        assert((a + b).drop_last() =~= a + rest);
        assert(safe_inline(a + b) =~= safe_inline(a) + safe_inline(b));
        lemma_safe_char(b.last());
        assert forall|i: int| 0 <= i < safe_inline(b).len() implies !control(
            #[trigger] safe_inline(b)[i],
        ) by {
            if i < safe_inline(rest).len() {
                assert(safe_inline(b)[i] == safe_inline(rest)[i]);
            } else {
                assert(safe_inline(b)[i] == safe_char(b.last())[i - safe_inline(rest).len()]);
            }
        }
        if forall|i: int| 0 <= i < b.len() ==> !control(#[trigger] b[i]) {
            assert forall|i: int| 0 <= i < rest.len() implies !control(#[trigger] rest[i]) by {
                assert(rest[i] == b[i]);
            }
            assert(!control(b[b.len() - 1]));
            assert(safe_inline(b) =~= b);
        }
    }
}

proof fn lemma_alone(c: char)
    ensures
        safe_inline(seq![c]) == safe_char(c),
{
    assert(seq![c].drop_last() =~= Seq::<char>::empty());
    assert(safe_inline(Seq::<char>::empty()) =~= Seq::<char>::empty());
    assert(safe_inline(seq![c]) =~= safe_char(c));
}

/// Of a text of more than 500 characters the first and the last 250 are shown.
pub proof fn long_text_is_shown_by_its_edges(text: Seq<char>)
    ensures
        text.len() <= 500 ==> excerpt(text) == text,
        text.len() > 500 ==> excerpt(text) == text.take(250) + "..."@ + text.skip(text.len() - 250),
{
}

/// What the console shows on one line of a text that fits holds no control character and,
/// where the text has none, is the text.
pub proof fn line_shows_the_text(text: Seq<char>)
    requires
        text.len() <= 500,
        forall|i: int| 0 <= i < text.len() ==> !control(#[trigger] text[i]),
    ensures
        line_text(text) == text,
{
    control_characters_are_written_out(Seq::empty(), text);
}

proof fn lemma_exact(n: nat)
    requires
        n < 0x20_0000_0000_0000,
    ensures
        nearest_53_bits(n, 1) == n,
{
    assert(n / 1 == n && n % 1 == 0);
}

proof fn lemma_half_even(n: nat, d: nat)
    requires
        d > 0,
    ensures
        2 * (half_even(n, d) * d - n) <= d,
        2 * (n - half_even(n, d) * d) <= d,
{
    vstd::arithmetic::div_mod::lemma_fundamental_div_mod(n as int, d as int);
    vstd::arithmetic::div_mod::lemma_mod_bound(n as int, d as int);
    let q = n / d;
    assert((q + 1) * d == q * d + d) by (nonlinear_arith);
    assert(d * q == q * d) by (nonlinear_arith);
}

/// The text is a number of tenths of the unit that is nearest to the bytes.
pub open spec fn nearest_tenths(text: Seq<char>, bytes: u64, size: int, unit: &str) -> bool {
    exists|tenths: nat|
        {
            &&& text == #[trigger] decimal(tenths / 10) + "."@ + decimal(tenths % 10) + unit@
            &&& -size <= 2 * (tenths * size - 10 * bytes) <= size
        }
}

/// A size is shown in bytes below a kibibyte, and else in the largest of KiB, MiB and GiB
/// that it fills, to the nearest tenth.
#[verifier::rlimit(40)]
pub proof fn sizes_are_shown_in_units(bytes: u64)
    requires
        bytes < 0x20_0000_0000_0000,
    ensures
        bytes < 1024 ==> human_bytes(bytes) == decimal(bytes as nat) + " B"@,
        1024 <= bytes < 1_048_576 ==> nearest_tenths(human_bytes(bytes), bytes, 1024, " KiB"),
        1_048_576 <= bytes < 1_073_741_824 ==> nearest_tenths(
            human_bytes(bytes),
            bytes,
            1_048_576,
            " MiB",
        ),
        1_073_741_824 <= bytes ==> nearest_tenths(
            human_bytes(bytes),
            bytes,
            1_073_741_824,
            " GiB",
        ),
{
    lemma_exact(bytes as nat);
    let n = 10 * bytes as nat;
    if 1_073_741_824 <= bytes {
        lemma_half_even(n, 1_073_741_824);
        let tenths = half_even(n, 1_073_741_824);
        assert(human_bytes(bytes) == decimal(tenths / 10) + "."@ + decimal(tenths % 10)
            + " GiB"@);
        assert(nearest_tenths(human_bytes(bytes), bytes, 1_073_741_824, " GiB"));
    } else if 1_048_576 <= bytes {
        lemma_half_even(n, 1_048_576);
        let tenths = half_even(n, 1_048_576);
        assert(human_bytes(bytes) == decimal(tenths / 10) + "."@ + decimal(tenths % 10)
            + " MiB"@);
        assert(nearest_tenths(human_bytes(bytes), bytes, 1_048_576, " MiB"));
    } else if 1024 <= bytes {
        lemma_half_even(n, 1024);
        let tenths = half_even(n, 1024);
        assert(human_bytes(bytes) == decimal(tenths / 10) + "."@ + decimal(tenths % 10)
            + " KiB"@);
        assert(nearest_tenths(human_bytes(bytes), bytes, 1024, " KiB"));
    }
}

/// An event goes to the queue exactly if the queue is open, has a place and has room for
/// it; it then takes them, and no event is missing any more. Else it is dropped and
/// counted, and nothing else changes.
pub proof fn event_is_queued_or_counted(queue: EventQueue, entry: JsonView, share: int)
    requires
        0 <= share,
        queue.dropped_pending < u64::MAX,
        queue.dropped_total < u64::MAX,
    ensures
        ({
            let (after, done) = offered(queue, entry, share);
            let fits = queue.open && queue.waiting < queue.capacity && share <= queue.room;
            &&& fits ==> {
                &&& done.sent == seq![(entry, share)] && done.warning is None
                &&& after.waiting == queue.waiting + 1
                &&& after.room == queue.room - share
                &&& after.dropped_pending == 0
                &&& after.dropped_total == queue.dropped_total
            }
            &&& !fits ==> {
                &&& done.sent.len() == 0
                &&& after.waiting == queue.waiting && after.room == queue.room
                &&& after.dropped_pending == queue.dropped_pending + 1
                &&& after.dropped_total == queue.dropped_total + 1
                &&& done.warning is Some <==> exists|k: nat|
                    queue.dropped_pending + 1 == #[trigger] pow2(k)
                &&& done.warning is Some ==> done.warning == Some(
                    (queue.dropped_pending + 1) as u64,
                )
            }
            &&& after.capacity == queue.capacity && after.maximum == queue.maximum && after.open
                == queue.open
        }),
{
    lemma_power_of_two((queue.dropped_pending + 1) as nat);
}

proof fn lemma_power_of_two(n: nat)
    ensures
        power_of_two(n) <==> exists|k: nat| n == #[trigger] pow2(k),
    decreases n,
{
    vstd::arithmetic::power2::lemma2_to64();
    if n == 1 {
        assert(n == pow2(0));
    } else if n > 1 {
        if n % 2 == 0 {
            lemma_power_of_two(n / 2);
            if power_of_two(n / 2) {
                let k = choose|k: nat| n / 2 == #[trigger] pow2(k);
                vstd::arithmetic::power2::lemma_pow2_unfold(k + 1);
                assert(n == pow2(k + 1));
            }
        }
        assert forall|k: nat| n == #[trigger] pow2(k) implies power_of_two(n) by {
            assert(k != 0);
            vstd::arithmetic::power2::lemma_pow2_unfold(k);
            let half = (k - 1) as nat;
            assert(n == 2 * pow2(half));
            assert(n / 2 == pow2(half));
        }
    } else {
        assert forall|k: nat| n == #[trigger] pow2(k) implies power_of_two(n) by {
            vstd::arithmetic::power2::lemma_pow2_pos(k);
        }
    }
}

/// What an event takes of the queue's room is the size of its text, one byte at least.
pub proof fn share_is_the_size(text: Seq<char>, limit: int)
    requires
        utf8_len(text) <= u32::MAX,
    ensures
        utf8_len(text) > 0 ==> queue_share(Some(text), limit) == utf8_len(text),
        utf8_len(text) == 0 ==> queue_share(Some(text), limit) == 1,
        1 <= limit <= u32::MAX ==> queue_share(None, limit) == limit,
{
}

/// Events of tools and processes, of tasks and of plans have files of their own.
#[verifier::rlimit(40)]
pub proof fn events_have_their_files(name: Seq<char>)
    ensures
        event_file_name("tool_call"@) == "tool-calls.log"@,
        event_file_name("tool_result"@) == "tool-calls.log"@,
        event_file_name("tool_error"@) == "tool-calls.log"@,
        event_file_name("tool_timeout"@) == "tool-calls.log"@,
        event_file_name("process_started"@) == "tool-calls.log"@,
        event_file_name("process_exited"@) == "tool-calls.log"@,
        event_file_name("process_killed"@) == "tool-calls.log"@,
        event_file_name("task_"@ + name) == "tasks.log"@,
        event_file_name("tasks_updated"@) == "tasks.log"@,
        event_file_name("plan_"@ + name) == "plans.log"@,
        event_file_name("log_"@ + name) == "rust-agent.log"@,
        event_file_name("server_"@ + name) == "rust-agent.log"@,
{
    lemma_names_of_events();
    lemma_starts("task_"@, name);
    lemma_starts("plan_"@, name);
    lemma_starts("log_"@, name);
    lemma_starts("server_"@, name);
    assert(("task_"@ + name)[1] == 'a' && ("plan_"@ + name)[1] == 'l' && ("log_"@ + name)[0]
        == 'l' && ("server_"@ + name)[0] == 's');
    assert(!starts_with("plan_"@ + name, "task_"@)) by {
        if starts_with("plan_"@ + name, "task_"@) {
            assert(("plan_"@ + name).subrange(0, 5)[0] == 't');
        }
    }
    assert(!starts_with("log_"@ + name, "task_"@) && !starts_with("log_"@ + name, "plan_"@)) by {
        if starts_with("log_"@ + name, "task_"@) {
            assert(("log_"@ + name).subrange(0, 5)[0] == 't');
        }
        if starts_with("log_"@ + name, "plan_"@) {
            assert(("log_"@ + name).subrange(0, 5)[0] == 'p');
        }
    }
    assert(!starts_with("server_"@ + name, "task_"@) && !starts_with(
        "server_"@ + name,
        "plan_"@,
    )) by {
        if starts_with("server_"@ + name, "task_"@) {
            assert(("server_"@ + name).subrange(0, 5)[0] == 't');
        }
        if starts_with("server_"@ + name, "plan_"@) {
            assert(("server_"@ + name).subrange(0, 5)[0] == 'p');
        }
    }
}

proof fn lemma_starts(prefix: Seq<char>, name: Seq<char>)
    ensures
        starts_with(prefix + name, prefix),
{
    assert((prefix + name).subrange(0, prefix.len() as int) =~= prefix);
}

proof fn lemma_names_of_events()
    ensures
        "tool_call"@[1] == 'o' && "tool_result"@[1] == 'o' && "tool_error"@[1] == 'o'
            && "tool_timeout"@[1] == 'o',
        "process_started"@[0] == 'p' && "process_started"@[1] == 'r',
        "process_exited"@[0] == 'p' && "process_exited"@[1] == 'r',
        "process_killed"@[0] == 'p' && "process_killed"@[1] == 'r',
        "tool_call"@[0] == 't' && "tool_result"@[0] == 't' && "tool_error"@[0] == 't'
            && "tool_timeout"@[0] == 't',
        "task_"@.len() == 5 && "task_"@[0] == 't' && "task_"@[1] == 'a' && "task_"@[4] == '_',
        "plan_"@.len() == 5 && "plan_"@[0] == 'p' && "plan_"@[1] == 'l',
        "tasks_updated"@.len() == 13 && "tasks_updated"@[0] == 't' && "tasks_updated"@[1] == 'a'
            && "tasks_updated"@[4] == 's',
        "log_"@.len() == 4 && "log_"@[0] == 'l',
        "server_"@.len() == 7 && "server_"@[0] == 's',
{
    reveal_strlit("tool_call");
    reveal_strlit("tool_result");
    reveal_strlit("tool_error");
    reveal_strlit("tool_timeout");
    reveal_strlit("process_started");
    reveal_strlit("process_exited");
    reveal_strlit("process_killed");
    reveal_strlit("task_");
    reveal_strlit("plan_");
    reveal_strlit("tasks_updated");
    reveal_strlit("log_");
    reveal_strlit("server_");
}

/// A line of a log ends with a line break. An event that fits is on it as it is.
pub proof fn log_lines_end(text: Seq<char>, name: Seq<char>, limit: int, now: Seq<char>)
    ensures
        file_line(text, name, limit, now).len() > 0,
        file_line(text, name, limit, now).last() == '\n',
        utf8_len(text) <= limit ==> file_line(text, name, limit, now) == text.push('\n'),
{
    reveal_strlit("\n");
    if utf8_len(text) <= limit {
        assert(text + "\n"@ =~= text.push('\n'));
    }
}

/// Of an event that does not fit, what fits beside 512 bytes for the rest is kept, and the
/// line says what it is of, how large it was, how much is kept, and when it was.
pub proof fn large_event_leaves_its_start(
    text: Seq<char>,
    name: Seq<char>,
    limit: int,
    now: Seq<char>,
)
    requires
        512 <= limit < utf8_len(text),
    ensures
        ({
            let cut = file_cut(text, name, limit, now);
            &&& field(cut, "event"@) == Some(JsonView::Text(name))
            &&& field(cut, "timestamp"@) == Some(JsonView::Text(now))
            &&& field(cut, "log_truncated"@) == Some(JsonView::Bool(true))
            &&& field(cut, "original_bytes"@) == Some(number_json(utf8_len(text) as int))
            &&& field(cut, "stored_bytes"@) == Some(number_json(limit - 512))
            &&& field(cut, "event_excerpt"@) == Some(
                JsonView::Text(crate::text::lossy_prefix(text, limit - 512)),
            )
        }),
{
    crate::audit::events::lemma_file_cut_ordered(text, name, limit, now);
    let fields = file_cut(text, name, limit, now)->Object_0;
    crate::config::laws::field_is_found_by_its_name(fields, 0, 0);
    crate::config::laws::field_is_found_by_its_name(fields, 1, 0);
    crate::config::laws::field_is_found_by_its_name(fields, 2, 0);
    crate::config::laws::field_is_found_by_its_name(fields, 3, 0);
    crate::config::laws::field_is_found_by_its_name(fields, 4, 0);
    crate::config::laws::field_is_found_by_its_name(fields, 5, 0);
}

proof fn lemma_field_place(fields: Seq<(Seq<char>, JsonView)>, name: Seq<char>)
    ensures
        0 <= field_place(fields, name) <= fields.len(),
    decreases fields.len(),
{
    if fields.len() > 0 && crate::text::text_less(fields[0].0, name) {
        lemma_field_place(fields.skip(1), name);
    }
}

proof fn lemma_found_from(fields: Seq<(Seq<char>, JsonView)>, name: Seq<char>, from: int)
    requires
        0 <= from <= fields.len(),
    ensures
        match field_from(fields, name, from) {
            Some(value) => exists|i: int|
                from <= i < fields.len() && #[trigger] fields[i] == (name, value) && forall|j: int|
                    from <= j < i ==> (#[trigger] fields[j]).0 != name,
            None => forall|i: int| from <= i < fields.len() ==> (#[trigger] fields[i]).0 != name,
        },
    decreases fields.len() - from,
{
    if from < fields.len() {
        if fields[from].0 == name {
            assert(fields[from] == (name, fields[from].1));
        } else {
            lemma_found_from(fields, name, from + 1);
            if let Some(value) = field_from(fields, name, from + 1) {
                let i = choose|i: int|
                    from + 1 <= i < fields.len() && #[trigger] fields[i] == (name, value)
                        && forall|j: int|
                        from + 1 <= j < i ==> (#[trigger] fields[j]).0 != name;
                assert(fields[i] == (name, value));
            }
        }
    }
}

/// A field that is given a default keeps its value where it has one, and has the default
/// where it had none. Every other field is as it was.
#[verifier::rlimit(40)]
pub proof fn default_is_for_what_is_missing(
    value: JsonView,
    name: Seq<char>,
    default: JsonView,
    other: Seq<char>,
)
    requires
        value is Object,
    ensures
        field(value, name) is Some ==> with_default(value, name, default) == value,
        field(value, name) is None ==> field(with_default(value, name, default), name) == Some(
            default,
        ),
        other != name ==> field(with_default(value, name, default), other) == field(value, other),
{
    let fields = value->Object_0;
    if field(value, name) is None {
        let p = field_place(fields, name);
        lemma_field_place(fields, name);
        let after = fields.insert(p, (name, default));
        lemma_found_from(fields, name, 0);
        lemma_found_from(after, name, 0);
        assert(after[p] == (name, default));
        assert forall|i: int| 0 <= i < after.len() && i != p implies (#[trigger] after[i]).0
            != name by {
            if i < p {
                assert(after[i] == fields[i]);
            } else {
                assert(after[i] == fields[i - 1]);
            }
        }
        if other != name {
            lemma_found_from(fields, other, 0);
            lemma_found_from(after, other, 0);
            lemma_same_field(fields, after, p, other);
        }
    }
}

#[verifier::rlimit(40)]
proof fn lemma_same_field(
    fields: Seq<(Seq<char>, JsonView)>,
    after: Seq<(Seq<char>, JsonView)>,
    p: int,
    other: Seq<char>,
)
    requires
        0 <= p <= fields.len(),
        after.len() == fields.len() + 1,
        after[p].0 != other,
        after == fields.insert(p, after[p]),
    ensures
        field_from(after, other, 0) == field_from(fields, other, 0),
{
    lemma_found_from(fields, other, 0);
    lemma_found_from(after, other, 0);
    if let Some(value) = field_from(fields, other, 0) {
        let i = choose|i: int|
            0 <= i < fields.len() && #[trigger] fields[i] == (other, value) && forall|j: int|
                0 <= j < i ==> (#[trigger] fields[j]).0 != other;
        let moved = if i < p {
            i
        } else {
            i + 1
        };
        assert(after[moved] == (other, value));
        let found = field_from(after, other, 0)->0;
        let k = choose|k: int|
            0 <= k < after.len() && #[trigger] after[k] == (other, found) && forall|j: int|
                0 <= j < k ==> (#[trigger] after[j]).0 != other;
        if k < moved {
            if k < p {
                assert(after[k] == fields[k]);
            } else {
                assert(k != p);
                assert(after[k] == fields[k - 1]);
            }
        }
    } else if let Some(found) = field_from(after, other, 0) {
        let k = choose|k: int|
            0 <= k < after.len() && #[trigger] after[k] == (other, found) && forall|j: int|
                0 <= j < k ==> (#[trigger] after[j]).0 != other;
        if k < p {
            assert(after[k] == fields[k]);
        } else {
            assert(after[k] == fields[k - 1]);
        }
    }
}

/// An object that is put together from fields with distinct names has each of them.
pub proof fn object_has_the_fields_it_is_made_of(fields: Seq<(Seq<char>, JsonView)>, i: int)
    requires
        0 <= i < fields.len(),
        forall|a: int, b: int|
            0 <= a < b < fields.len() ==> (#[trigger] fields[a]).0 != (#[trigger] fields[b]).0,
    ensures
        field(object_with(fields), fields[i].0) == Some(fields[i].1),
    decreases fields.len(),
{
    let rest = fields.drop_last();
    let last = fields.last();
    lemma_object_fields(rest);
    if i < rest.len() {
        assert(rest[i] == fields[i]);
        assert forall|a: int, b: int| 0 <= a < b < rest.len() implies (#[trigger] rest[a]).0 != (
        #[trigger] rest[b]).0 by {
            assert(rest[a] == fields[a] && rest[b] == fields[b]);
        }
        object_has_the_fields_it_is_made_of(rest, i);
        assert(fields[i].0 != fields[fields.len() - 1].0);
        default_is_for_what_is_missing(object_with(rest), last.0, last.1, fields[i].0);
    } else {
        default_is_for_what_is_missing(object_with(rest), last.0, last.1, last.0);
        if field(object_with(rest), last.0) is Some {
            let made = object_with(rest)->Object_0;
            lemma_found_from(made, last.0, 0);
            let value = field_from(made, last.0, 0)->0;
            let k = choose|k: int|
                0 <= k < made.len() && #[trigger] made[k] == (last.0, value) && forall|j: int|
                    0 <= j < k ==> (#[trigger] made[j]).0 != last.0;
            assert(rest.contains(made[k]));
            let x = choose|x: int| 0 <= x < rest.len() && rest[x] == made[k];
            assert(fields[x].0 != fields[fields.len() - 1].0);
        }
    }
}

proof fn lemma_object_fields(fields: Seq<(Seq<char>, JsonView)>)
    ensures
        object_with(fields) is Object,
        forall|k: int|
            0 <= k < object_with(fields)->Object_0.len() ==> fields.contains(
                #[trigger] object_with(fields)->Object_0[k],
            ),
    decreases fields.len(),
{
    if fields.len() > 0 {
        let rest = fields.drop_last();
        lemma_object_fields(rest);
        let before = object_with(rest)->Object_0;
        let after = object_with(fields)->Object_0;
        let p = field_place(before, fields.last().0);
        lemma_field_place(before, fields.last().0);
        assert forall|k: int| 0 <= k < after.len() implies fields.contains(#[trigger] after[k]) by {
            if field(object_with(rest), fields.last().0) is Some {
                assert(rest.contains(before[k]));
                let x = choose|x: int| 0 <= x < rest.len() && rest[x] == before[k];
                assert(fields[x] == after[k]);
            } else if k == p {
                assert(fields[fields.len() - 1] == after[k]);
            } else {
                let m = if k < p {
                    k
                } else {
                    k - 1
                };
                assert(after[k] == before[m]);
                assert(rest.contains(before[m]));
                let x = choose|x: int| 0 <= x < rest.len() && rest[x] == before[m];
                assert(fields[x] == after[k]);
            }
        }
    }
}

/// A running tool is known by the first 160 characters of its command, else of its path.
pub proof fn summary_is_the_command_or_the_path(
    params: JsonView,
    command: Seq<char>,
    path: Seq<char>,
)
    ensures
        field(params, "command"@) == Some(JsonView::Text(command)) && command.len() <= 160
            ==> summary_of(params) == command,
        field(params, "command"@) == Some(JsonView::Text(command)) && command.len() > 160
            ==> summary_of(params) == command.take(160),
        field(params, "command"@) is None && field(params, "path"@) == Some(JsonView::Text(path))
            && path.len() <= 160 ==> summary_of(params) == path,
        field(params, "command"@) is None && field(params, "path"@) == Some(JsonView::Text(path))
            && path.len() > 160 ==> summary_of(params) == path.take(160),
        field(params, "command"@) is None && field(params, "path"@) is None ==> summary_of(
            params,
        ).len() == 0,
{
}

/// A project is shown under its alias, else under its key; what belongs to none is global.
pub proof fn project_is_shown_by_its_name(
    event: JsonView,
    project: JsonView,
    name: Seq<char>,
    secret: Seq<char>,
)
    requires
        !contains(name, secret),
        name.len() <= 500,
        forall|i: int| 0 <= i < name.len() ==> !control(#[trigger] name[i]),
    ensures
        field(event, "project"@) == Some(project) && field(project, "alias"@) == Some(
            JsonView::Text(name),
        ) ==> project_name(event, secret) == name,
        field(event, "project"@) == Some(project) && field(project, "alias"@) == Some(
            JsonView::Null,
        ) && field(project, "effective_key"@) == Some(JsonView::Text(name)) ==> project_name(
            event,
            secret,
        ) == name,
        field(event, "project"@) is None && name == "global"@ ==> project_name(event, secret)
            == name,
{
    nothing_is_replaced_without_a_pattern(name, secret, "[REDACTED]"@);
    line_shows_the_text(name);
}

/// The line of an error is its message, behind its code where it has one.
pub proof fn error_is_shown_by_code_and_message(error: JsonView, message: Seq<char>)
    ensures
        string_field(error, "message") is None ==> error_text(error) is None,
        string_field(error, "message") == Some(message) && string_field(error, "code") is Some
            ==> error_text(error) == Some((string_field(error, "code")->0 + ": "@) + message),
        string_field(error, "message") == Some(message) && string_field(error, "code") is None
            ==> error_text(error) == Some(message),
{
    reveal_strlit("");
    assert(""@ + message =~= message);
}

/// The steps of a plan that have a text and a status are shown, in their order; of a long
/// text its edges.
pub proof fn steps_are_shown_in_order(front: Seq<JsonView>, item: JsonView)
    ensures
        plan_lines(front.push(item)) == match plan_line(item) {
            Some(row) => plan_lines(front).push(row),
            None => plan_lines(front),
        },
        plan_lines(Seq::empty()) == Seq::<PlanLineView>::empty(),
        plan_line(item) is Some <==> string_field(item, "step") is Some && string_field(
            item,
            "status",
        ) is Some,
        plan_line(item) is Some ==> {
            let step = string_field(item, "step")->0;
            let row = plan_line(item)->0;
            &&& row.status == string_field(item, "status")->0
            &&& step.len() <= 48 ==> row.step == step
            &&& step.len() > 48 ==> row.step == step.take(24) + "..."@ + step.skip(step.len() - 24)
        },
{
    assert(front.push(item).drop_last() =~= front);
}

/// The column of the steps is as wide as the longest of them.
pub proof fn column_fits_every_step(rows: Seq<PlanLineView>, i: int)
    requires
        0 <= i < rows.len(),
    ensures
        rows[i].step.len() <= step_width(rows),
        exists|k: int| 0 <= k < rows.len() && (#[trigger] rows[k]).step.len() == step_width(rows),
    decreases rows.len(),
{
    let rest = rows.drop_last();
    if rest.len() > 0 {
        let at = if i < rest.len() {
            i
        } else {
            0
        };
        column_fits_every_step(rest, at);
        assert(rest[at] == rows[at]);
        let k = choose|k: int|
            0 <= k < rest.len() && (#[trigger] rest[k]).step.len() == step_width(rest);
        assert(rows[k] == rest[k]);
        if rows.last().step.len() > step_width(rest) {
            assert(rows[rows.len() - 1].step.len() == step_width(rows));
        } else {
            assert(rows[k].step.len() == step_width(rows));
        }
    } else {
        assert(rest =~= Seq::empty());
        assert(step_width(rest) == 0);
        assert(rows[0].step.len() == step_width(rows));
    }
}

/// A step is shown behind four blanks, filled up to the width of the column, and its status
/// behind four more, in the colour of the status.
pub proof fn step_is_shown_in_a_column(row: PlanLineView, width: nat)
    requires
        row.step.len() <= width,
    ensures
        plan_row_text(row, width) == "    "@ + (row.step + crate::audit::parts::blanks(
            width - row.step.len(),
        )) + "    "@ + (status_color(row.status) + row.status + "\x1b[0m"@),
        row.status == "completed"@ ==> status_color(row.status) == "\x1b[32m"@,
        row.status == "in_progress"@ ==> status_color(row.status) == "\x1b[33m"@,
        row.status == "pending"@ ==> status_color(row.status) == "\x1b[90m"@,
        row.status != "completed"@ && row.status != "in_progress"@ && row.status != "pending"@
            ==> status_color(row.status) == "\x1b[31m"@,
{
    crate::storage::tasks::lemma_statuses_differ();
}

/// A running tool is listed by what it is known by, and for how long it has run.
pub proof fn running_tool_is_listed(tool: RunningView, now: u64)
    requires
        tool.started <= now,
    ensures
        running_json(tool, now) is Object,
        ({
            let fields = running_json(tool, now)->Object_0;
            &&& fields.contains(
                (
                    "duration_ms"@,
                    JsonView::Number(NumberView::Unsigned((now - tool.started) as u64)),
                ),
            )
            &&& fields.contains(("request_id"@, JsonView::Text(tool.request_id)))
            &&& fields.contains(("summary"@, JsonView::Text(tool.summary)))
            &&& fields.contains(("tool"@, JsonView::Text(tool.tool)))
        }),
{
    let fields = running_json(tool, now)->Object_0;
    assert(fields[0] == ("duration_ms"@, number_json(elapsed(tool.started, now) as int)));
    assert(fields[1] == ("request_id"@, JsonView::Text(tool.request_id)));
    assert(fields[2] == ("summary"@, JsonView::Text(tool.summary)));
    assert(fields[3] == ("tool"@, JsonView::Text(tool.tool)));
}

/// What the lines of a plan take, summed up: before line `i` there are `sums[i]` characters.
/// A line takes eight blanks, the width of the column and its status, and each but the
/// first a line break.
pub open spec fn line_sums(sums: Seq<int>, rows: Seq<PlanLineView>, width: nat) -> bool {
    &&& sums.len() == rows.len() + 1
    &&& sums[0] == 0
    &&& forall|i: int|
        0 <= i < rows.len() ==> sums[i + 1] == sums[i] + 8 + width + (
        #[trigger] rows[i]).status.len() + if i > 0 {
            1int
        } else {
            0int
        }
}

proof fn lemma_fitting(
    rows: Seq<PlanLineView>,
    width: nat,
    sums: Seq<int>,
    from: int,
)
    requires
        line_sums(sums, rows, width),
        0 <= from <= rows.len(),
        0 <= sums[from] <= 450,
    ensures
        ({
            let count = lines_fitting(rows, width, from, sums[from] as nat);
            &&& from <= count <= rows.len()
            &&& sums[count] <= 450
            &&& count < rows.len() ==> sums[count + 1] > 450
        }),
    decreases rows.len() - from,
{
    if from < rows.len() {
        assert(sums[from + 1] == sums[from] + line_chars(rows[from], width, from == 0));
        if sums[from + 1] <= 450 {
            lemma_fitting(rows, width, sums, from + 1);
        }
    }
}

/// Of a plan as many lines are shown as fit into 450 characters, and not fewer; behind them
/// stands how many more there are.
pub proof fn plan_is_shown_as_far_as_it_fits(rows: Seq<PlanLineView>, sums: Seq<int>)
    requires
        line_sums(sums, rows, step_width(rows)),
    ensures
        ({
            let body = plan_body(rows);
            let width = step_width(rows);
            exists|count: int|
                {
                    &&& 0 <= count <= rows.len()
                    &&& #[trigger] sums[count] <= 450
                    &&& count < rows.len() ==> sums[count + 1] > 450
                    &&& forall|i: int|
                        0 <= i < count ==> #[trigger] body[i] == plan_row_text(rows[i], width)
                    &&& count == rows.len() ==> body.len() == count
                    &&& count < rows.len() ==> body.len() == count + 1 && body[count]
                        == "    ... +"@ + decimal((rows.len() - count) as nat) + " more"@
                }
        }),
{
    let width = step_width(rows);
    lemma_fitting(rows, width, sums, 0);
    let count = lines_fitting(rows, width, 0, 0);
    let body = plan_body(rows);
    assert(sums[count] <= 450);
    assert forall|i: int| 0 <= i < count implies #[trigger] body[i] == plan_row_text(
        rows[i],
        width,
    ) by {}
}

/// A plan that is gone, and one without steps, are said to be so.
pub proof fn missing_plans_are_told(event: JsonView, plan: JsonView)
    ensures
        field(event, "plan"@) is None ==> plan_text(event) is None,
        field(event, "plan"@) == Some(JsonView::Null) ==> plan_text(event) == Some(
            "    "@ + ("\x1b[90m"@ + "plan cleared"@ + "\x1b[0m"@),
        ),
        field(event, "plan"@) == Some(plan) && plan is Object && field(plan, "items"@) == Some(
            JsonView::Array(Seq::empty()),
        ) ==> plan_text(event) == Some(
            "    "@ + ("\x1b[90m"@ + "plan empty"@ + "\x1b[0m"@),
        ),
{
}

/// An event that fits is queued with a time, and without credentials and the secret; so it
/// is written to its file.
pub proof fn queued_event_is_scrubbed(
    event: JsonView,
    now: Seq<char>,
    secret: Seq<char>,
    limit: int,
)
    requires
        secret.len() > 0,
        never_overlaps(secret, "[REDACTED]"@),
        limit >= 0,
    ensures
        ({
            let timed = with_default(event, "timestamp"@, JsonView::Text(now));
            let text = json_text(scrubbed(timed, secret, limit));
            text is Some && utf8_len(text->0) <= limit ==> queued_event(event, now, secret, limit)
                == scrubbed(timed, secret, limit) && secret_free(
                queued_event(event, now, secret, limit),
                secret,
            )
        }),
        ({
            let text = json_text(scrubbed(event, secret, limit));
            text is Some && utf8_len(text->0) <= limit ==> filed_event(event, secret, limit)
                == scrubbed(event, secret, limit) && secret_free(
                filed_event(event, secret, limit),
                secret,
            )
        }),
{
    let timed = with_default(event, "timestamp"@, JsonView::Text(now));
    scrubbed_value_is_secret_free(timed, secret, limit);
    scrubbed_value_is_secret_free(event, secret, limit);
}

/// A file of a directory with a name and an ending has its older copies beside it, under the
/// name, `log` and their number.
#[verifier::rlimit(40)]
pub proof fn older_copies_stand_beside_the_file(
    front: Seq<char>,
    stem: Seq<char>,
    ending: Seq<char>,
    n: int,
)
    requires
        stem.len() > 0,
        forall|i: int| 0 <= i < stem.len() ==> #[trigger] stem[i] != '/' && stem[i] != '.',
        ending.len() > 0,
        forall|i: int| 0 <= i < ending.len() ==> #[trigger] ending[i] != '/' && ending[i] != '.',
    ensures
        older_copy(front.push('/') + stem.push('.') + ending, '/', n) == front.push('/') + stem
            + ".log."@ + decimal(n as nat),
{
    let path = front.push('/') + stem.push('.') + ending;
    let name = stem.push('.') + ending;
    assert(path =~= front.push('/') + name);
    assert(path.last() == ending[ending.len() - 1]);
    assert(name_end(path, '/') == path.len());
    assert(path.take(path.len() as int) =~= path);
    assert forall|i: int| 0 <= i < name.len() implies #[trigger] name[i] != '/' by {
        if i < stem.len() {
            assert(name[i] == stem[i]);
        } else if i > stem.len() {
            assert(name[i] == ending[i - stem.len() - 1]);
        }
    }
    lemma_part_start(front, name);
    assert(path.skip(front.len() as int + 1) =~= name);
    lemma_stem_len(stem, ending);
    reveal_strlit(".");
    reveal_strlit("..");
    assert(name.len() >= 3);
    assert(path.take(front.len() as int + 1 + stem.len()) =~= front.push('/') + stem);
}

proof fn lemma_part_start(front: Seq<char>, name: Seq<char>)
    requires
        forall|i: int| 0 <= i < name.len() ==> #[trigger] name[i] != '/',
    ensures
        part_start(front.push('/') + name, '/') == front.len() + 1,
    decreases name.len(),
{
    let path = front.push('/') + name;
    if name.len() == 0 {
        assert(path.last() == '/');
    } else {
        assert(path.last() == name[name.len() - 1]);
        assert(path.drop_last() =~= front.push('/') + name.drop_last());
        lemma_part_start(front, name.drop_last());
    }
}

proof fn lemma_stem_len(stem: Seq<char>, ending: Seq<char>)
    requires
        stem.len() > 0,
        forall|i: int| 0 <= i < ending.len() ==> #[trigger] ending[i] != '/' && ending[i] != '.',
    ensures
        stem_len(stem.push('.') + ending) == stem.len(),
    decreases ending.len(),
{
    let name = stem.push('.') + ending;
    if ending.len() == 0 {
        assert(name.last() == '.');
    } else {
        assert(name.last() == ending[ending.len() - 1]);
        assert(name.drop_last() =~= stem.push('.') + ending.drop_last());
        lemma_stem_len(stem, ending.drop_last());
    }
}

/// The running tools of a project are listed, 256 of them at most, and all where there are
/// fewer.
pub proof fn running_tools_are_listed(
    state: AuditView,
    names: Seq<Seq<char>>,
    n: int,
    project: Seq<char>,
    now: u64,
)
    requires
        0 <= n <= names.len(),
    ensures
        ({
            let list = running_list(state, names, n, project, now);
            &&& list.len() <= 256
            &&& forall|k: int|
                0 <= k < list.len() ==> exists|i: int|
                    0 <= i < n && runs_in(state, #[trigger] names[i], project)
                        && #[trigger] list[k] == running_json(running_of(state, names[i])->0, now)
            &&& list.len() < 256 ==> forall|i: int|
                0 <= i < n && runs_in(state, #[trigger] names[i], project) ==> list.contains(
                    running_json(running_of(state, names[i])->0, now),
                )
        }),
    decreases n,
{
    if n > 0 {
        running_tools_are_listed(state, names, n - 1, project, now);
        let before = running_list(state, names, n - 1, project, now);
        let list = running_list(state, names, n, project, now);
        assert forall|k: int| 0 <= k < list.len() implies exists|i: int|
            0 <= i < n && runs_in(state, #[trigger] names[i], project) && #[trigger] list[k]
                == running_json(running_of(state, names[i])->0, now) by {
            if k < before.len() {
                assert(list[k] == before[k]);
                let i = choose|i: int|
                    0 <= i < n - 1 && runs_in(state, #[trigger] names[i], project)
                        && #[trigger] before[k] == running_json(
                        running_of(state, names[i])->0,
                        now,
                    );
                assert(runs_in(state, names[i], project));
            } else {
                assert(runs_in(state, names[n - 1], project));
            }
        }
        if list.len() < 256 {
            assert forall|i: int|
                0 <= i < n && runs_in(state, #[trigger] names[i], project) implies list.contains(
                running_json(running_of(state, names[i])->0, now),
            ) by {
                let shown = running_json(running_of(state, names[i])->0, now);
                if i < n - 1 {
                    assert(before.contains(shown));
                    let k = choose|k: int| 0 <= k < before.len() && before[k] == shown;
                    assert(list[k] == shown);
                } else {
                    assert(list[list.len() - 1] == shown);
                }
            }
        }
    }
}

/// Of a long text without the secret the console shows the first and the last 250
/// characters as they are.
pub proof fn edges_without_the_secret_are_shown(text: Seq<char>, secret: Seq<char>)
    requires
        text.len() > 500,
        !contains(text, secret),
    ensures
        redacted_excerpt(text, secret) == text.take(250) + "..."@ + text.skip(text.len() - 250),
{
    let edge = 250 + secret.len() as int;
    let first = head(text, edge);
    let last = tail(text, edge);
    reveal_strlit("...");
    assert(first =~= text.subrange(0, first.len() as int));
    assert(last =~= text.subrange(
        text.len() - last.len(),
        text.len() - last.len() + last.len(),
    ));
    lemma_part_holds_no_more(text, first, 0, secret);
    lemma_part_holds_no_more(text, last, text.len() - last.len(), secret);
    nothing_is_replaced_without_a_pattern(first, secret, "[REDACTED]"@);
    nothing_is_replaced_without_a_pattern(last, secret, "[REDACTED]"@);
    let shown = first + "..."@ + last;
    assert(without_secret(first, secret) == first);
    assert(without_secret(last, secret) == last);
    assert(shown.len() > 500);
    assert(shown.take(250) =~= text.take(250));
    assert(shown.skip(shown.len() - 250) =~= text.skip(text.len() - 250));
}

proof fn lemma_part_holds_no_more(
    text: Seq<char>,
    part: Seq<char>,
    at: int,
    pattern: Seq<char>,
)
    requires
        0 <= at,
        at + part.len() <= text.len(),
        part == text.subrange(at, at + part.len()),
        !contains(text, pattern),
    ensures
        !contains(part, pattern),
{
    if contains(part, pattern) {
        let k = choose|k: int| #[trigger] stands_at(part, pattern, k);
        assert(text.subrange(at + k, at + k + pattern.len()) =~= part.subrange(
            k,
            k + pattern.len(),
        ));
        assert(stands_at(text, pattern, at + k));
    }
}

/// An event is known by its name, and one without is an event of the server.
pub proof fn events_are_known_by_their_names(event: JsonView, name: Seq<char>)
    ensures
        field(event, "event"@) == Some(JsonView::Text(name)) ==> event_name(event) == name,
        field(event, "event"@) is None ==> event_name(event) == "daemon_event"@,
{
}

/// How much is first tried to be shown of an event that is too large: what is left beside
/// half of the room, or beside 768 bytes where that is less.
pub proof fn large_event_shows_what_fits(value: JsonView, text: Seq<char>, maximum: int)
    requires
        maximum >= 1024,
        utf8_len(text) > maximum,
    ensures
        ({
            let first = if maximum < 1536 {
                maximum - maximum / 2
            } else {
                maximum - 768
            };
            let cut = event_cut(value, text, first, all_kept());
            text_fits(cut, maximum) ==> bounded(value, Some(text), maximum) == cut
        }),
{
}

/// Where not all that tells of an event fits, it is kept in turn: each field that still
/// fits beside those before it.
pub proof fn fields_are_kept_in_turn(value: JsonView, text: Seq<char>, room: int, kept: Seq<bool>)
    requires
        kept.len() <= 6,
    ensures
        ({
            let flags = chosen_fields(value, text, room, kept);
            &&& flags.len() == 6
            &&& kept == flags.take(kept.len() as int)
            &&& forall|k: int|
                kept.len() <= k < 6 ==> #[trigger] flags[k] == text_fits(
                    event_cut(value, text, 0, flags.take(k).push(true)),
                    room,
                )
        }),
    decreases 6 - kept.len(),
{
    let flags = chosen_fields(value, text, room, kept);
    if kept.len() < 6 {
        let next = kept.push(text_fits(event_cut(value, text, 0, kept.push(true)), room));
        fields_are_kept_in_turn(value, text, room, next);
        assert(flags.take(kept.len() as int) =~= flags.take(next.len() as int).take(
            kept.len() as int,
        ));
        assert(next.take(kept.len() as int) =~= kept);
        assert(flags[kept.len() as int] == flags.take(next.len() as int)[kept.len() as int]);
    } else {
        assert(flags.take(6) =~= flags);
    }
}

/// What the console shows of a call of a tool that it does not know, and of a result:
/// the parameters as JSON, scrubbed, as far as they fit.
pub proof fn unknown_tools_are_shown_as_json(
    event: JsonView,
    key: &str,
    value: JsonView,
    secret: Seq<char>,
    limit: usize,
    text: Seq<char>,
)
    requires
        field(event, key@) == Some(value),
        json_text(scrubbed(value, secret, limit as int)) == Some(text),
        utf8_len(text) <= 4 * limit <= usize::MAX,
        text.len() <= 500,
    ensures
        generic_payload(event, key, secret, limit) == text,
{
}

/// A negative number is written behind a minus sign.
pub proof fn negative_numbers_have_a_sign(n: nat)
    ensures
        crate::text::signed_decimal(n as int) == decimal(n),
        n > 0 ==> crate::text::signed_decimal(-(n as int)) == seq!['-'] + decimal(n),
{
}

/// Of fewer than 4096 projects the activity of none is forgotten when that of one is noted,
/// and never where that project was known.
pub proof fn activity_of_others_is_kept(
    before: AuditView,
    after: AuditView,
    project: Seq<char>,
    activity: ActivityView,
    other: Seq<char>,
)
    requires
        notes_activity(before, after, project, activity),
        other != project,
        before.activity.len() < 4096 || before.activity.contains_key(project),
    ensures
        activity_in(after, project) == activity,
        activity_in(after, other) == activity_in(before, other),
{
    crate::audit::logger::activity_reads_back(activity);
}

}
