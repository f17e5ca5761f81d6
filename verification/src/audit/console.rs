//! Texts for the operator's console: one line, printable, bounded.
use vstd::prelude::*;

use crate::audit::redact::{
    hide_secret, is_sensitive_key, items_left_out, left_out_value, sensitive_key, without_secret,
};
use crate::digest::hex_char;
use crate::json::{bool_of, field, fields_view, push_field, unsigned_of, views, JsonValue, JsonView};
use crate::search::{starts_with, texts};
use crate::text::{
    control, decimal, decimal_text, from_chars, is_control, join2, opt_view, to_chars,
};

verus! {

pub const CONSOLE_EXCERPT_CHARS: usize = 500;

pub const CONSOLE_EXCERPT_EDGE_CHARS: usize = 250;

pub const CONSOLE_PRETTY_ARRAY_ITEMS: usize = 128;

/// A text in a colour.
pub open spec fn colored(value: Seq<char>, color: Seq<char>) -> Seq<char> {
    color + value + "\x1b[0m"@
}

pub fn console_color(value: &str, color: &str) -> (r: String)
    ensures
        r@ == colored(value@, color@),
{
    let mut r = color.to_owned();
    r.append(value);
    r.append("\x1b[0m");
    r
}

/// A number in hexadecimal, without leading zeros.
pub open spec fn hex_number(n: nat) -> Seq<char>
    decreases n,
{
    if n < 16 {
        seq![hex_char(n as int)]
    } else {
        hex_number(n / 16).push(hex_char((n % 16) as int))
    }
}

fn hex_number_text(n: u32) -> (text: String)
    ensures
        text@ == hex_number(n as nat),
    decreases n,
{
    let d: u8 = (n % 16) as u8;
    let c: char = if d < 10 {
        (48u8 + d) as char
    } else {
        (87u8 + d) as char
    };
    if n < 16 {
        let mut text = String::new();
        text.push(c);
        proof {
            assert(text@ =~= seq![hex_char(n as int)]);
        }
        text
    } else {
        let mut text = hex_number_text(n / 16);
        text.push(c);
        text
    }
}

/// A character as it is shown.
pub open spec fn safe_char(c: char) -> Seq<char> {
    if c == '\n' {
        "\\n"@
    } else if c == '\r' {
        "\\r"@
    } else if c == '\t' {
        "\\t"@
    } else if c == '\0' {
        "\\0"@
    } else if c == '\u{1b}' {
        "\\x1b"@
    } else if control(c) {
        "\\u{"@ + hex_number((c as u32) as nat) + "}"@
    } else {
        seq![c]
    }
}

/// A text with its control characters written out.
pub open spec fn safe_inline(value: Seq<char>) -> Seq<char>
    decreases value.len(),
{
    if value.len() == 0 {
        Seq::empty()
    } else {
        safe_inline(value.drop_last()) + safe_char(value.last())
    }
}

pub fn console_safe_inline(value: &str) -> (r: String)
    ensures
        r@ == safe_inline(value@),
{
    let chars = to_chars(value);
    let mut r = String::new();
    let mut i: usize = 0;
    while i < chars.len()
        invariant
            i <= chars@.len(),
            chars@ == value@,
            r@ == safe_inline(value@.take(i as int)),
        decreases chars.len() - i,
    {
        let c = chars[i];
        proof {
            assert(value@.take(i + 1).drop_last() =~= value@.take(i as int));
        }
        let ghost before = r@;
        if c == '\n' {
            r.append("\\n");
        } else if c == '\r' {
            r.append("\\r");
        } else if c == '\t' {
            r.append("\\t");
        } else if c == '\0' {
            r.append("\\0");
        } else if c == '\u{1b}' {
            r.append("\\x1b");
        } else if is_control(c) {
            let mut shown = "\\u{".to_owned();
            shown.append(hex_number_text(c as u32).as_str());
            shown.append("}");
            r.append(shown.as_str());
        } else {
            r.push(c);
            proof {
                assert(r@ =~= before + seq![c]);
            }
        }
        i += 1;
    }
    proof {
        assert(value@.take(i as int) =~= value@);
    }
    r
}

/// The first `n` characters, or all there are.
pub open spec fn head(value: Seq<char>, n: int) -> Seq<char> {
    if n < value.len() {
        value.take(n)
    } else {
        value
    }
}

/// The last `n` characters, or all there are.
pub open spec fn tail(value: Seq<char>, n: int) -> Seq<char> {
    if n < value.len() {
        value.skip(value.len() - n)
    } else {
        value
    }
}

pub fn take_head(value: &str, n: usize) -> (r: String)
    ensures
        r@ == head(value@, n as int),
{
    let chars = to_chars(value);
    let end = if n < chars.len() {
        n
    } else {
        chars.len()
    };
    proof {
        assert(chars@.subrange(0, end as int) =~= head(value@, n as int));
    }
    from_chars(&chars, 0, end)
}

pub fn take_tail(value: &str, n: usize) -> (r: String)
    ensures
        r@ == tail(value@, n as int),
{
    let chars = to_chars(value);
    let start = if n < chars.len() {
        chars.len() - n
    } else {
        0
    };
    proof {
        assert(chars@.subrange(start as int, chars@.len() as int) =~= tail(value@, n as int));
    }
    from_chars(&chars, start, chars.len())
}

/// A text, or its edges where it is longer than `maximum`.
pub open spec fn excerpt_edges(value: Seq<char>, maximum: int, edge: int) -> Seq<char> {
    if value.len() <= maximum {
        value
    } else {
        head(value, edge) + "..."@ + tail(value, edge)
    }
}

pub open spec fn excerpt(value: Seq<char>) -> Seq<char> {
    excerpt_edges(value, CONSOLE_EXCERPT_CHARS as int, CONSOLE_EXCERPT_EDGE_CHARS as int)
}

fn char_count(value: &str) -> (n: usize)
    ensures
        n == value@.len(),
{
    to_chars(value).len()
}

pub fn console_excerpt_edges(value: &str, maximum: usize, edge: usize) -> (r: String)
    ensures
        r@ == excerpt_edges(value@, maximum as int, edge as int),
{
    if char_count(value) <= maximum {
        return value.to_owned();
    }
    let mut r = take_head(value, edge);
    r.append("...");
    r.append(take_tail(value, edge).as_str());
    r
}

pub fn console_excerpt(value: &str) -> (r: String)
    ensures
        r@ == excerpt(value@),
{
    console_excerpt_edges(value, CONSOLE_EXCERPT_CHARS, CONSOLE_EXCERPT_EDGE_CHARS)
}

/// An excerpt takes at most its edges and the mark between them.
pub proof fn excerpt_is_bounded(value: Seq<char>)
    ensures
        excerpt(value).len() <= 2 * CONSOLE_EXCERPT_EDGE_CHARS + 3,
        value.len() <= CONSOLE_EXCERPT_CHARS ==> excerpt(value) == value,
        value.len() > CONSOLE_EXCERPT_CHARS ==> starts_with(
            excerpt(value),
            value.take(CONSOLE_EXCERPT_EDGE_CHARS as int),
        ) && crate::search::ends_with(
            excerpt(value),
            value.skip(value.len() - CONSOLE_EXCERPT_EDGE_CHARS),
        ),
{
    reveal_strlit("...");
    if value.len() > CONSOLE_EXCERPT_CHARS {
        let shown = excerpt(value);
        let first = value.take(CONSOLE_EXCERPT_EDGE_CHARS as int);
        let last = value.skip(value.len() - CONSOLE_EXCERPT_EDGE_CHARS);
        assert(shown.subrange(0, first.len() as int) =~= first);
        assert(shown.subrange(shown.len() - last.len(), shown.len() as int) =~= last);
    }
}

/// A text for one line of the console.
pub open spec fn line_text(value: Seq<char>) -> Seq<char> {
    excerpt(safe_inline(excerpt(value)))
}

pub fn console_text(value: &str) -> (r: String)
    ensures
        r@ == line_text(value@),
{
    let bounded = console_excerpt(value);
    console_excerpt(console_safe_inline(bounded.as_str()).as_str())
}

/// A text without the secret. Of a long one only the edges are looked at, and
/// as much more as the secret takes.
pub open spec fn redacted_excerpt(value: Seq<char>, secret: Seq<char>) -> Seq<char> {
    if value.len() <= CONSOLE_EXCERPT_CHARS {
        without_secret(value, secret)
    } else {
        let edge = CONSOLE_EXCERPT_EDGE_CHARS + secret.len();
        excerpt(
            without_secret(head(value, edge), secret) + "..."@ + without_secret(
                tail(value, edge),
                secret,
            ),
        )
    }
}

pub fn console_redacted_excerpt(value: &str, secret: &str) -> (r: String)
    ensures
        r@ == redacted_excerpt(value@, secret@),
{
    if char_count(value) <= CONSOLE_EXCERPT_CHARS {
        return hide_secret(value, secret);
    }
    let edge = CONSOLE_EXCERPT_EDGE_CHARS.saturating_add(char_count(secret));
    proof {
        assert(head(value@, edge as int) == head(
            value@,
            CONSOLE_EXCERPT_EDGE_CHARS + secret@.len(),
        ));
        assert(tail(value@, edge as int) == tail(
            value@,
            CONSOLE_EXCERPT_EDGE_CHARS + secret@.len(),
        ));
    }
    let mut joined = hide_secret(take_head(value, edge).as_str(), secret);
    joined.append("...");
    joined.append(hide_secret(take_tail(value, edge).as_str(), secret).as_str());
    console_excerpt(joined.as_str())
}

/// A value for the console: no credentials, no secret, bounded texts and
/// arrays.
pub open spec fn pretty(value: JsonView, secret: Seq<char>) -> JsonView
    decreases value,
{
    match value {
        JsonView::Object(fields) => JsonView::Object(
            Seq::new(
                fields.len(),
                |i: int|
                    if 0 <= i < fields.len() {
                        (
                            fields[i].0,
                            if sensitive_key(fields[i].0) {
                                JsonView::Text("[REDACTED]"@)
                            } else {
                                pretty(fields[i].1, secret)
                            },
                        )
                    } else {
                        (Seq::empty(), JsonView::Null)
                    },
            ),
        ),
        JsonView::Array(items) => {
            let kept = if items.len() <= CONSOLE_PRETTY_ARRAY_ITEMS {
                items.len()
            } else {
                CONSOLE_PRETTY_ARRAY_ITEMS as nat
            };
            let shown = Seq::new(
                kept,
                |i: int|
                    if 0 <= i < items.len() {
                        pretty(items[i], secret)
                    } else {
                        JsonView::Null
                    },
            );
            JsonView::Array(
                if items.len() > kept {
                    shown.push(items_left_out(items.len() as int, kept as int))
                } else {
                    shown
                },
            )
        },
        JsonView::Text(text) => JsonView::Text(redacted_excerpt(text, secret)),
        _ => value,
    }
}

pub fn console_scrub_pretty(value: &JsonValue, secret: &str) -> (r: JsonValue)
    ensures
        r@ == pretty(value@, secret@),
    decreases value,
{
    match value {
        JsonValue::Object(fields) => {
            let mut kept: Vec<(String, JsonValue)> = Vec::new();
            let mut i: usize = 0;
            let ghost expected = pretty(value@, secret@)->Object_0;
            proof {
                assert(fields_view(kept@) =~= expected.take(0));
            }
            while i < fields.len()
                invariant
                    i <= fields@.len(),
                    *value == JsonValue::Object(*fields),
                    expected == pretty(value@, secret@)->Object_0,
                    fields_view(kept@) == expected.take(i as int),
                decreases fields.len() - i,
            {
                proof {
                    assert(value->Object_0 == *fields);
                    assert(decreases_to!(value => fields@[i as int]));
                    assert(value@->Object_0[i as int] == (
                        fields@[i as int].0@,
                        fields@[i as int].1@,
                    ));
                    assert(expected.take(i + 1) =~= expected.take(i as int).push(
                        expected[i as int],
                    ));
                }
                if is_sensitive_key(fields[i].0.as_str()) {
                    push_field(&mut kept, fields[i].0.as_str(), JsonValue::text("[REDACTED]"));
                } else {
                    let shown = console_scrub_pretty(&fields[i].1, secret);
                    push_field(&mut kept, fields[i].0.as_str(), shown);
                }
                i += 1;
            }
            proof {
                assert(expected.take(i as int) =~= expected);
            }
            JsonValue::object(kept)
        },
        JsonValue::Array(items) => {
            let count = if items.len() <= CONSOLE_PRETTY_ARRAY_ITEMS {
                items.len()
            } else {
                CONSOLE_PRETTY_ARRAY_ITEMS
            };
            let mut kept: Vec<JsonValue> = Vec::new();
            let mut i: usize = 0;
            let ghost expected = pretty(value@, secret@)->Array_0;
            while i < count
                invariant
                    i <= count <= items@.len(),
                    count <= CONSOLE_PRETTY_ARRAY_ITEMS,
                    count < items@.len() ==> count == CONSOLE_PRETTY_ARRAY_ITEMS,
                    *value == JsonValue::Array(*items),
                    expected == pretty(value@, secret@)->Array_0,
                    kept@.len() == i,
                    forall|j: int| 0 <= j < i ==> (#[trigger] kept@[j])@ == expected[j],
                decreases count - i,
            {
                proof {
                    assert(value->Array_0 == *items);
                    assert(decreases_to!(value => items@[i as int]));
                    assert(value@->Array_0[i as int] == items@[i as int]@);
                }
                kept.push(console_scrub_pretty(&items[i], secret));
                i += 1;
            }
            if items.len() > count {
                kept.push(left_out_value(items.len(), count));
            }
            proof {
                assert(views(kept@) =~= expected);
            }
            JsonValue::array(kept)
        },
        JsonValue::Text(text) => JsonValue::text(
            console_redacted_excerpt(text.as_str(), secret).as_str(),
        ),
        _ => value.copy(),
    }
}

/// A text field of an object, for one line.
pub open spec fn string_field(value: JsonView, key: &str) -> Option<Seq<char>> {
    match field(value, key@) {
        Some(JsonView::Text(text)) => Some(line_text(text)),
        _ => None,
    }
}

pub open spec fn u64_field(value: JsonView, key: &str) -> Option<u64> {
    match field(value, key@) {
        Some(found) => unsigned_of(found),
        None => None,
    }
}

pub open spec fn bool_field(value: JsonView, key: &str) -> Option<bool> {
    match field(value, key@) {
        Some(found) => bool_of(found),
        None => None,
    }
}

pub fn console_string_field(value: &JsonValue, key: &str) -> (r: Option<String>)
    ensures
        opt_view(r) == string_field(value@, key),
{
    match value.get(key) {
        Some(found) => match found.as_str() {
            Some(text) => Some(console_text(text)),
            None => None,
        },
        None => None,
    }
}

/// A text field that may be absent or null.
pub fn console_optional_string_field(value: &JsonValue, key: &str) -> (r: Option<String>)
    ensures
        opt_view(r) == string_field(value@, key),
{
    console_string_field(value, key)
}

pub fn console_u64_field(value: &JsonValue, key: &str) -> (r: Option<u64>)
    ensures
        r == u64_field(value@, key),
{
    match value.get(key) {
        Some(found) => found.as_u64(),
        None => None,
    }
}

pub fn console_bool_field(value: &JsonValue, key: &str) -> (r: Option<bool>)
    ensures
        r == bool_field(value@, key),
{
    match value.get(key) {
        Some(found) => found.as_bool(),
        None => None,
    }
}

/// The nearest number with at most 53 binary digits, of two equally near ones
/// the one whose last digit is 0.
pub open spec fn nearest_53_bits(n: nat, step: nat) -> nat
    decreases if step < 2048 { 2048 - step } else { 0 },
{
    if step == 0 || step >= 2048 || n < 0x20_0000_0000_0000 * step {
        half_even(n, step) * step
    } else {
        nearest_53_bits(n, 2 * step)
    }
}

/// `n / d` to the nearest integer; of two equally near ones the even one.
pub open spec fn half_even(n: nat, d: nat) -> nat {
    let q = n / d;
    let r = n % d;
    if 2 * r > d || (2 * r == d && q % 2 == 1) {
        q + 1
    } else {
        q
    }
}

/// A number of tenths with one decimal.
pub open spec fn one_decimal(tenths: nat) -> Seq<char> {
    decimal(tenths / 10) + "."@ + decimal(tenths % 10)
}

/// A number of bytes in the largest unit that it fills, with one decimal.
pub open spec fn human_bytes(bytes: u64) -> Seq<char> {
    let n = nearest_53_bits(bytes as nat, 1);
    if bytes >= 0x4000_0000 {
        one_decimal(half_even(10 * n, 0x4000_0000)) + " GiB"@
    } else if bytes >= 0x10_0000 {
        one_decimal(half_even(10 * n, 0x10_0000)) + " MiB"@
    } else if bytes >= 0x400 {
        one_decimal(half_even(10 * n, 0x400)) + " KiB"@
    } else {
        decimal(bytes as nat) + " B"@
    }
}

fn round_half_even(n: u128, d: u128) -> (r: u128)
    requires
        0 < d < 0x1_0000_0000_0000,
        n < 0x1_0000_0000_0000_0000_0000,
    ensures
        r == half_even(n as nat, d as nat),
        r <= n + 1,
{
    let q = n / d;
    let r = n % d;
    proof {
        assert(q <= n) by (nonlinear_arith)
            requires
                q == n / d,
                d > 0,
                n >= 0,
        ;
        assert(r < d);
    }
    if 2 * r > d || (2 * r == d && q % 2 == 1) {
        q + 1
    } else {
        q
    }
}

fn to_53_bits(n: u64) -> (r: u128)
    ensures
        r == nearest_53_bits(n as nat, 1),
        r <= 0x1_0000_0000_0000_0800,
{
    let mut step: u128 = 1;
    while step < 2048 && n as u128 >= 0x20_0000_0000_0000 * step
        invariant
            1 <= step <= 2048,
            nearest_53_bits(n as nat, 1) == nearest_53_bits(n as nat, step as nat),
            step == 1 || step == 2 || step == 4 || step == 8 || step == 16 || step == 32 || step
                == 64 || step == 128 || step == 256 || step == 512 || step == 1024 || step == 2048,
        decreases 2048 - step,
    {
        step = step * 2;
    }
    let rounded = round_half_even(n as u128, step);
    proof {
        lemma_rounded_bound(n as nat, step as nat, rounded as nat);
    }
    rounded * step
}

proof fn lemma_rounded_bound(n: nat, step: nat, rounded: nat)
    requires
        n <= 0xffff_ffff_ffff_ffff,
        0 < step <= 2048,
        rounded == half_even(n, step),
    ensures
        rounded * step <= 0x1_0000_0000_0000_0800,
{
    assert(rounded <= n / step + 1);
    assert((n / step) * step <= n) by (nonlinear_arith)
        requires
            step > 0,
    ;
    assert(rounded * step <= (n / step) * step + step) by (nonlinear_arith)
        requires
            rounded <= n / step + 1,
            step > 0,
    ;
}

fn one_decimal_text(tenths: u64, unit: &str) -> (r: String)
    ensures
        r@ == one_decimal(tenths as nat) + unit@,
{
    let mut r = decimal_text(tenths / 10);
    r.append(".");
    r.append(decimal_text(tenths % 10).as_str());
    r.append(unit);
    r
}

pub fn console_human_bytes(bytes: u64) -> (r: String)
    ensures
        r@ == human_bytes(bytes),
{
    if bytes < 0x400 {
        return join2(decimal_text(bytes).as_str(), " B");
    }
    let n = to_53_bits(bytes);
    if bytes >= 0x4000_0000 {
        let tenths = round_half_even(10 * n, 0x4000_0000);
        proof {
            assert(half_even(10 * n as nat, 0x4000_0000) <= 10 * n / 0x4000_0000 + 1);
        }
        one_decimal_text(tenths as u64, " GiB")
    } else if bytes >= 0x10_0000 {
        let tenths = round_half_even(10 * n, 0x10_0000);
        proof {
            assert(half_even(10 * n as nat, 0x10_0000) <= 10 * n / 0x10_0000 + 1);
        }
        one_decimal_text(tenths as u64, " MiB")
    } else {
        let tenths = round_half_even(10 * n, 0x400);
        proof {
            assert(half_even(10 * n as nat, 0x400) <= 10 * n / 0x400 + 1);
        }
        one_decimal_text(tenths as u64, " KiB")
    }
}

}
