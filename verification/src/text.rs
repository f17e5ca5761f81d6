//! Text as sequences of characters: measuring, comparing, trimming, searching
//! and writing numbers.
use vstd::prelude::*;
use vstd::utf8::encode_utf8;

verus! {

/// `String::push` puts one character at the end of the string.
pub assume_specification[ String::push ](text: &mut String, c: char)
    ensures
        final(text)@ == old(text)@.push(c),
;

/// `==` on two `str` values: true exactly where they hold the same characters.
pub assume_specification[ <str as PartialEq>::eq ](a: &str, b: &str) -> (same: bool)
    ensures
        same == (a@ == b@),
;

/// Length of a text in bytes of UTF-8.
pub open spec fn utf8_len(text: Seq<char>) -> nat {
    encode_utf8(text).len()
}

pub fn byte_len(text: &str) -> (n: usize)
    ensures
        n == utf8_len(text@),
{
    text.as_bytes().len()
}

pub fn to_chars(text: &str) -> (chars: Vec<char>)
    ensures
        chars@ == text@,
{
    let mut chars: Vec<char> = Vec::new();
    for c in it: text.chars()
        invariant
            chars@ == it.seq().take(it.index()),
            it.seq() == text@,
    {
        chars.push(c);
    }
    chars
}

/// The text of the characters from `start` up to `end`.
pub fn from_chars(chars: &Vec<char>, start: usize, end: usize) -> (text: String)
    requires
        start <= end <= chars@.len(),
    ensures
        text@ == chars@.subrange(start as int, end as int),
{
    let mut text = String::new();
    let mut i: usize = start;
    while i < end
        invariant
            start <= i <= end <= chars@.len(),
            text@ == chars@.subrange(start as int, i as int),
        decreases end - i,
    {
        text.push(chars[i]);
        proof {
            assert(chars@.subrange(start as int, i as int).push(chars@[i as int])
                =~= chars@.subrange(start as int, i + 1));
        }
        i += 1;
    }
    text
}

pub fn join2(a: &str, b: &str) -> (text: String)
    ensures
        text@ == a@ + b@,
{
    let mut text = a.to_owned();
    text.append(b);
    text
}

pub fn join3(a: &str, b: &str, c: &str) -> (text: String)
    ensures
        text@ == a@ + b@ + c@,
{
    let mut text = a.to_owned();
    text.append(b);
    text.append(c);
    text
}

/// View of an optional text.
pub open spec fn opt_view(text: Option<String>) -> Option<Seq<char>> {
    match text {
        Some(t) => Some(t@),
        None => None,
    }
}

pub open spec fn opt_str_view(text: Option<&str>) -> Option<Seq<char>> {
    match text {
        Some(t) => Some(t@),
        None => None,
    }
}

pub fn opt_str(text: &Option<String>) -> (borrowed: Option<&str>)
    ensures
        opt_str_view(borrowed) == opt_view(*text),
{
    match text {
        Some(t) => Some(t.as_str()),
        None => None,
    }
}

pub fn opt_owned(text: Option<&str>) -> (owned: Option<String>)
    ensures
        opt_view(owned) == opt_str_view(text),
{
    match text {
        Some(t) => Some(t.to_owned()),
        None => None,
    }
}

pub fn opt_copy(text: &Option<String>) -> (copied: Option<String>)
    ensures
        opt_view(copied) == opt_view(*text),
{
    match text {
        Some(t) => Some(t.clone()),
        None => None,
    }
}

pub fn opt_same(a: Option<&str>, b: Option<&str>) -> (same: bool)
    ensures
        same == (opt_str_view(a) == opt_str_view(b)),
{
    match (a, b) {
        (Some(x), Some(y)) => x.eq(y),
        (None, None) => true,
        _ => false,
    }
}

/// Characters with the Unicode property White_Space.
pub open spec fn white(c: char) -> bool {
    ||| '\u{9}' <= c <= '\u{d}'
    ||| c == ' '
    ||| c == '\u{85}'
    ||| c == '\u{a0}'
    ||| c == '\u{1680}'
    ||| '\u{2000}' <= c <= '\u{200a}'
    ||| c == '\u{2028}'
    ||| c == '\u{2029}'
    ||| c == '\u{202f}'
    ||| c == '\u{205f}'
    ||| c == '\u{3000}'
}

pub fn is_white(c: char) -> (r: bool)
    ensures
        r == white(c),
{
    ('\u{9}' <= c && c <= '\u{d}') || c == ' ' || c == '\u{85}' || c == '\u{a0}' || c == '\u{1680}'
        || ('\u{2000}' <= c && c <= '\u{200a}') || c == '\u{2028}' || c == '\u{2029}' || c
        == '\u{202f}' || c == '\u{205f}' || c == '\u{3000}'
}

/// Control characters: Unicode general category Cc.
pub open spec fn control(c: char) -> bool {
    c <= '\u{1f}' || '\u{7f}' <= c <= '\u{9f}'
}

pub fn is_control(c: char) -> (r: bool)
    ensures
        r == control(c),
{
    c <= '\u{1f}' || ('\u{7f}' <= c && c <= '\u{9f}')
}

/// Nothing but white space, or nothing at all.
pub open spec fn blank(text: Seq<char>) -> bool {
    forall|i: int| 0 <= i < text.len() ==> white(#[trigger] text[i])
}

pub fn is_blank(text: &str) -> (r: bool)
    ensures
        r == blank(text@),
{
    let chars = to_chars(text);
    let mut i: usize = 0;
    while i < chars.len()
        invariant
            i <= chars@.len(),
            chars@ == text@,
            forall|j: int| 0 <= j < i ==> white(#[trigger] chars@[j]),
        decreases chars.len() - i,
    {
        if !is_white(chars[i]) {
            return false;
        }
        i += 1;
    }
    true
}

/// `text` without white space at its start.
pub open spec fn trim_start(text: Seq<char>) -> Seq<char>
    decreases text.len(),
{
    if text.len() > 0 && white(text[0]) {
        trim_start(text.skip(1))
    } else {
        text
    }
}

/// `text` without white space at its end.
pub open spec fn trim_end(text: Seq<char>) -> Seq<char>
    decreases text.len(),
{
    if text.len() > 0 && white(text.last()) {
        trim_end(text.drop_last())
    } else {
        text
    }
}

/// `text` without white space at either end.
pub open spec fn trimmed(text: Seq<char>) -> Seq<char> {
    trim_end(trim_start(text))
}

/// A text is blank exactly where trimming leaves nothing of it.
pub proof fn blank_texts_trim_to_nothing(text: Seq<char>)
    ensures
        (trimmed(text).len() == 0) == blank(text),
{
    lemma_trim_start_blank(text);
    lemma_trim_end_blank(trim_start(text));
}

pub fn trim(text: &str) -> (r: String)
    ensures
        r@ == trimmed(text@),
{
    let chars = to_chars(text);
    let mut start: usize = 0;
    proof {
        assert(chars@.skip(0) =~= chars@);
    }
    while start < chars.len() && is_white(chars[start])
        invariant
            start <= chars@.len(),
            chars@ == text@,
            trim_start(text@) == trim_start(chars@.skip(start as int)),
        decreases chars.len() - start,
    {
        proof {
            assert(chars@.skip(start as int).skip(1) =~= chars@.skip(start + 1));
        }
        start += 1;
    }
    let mut end: usize = chars.len();
    proof {
        assert(chars@.skip(start as int) =~= chars@.subrange(start as int, end as int));
    }
    while start < end && is_white(chars[end - 1])
        invariant
            start <= end <= chars@.len(),
            chars@ == text@,
            trimmed(text@) == trim_end(chars@.subrange(start as int, end as int)),
        decreases end - start,
    {
        proof {
            assert(chars@.subrange(start as int, end as int).drop_last() =~= chars@.subrange(
                start as int,
                end - 1,
            ));
        }
        end -= 1;
    }
    from_chars(&chars, start, end)
}

proof fn lemma_trim_start_blank(text: Seq<char>)
    ensures
        blank(trim_start(text)) == blank(text),
    decreases text.len(),
{
    if text.len() > 0 && white(text[0]) {
        lemma_trim_start_blank(text.skip(1));
        if blank(text.skip(1)) {
            assert forall|i: int| 0 <= i < text.len() implies white(#[trigger] text[i]) by {
                if i > 0 {
                    assert(text.skip(1)[i - 1] == text[i]);
                }
            }
        }
    }
}

proof fn lemma_trim_end_blank(text: Seq<char>)
    ensures
        (trim_end(text).len() == 0) == blank(text),
    decreases text.len(),
{
    if text.len() > 0 && white(text.last()) {
        lemma_trim_end_blank(text.drop_last());
        if blank(text.drop_last()) {
            assert forall|i: int| 0 <= i < text.len() implies white(#[trigger] text[i]) by {
                if i < text.len() - 1 {
                    assert(text.drop_last()[i] == text[i]);
                }
            }
        }
    } else if text.len() > 0 {
        assert(!white(text[text.len() - 1]));
    }
}

/// The decimal digit of value `d`.
pub open spec fn digit_char(d: int) -> char {
    ('0' as int + d) as char
}

/// A number in decimal, without leading zeros.
pub open spec fn decimal(n: nat) -> Seq<char>
    decreases n,
{
    if n < 10 {
        seq![digit_char(n as int)]
    } else {
        decimal(n / 10).push(digit_char((n % 10) as int))
    }
}

pub fn decimal_text(n: u64) -> (text: String)
    ensures
        text@ == decimal(n as nat),
    decreases n,
{
    let d: u8 = (n % 10) as u8;
    let c: char = (48u8 + d) as char;
    if n < 10 {
        let mut text = String::new();
        text.push(c);
        proof {
            assert(text@ =~= seq![digit_char(n as int)]);
        }
        text
    } else {
        let mut text = decimal_text(n / 10);
        text.push(c);
        text
    }
}

pub fn decimal_usize(n: usize) -> (text: String)
    ensures
        text@ == decimal(n as nat),
{
    decimal_text(n as u64)
}

/// An integer in decimal, behind a minus sign where it is negative.
pub open spec fn signed_decimal(n: int) -> Seq<char> {
    if n < 0 {
        seq!['-'] + decimal((-n) as nat)
    } else {
        decimal(n as nat)
    }
}

pub fn signed_text(n: i64) -> (text: String)
    ensures
        text@ == signed_decimal(n as int),
{
    if n < 0 {
        let size: u64 = (-(n + 1)) as u64 + 1;
        let mut text = String::new();
        text.push('-');
        proof {
            assert(text@ =~= seq!['-']);
        }
        text.append(decimal_text(size).as_str());
        text
    } else {
        decimal_text(n as u64)
    }
}

/// The value of `c` as a digit in the given radix (of at most ten).
pub open spec fn digit_value(c: char, radix: int) -> Option<int> {
    if '0' <= c && (c as int) < '0' as int + radix {
        Some(c as int - '0' as int)
    } else {
        None
    }
}

pub open spec fn all_digits(text: Seq<char>, radix: int) -> bool {
    forall|i: int| 0 <= i < text.len() ==> digit_value(#[trigger] text[i], radix) is Some
}

/// The number that digits stand for.
pub open spec fn digits_number(text: Seq<char>, radix: int) -> int
    decreases text.len(),
{
    if text.len() == 0 {
        0
    } else {
        digits_number(text.drop_last(), radix) * radix + (text.last() as int - '0' as int)
    }
}

/// Digits behind an optional plus sign.
pub open spec fn unsigned_digits(text: Seq<char>) -> Seq<char> {
    if text.len() > 0 && text[0] == '+' {
        text.skip(1)
    } else {
        text
    }
}

/// The number not above `max` that a text stands for: an optional plus sign,
/// and at least one digit.
pub open spec fn unsigned_number(text: Seq<char>, radix: int, max: int) -> Option<int> {
    let digits = unsigned_digits(text);
    if digits.len() > 0 && all_digits(digits, radix) && digits_number(digits, radix) <= max {
        Some(digits_number(digits, radix))
    } else {
        None
    }
}

proof fn lemma_digits_number_grows(text: Seq<char>, radix: int, n: int)
    requires
        radix >= 1,
        all_digits(text, radix),
        0 <= n <= text.len(),
    ensures
        0 <= digits_number(text.take(n), radix) <= digits_number(text, radix),
    decreases text.len(),
{
    if n == text.len() {
        assert(text.take(n) =~= text);
        if text.len() > 0 {
            assert(all_digits(text.drop_last(), radix)) by {
                assert forall|i: int| 0 <= i < text.drop_last().len() implies digit_value(
                    #[trigger] text.drop_last()[i],
                    radix,
                ) is Some by {
                    assert(text.drop_last()[i] == text[i]);
                }
            }
            lemma_digits_number_grows(text.drop_last(), radix, n - 1);
            assert(text.drop_last().take(n - 1) =~= text.drop_last());
            assert(digit_value(text[n - 1], radix) is Some);
            assert(digits_number(text.drop_last(), radix) * radix >= 0) by (nonlinear_arith)
                requires
                    digits_number(text.drop_last(), radix) >= 0,
                    radix >= 1,
            ;
        }
    } else {
        assert(all_digits(text.drop_last(), radix)) by {
            assert forall|i: int| 0 <= i < text.drop_last().len() implies digit_value(
                #[trigger] text.drop_last()[i],
                radix,
            ) is Some by {
                assert(text.drop_last()[i] == text[i]);
            }
        }
        lemma_digits_number_grows(text.drop_last(), radix, n);
        assert(text.drop_last().take(n) =~= text.take(n));
        lemma_digits_number_grows(text.drop_last(), radix, text.len() - 1);
        assert(text.drop_last().take(text.len() - 1) =~= text.drop_last());
        assert(digit_value(text[text.len() - 1], radix) is Some);
        let m = digits_number(text.drop_last(), radix);
        assert(m * radix >= m) by (nonlinear_arith)
            requires
                m >= 0,
                radix >= 1,
        ;
    }
}

/// A number that was read is not negative.
pub proof fn lemma_number_range(text: Seq<char>, radix: int, max: int)
    requires
        radix >= 1,
    ensures
        match unsigned_number(text, radix, max) {
            Some(n) => 0 <= n <= max,
            None => true,
        },
{
    let digits = unsigned_digits(text);
    if unsigned_number(text, radix, max) is Some {
        lemma_digits_number_grows(digits, radix, digits.len() as int);
    }
}

pub fn parse_unsigned(text: &str, radix: u64, max: u64) -> (r: Option<u64>)
    requires
        2 <= radix <= 10,
    ensures
        match r {
            Some(n) => unsigned_number(text@, radix as int, max as int) == Some(n as int),
            None => unsigned_number(text@, radix as int, max as int) is None,
        },
{
    let chars = to_chars(text);
    let mut start: usize = 0;
    if chars.len() > 0 && chars[0] == '+' {
        start = 1;
    }
    let ghost digits = unsigned_digits(text@);
    proof {
        assert(digits =~= chars@.skip(start as int));
    }
    if start == chars.len() {
        return None;
    }
    let mut n: u64 = 0;
    let mut i: usize = start;
    while i < chars.len()
        invariant
            start <= i <= chars@.len(),
            2 <= radix <= 10,
            digits == chars@.skip(start as int),
            digits == unsigned_digits(text@),
            n <= max,
            n == digits_number(digits.take(i - start), radix as int),
            all_digits(digits.take(i - start), radix as int),
        decreases chars.len() - i,
    {
        let c = chars[i];
        let ghost k = i - start;
        proof {
            assert(digits[k] == c);
        }
        if c < '0' || c > '9' {
            proof {
                assert(digit_value(digits[k], radix as int) is None);
            }
            return None;
        }
        let d: u64 = (c as u32 - 48) as u64;
        if d >= radix {
            proof {
                assert(digit_value(digits[k], radix as int) is None);
            }
            return None;
        }
        proof {
            assert(n * radix <= 0xffff_ffff_ffff_ffff * 10) by (nonlinear_arith)
                requires
                    0 <= n <= 0xffff_ffff_ffff_ffff,
                    0 <= radix <= 10,
            ;
            assert(n * radix >= 0) by (nonlinear_arith)
                requires
                    0 <= n,
                    0 <= radix,
            ;
        }
        let wide: u128 = (n as u128) * (radix as u128) + (d as u128);
        proof {
            assert(digits.take(k + 1).drop_last() =~= digits.take(k));
            assert(digits.take(k + 1).last() == c);
            assert(wide == digits_number(digits.take(k + 1), radix as int));
        }
        if wide > max as u128 {
            proof {
                if all_digits(digits, radix as int) {
                    lemma_digits_number_grows(digits, radix as int, k + 1);
                }
            }
            return None;
        }
        n = wide as u64;
        proof {
            assert forall|j: int| 0 <= j < k + 1 implies digit_value(
                #[trigger] digits.take(k + 1)[j],
                radix as int,
            ) is Some by {
                if j < k {
                    assert(digits.take(k)[j] == digits.take(k + 1)[j]);
                }
            }
        }
        i += 1;
    }
    proof {
        assert(digits.take(digits.len() as int) =~= digits);
    }
    Some(n)
}

/// ASCII capital letters become small ones; everything else stays.
pub open spec fn lower_char(c: char) -> char {
    if 'A' <= c <= 'Z' {
        (c as int + 32) as char
    } else {
        c
    }
}

pub open spec fn lowered(text: Seq<char>) -> Seq<char> {
    text.map_values(|c: char| lower_char(c))
}

pub fn to_lower_char(c: char) -> (r: char)
    ensures
        r == lower_char(c),
{
    if 'A' <= c && c <= 'Z' {
        ((c as u8) + 32u8) as char
    } else {
        c
    }
}

pub fn to_lowered(text: &str) -> (r: String)
    ensures
        r@ == lowered(text@),
{
    let chars = to_chars(text);
    let mut r = String::new();
    let mut i: usize = 0;
    while i < chars.len()
        invariant
            i <= chars@.len(),
            chars@ == text@,
            r@ == lowered(text@.take(i as int)),
        decreases chars.len() - i,
    {
        r.push(to_lower_char(chars[i]));
        i += 1;
        proof {
            assert(lowered(text@.take(i as int)) =~= lowered(text@.take(i - 1)).push(
                lower_char(text@[i - 1]),
            ));
        }
    }
    proof {
        assert(text@.take(i as int) =~= text@);
    }
    r
}

/// ASCII small letters become capital ones; everything else stays.
pub open spec fn upper_char(c: char) -> char {
    if 'a' <= c <= 'z' {
        (c as int - 32) as char
    } else {
        c
    }
}

pub open spec fn uppered(text: Seq<char>) -> Seq<char> {
    text.map_values(|c: char| upper_char(c))
}

pub fn to_uppered(text: &str) -> (r: String)
    ensures
        r@ == uppered(text@),
{
    let chars = to_chars(text);
    let mut r = String::new();
    let mut i: usize = 0;
    while i < chars.len()
        invariant
            i <= chars@.len(),
            chars@ == text@,
            r@ == uppered(text@.take(i as int)),
        decreases chars.len() - i,
    {
        let c = chars[i];
        if 'a' <= c && c <= 'z' {
            r.push(((c as u8) - 32u8) as char);
        } else {
            r.push(c);
        }
        i += 1;
        proof {
            assert(uppered(text@.take(i as int)) =~= uppered(text@.take(i - 1)).push(
                upper_char(text@[i - 1]),
            ));
        }
    }
    proof {
        assert(text@.take(i as int) =~= text@);
    }
    r
}

/// Equal but for the case of ASCII letters.
pub fn same_ignoring_case(a: &str, b: &str) -> (same: bool)
    ensures
        same == (lowered(a@) == lowered(b@)),
{
    to_lowered(a) == to_lowered(b)
}

/// Order of texts by their first difference; the order of their UTF-8 bytes.
pub open spec fn text_less(a: Seq<char>, b: Seq<char>) -> bool
    decreases a.len(),
{
    if b.len() == 0 {
        false
    } else if a.len() == 0 {
        true
    } else if a[0] != b[0] {
        a[0] < b[0]
    } else {
        text_less(a.skip(1), b.skip(1))
    }
}

pub fn is_less(a: &str, b: &str) -> (r: bool)
    ensures
        r == text_less(a@, b@),
{
    let x = to_chars(a);
    let y = to_chars(b);
    let mut i: usize = 0;
    proof {
        assert(x@.skip(0) =~= a@);
        assert(y@.skip(0) =~= b@);
    }
    while i < x.len() && i < y.len()
        invariant
            i <= x@.len(),
            i <= y@.len(),
            text_less(a@, b@) == text_less(x@.skip(i as int), y@.skip(i as int)),
        decreases x.len() - i,
    {
        if x[i] != y[i] {
            return x[i] < y[i];
        }
        proof {
            assert(x@.skip(i as int).skip(1) =~= x@.skip(i + 1));
            assert(y@.skip(i as int).skip(1) =~= y@.skip(i + 1));
        }
        i += 1;
    }
    i < y.len()
}

pub proof fn lemma_less_irreflexive(a: Seq<char>)
    ensures
        !text_less(a, a),
    decreases a.len(),
{
    if a.len() > 0 {
        lemma_less_irreflexive(a.skip(1));
    }
}

pub proof fn lemma_less_transitive(a: Seq<char>, b: Seq<char>, c: Seq<char>)
    requires
        text_less(a, b),
        text_less(b, c),
    ensures
        text_less(a, c),
    decreases a.len(),
{
    if a.len() > 0 && a[0] == b[0] && b[0] == c[0] {
        lemma_less_transitive(a.skip(1), b.skip(1), c.skip(1));
    }
}

pub proof fn lemma_less_total(a: Seq<char>, b: Seq<char>)
    ensures
        text_less(a, b) || a == b || text_less(b, a),
    decreases a.len(),
{
    if a.len() > 0 && b.len() > 0 && a[0] == b[0] {
        lemma_less_total(a.skip(1), b.skip(1));
        if a.skip(1) == b.skip(1) {
            assert(a =~= seq![a[0]] + a.skip(1));
            assert(b =~= seq![b[0]] + b.skip(1));
        }
    } else if a.len() == 0 && b.len() == 0 {
        assert(a =~= b);
    }
}

/// Bytes of one character in UTF-8.
pub open spec fn char_len(c: char) -> nat {
    vstd::utf8::encode_scalar(c as u32).len()
}

pub fn char_width(c: char) -> (n: usize)
    ensures
        n == char_len(c),
        1 <= n <= 4,
{
    let v: u32 = c as u32;
    if v <= 0x7f {
        1
    } else if v <= 0x7ff {
        2
    } else if v <= 0xffff {
        3
    } else {
        4
    }
}

/// The bytes of a text are those of its first character and of the rest.
pub proof fn lemma_utf8_len_front(text: Seq<char>)
    ensures
        text.len() == 0 ==> utf8_len(text) == 0,
        text.len() > 0 ==> utf8_len(text) == char_len(text[0]) + utf8_len(text.skip(1)),
{
    if text.len() > 0 {
        assert(text.skip(1) =~= text.drop_first());
    }
}

/// The bytes of two texts in a row.
pub proof fn lemma_utf8_len_concat(a: Seq<char>, b: Seq<char>)
    ensures
        utf8_len(a + b) == utf8_len(a) + utf8_len(b),
    decreases a.len(),
{
    lemma_utf8_len_front(a);
    lemma_utf8_len_front(a + b);
    if a.len() > 0 {
        assert((a + b).skip(1) =~= a.skip(1) + b);
        lemma_utf8_len_concat(a.skip(1), b);
    } else {
        assert(a + b =~= b);
    }
}

/// The longest start of a text that takes no more than `limit` bytes.
pub open spec fn byte_prefix(text: Seq<char>, limit: int) -> Seq<char>
    decreases text.len(),
{
    if text.len() == 0 || char_len(text[0]) > limit {
        Seq::empty()
    } else {
        seq![text[0]] + byte_prefix(text.skip(1), limit - char_len(text[0]))
    }
}

/// A start of a text and its bytes.
pub fn take_bytes(text: &str, limit: usize) -> (r: (String, usize))
    ensures
        r.0@ == byte_prefix(text@, limit as int),
        r.1 == utf8_len(r.0@),
        r.1 <= limit,
{
    let chars = to_chars(text);
    let mut left: usize = limit;
    let mut i: usize = 0;
    proof {
        assert(chars@.skip(0) =~= text@);
        assert(chars@.take(0) + byte_prefix(text@, limit as int) =~= byte_prefix(
            text@,
            limit as int,
        ));
        lemma_utf8_len_front(chars@.take(0));
    }
    while i < chars.len() && char_width(chars[i]) <= left
        invariant
            i <= chars@.len(),
            left <= limit,
            chars@ == text@,
            limit - left == utf8_len(chars@.take(i as int)),
            byte_prefix(text@, limit as int) == chars@.take(i as int) + byte_prefix(
                chars@.skip(i as int),
                left as int,
            ),
        decreases chars.len() - i,
    {
        proof {
            let rest = byte_prefix(chars@.skip(i + 1), left - char_len(chars@[i as int]));
            assert(chars@.skip(i as int).skip(1) =~= chars@.skip(i + 1));
            assert(chars@.take(i as int) + (seq![chars@[i as int]] + rest) =~= chars@.take(i + 1)
                + rest);
            assert(chars@.take(i + 1) =~= chars@.take(i as int) + seq![chars@[i as int]]);
            lemma_utf8_len_concat(chars@.take(i as int), seq![chars@[i as int]]);
            lemma_utf8_len_front(seq![chars@[i as int]]);
            lemma_utf8_len_front(Seq::<char>::empty());
            assert(seq![chars@[i as int]].skip(1) =~= Seq::<char>::empty());
        }
        left = left - char_width(chars[i]);
        i += 1;
    }
    proof {
        assert(chars@.take(i as int) + Seq::<char>::empty() =~= chars@.subrange(0, i as int));
        assert(chars@.take(i as int) =~= chars@.subrange(0, i as int));
    }
    (from_chars(&chars, 0, i), limit - left)
}

/// A start of a text of `limit` bytes, a character that it would cut standing
/// as the replacement character.
pub open spec fn lossy_prefix(text: Seq<char>, limit: int) -> Seq<char> {
    let whole = byte_prefix(text, limit);
    if utf8_len(whole) == limit || whole.len() == text.len() {
        whole
    } else {
        whole.push('\u{fffd}')
    }
}

pub fn take_bytes_lossy(text: &str, limit: usize) -> (r: String)
    ensures
        r@ == lossy_prefix(text@, limit as int),
{
    let (mut whole, taken) = take_bytes(text, limit);
    proof {
        lemma_byte_prefix(text@, limit as int);
    }
    if taken == limit || taken == byte_len(text) {
        whole
    } else {
        whole.push('\u{fffd}');
        whole
    }
}

/// A start of a text takes no more bytes than it may, and all of them exactly
/// where nothing is cut off.
pub proof fn lemma_byte_prefix(text: Seq<char>, limit: int)
    ensures
        limit >= 0 ==> utf8_len(byte_prefix(text, limit)) <= limit,
        byte_prefix(text, limit).len() <= text.len(),
        byte_prefix(text, limit) == text.take(byte_prefix(text, limit).len() as int),
        (utf8_len(byte_prefix(text, limit)) == utf8_len(text)) == (byte_prefix(text, limit).len()
            == text.len()),
        utf8_len(text) <= limit ==> byte_prefix(text, limit) == text,
    decreases text.len(),
{
    let start = byte_prefix(text, limit);
    lemma_utf8_len_front(text);
    lemma_utf8_len_front(start);
    if text.len() > 0 && char_len(text[0]) <= limit {
        lemma_byte_prefix(text.skip(1), limit - char_len(text[0]));
        assert(start.skip(1) =~= byte_prefix(text.skip(1), limit - char_len(text[0])));
        assert(start =~= text.take(start.len() as int)) by {
            let rest = text.skip(1);
            let n = byte_prefix(rest, limit - char_len(text[0])).len() as int;
            assert(rest.take(n) =~= text.subrange(1, n + 1));
        }
        if utf8_len(text) <= limit {
            assert(start =~= text);
        }
    } else {
        assert(start =~= text.take(0));
        if text.len() > 0 {
            assert(char_len(text[0]) >= 1);
        } else {
            assert(start =~= text);
        }
    }
}

}
