//! What always holds of texts: parts, lines, trimming, case, order, numbers and
//! encodings.
use vstd::prelude::*;

use crate::digest::{be64, hex, hex_char};
use crate::encoding::{base64_standard, base64_url, sextet, sextets, standard_char, url_safe_char};
use crate::search::{
    chomped, contains, lemma_split_not_empty, lines, replaced, split, stands_at, starts_with,
};
use crate::text::{
    all_digits, blank, byte_prefix, char_len, control, decimal, digit_char, digit_value,
    digits_number, lemma_utf8_len_concat, lemma_utf8_len_front, lossy_prefix, lower_char, lowered,
    text_less, trim_end, trim_start, trimmed, unsigned_digits, unsigned_number, upper_char, uppered,
    utf8_len, white,
};

verus! {

/// Parts with a character between each two.
pub open spec fn joined(parts: Seq<Seq<char>>, c: char) -> Seq<char>
    decreases parts.len(),
{
    if parts.len() == 0 {
        Seq::empty()
    } else if parts.len() == 1 {
        parts[0]
    } else {
        joined(parts.drop_last(), c).push(c) + parts.last()
    }
}

/// The parts of a text hold no separator, and joined by it they are the text.
pub proof fn parts_join_to_the_text(text: Seq<char>, c: char)
    ensures
        split(text, c).len() > 0,
        joined(split(text, c), c) == text,
        forall|i: int| 0 <= i < split(text, c).len() ==> !(#[trigger] split(text, c)[i]).contains(c),
    decreases text.len(),
{
    let parts = split(text, c);
    if text.len() == 0 {
        assert(joined(parts, c) =~= text);
        assert(!parts[0].contains(c));
    } else {
        let before = split(text.drop_last(), c);
        parts_join_to_the_text(text.drop_last(), c);
        if text.last() == c {
            assert(parts.drop_last() =~= before);
            assert(joined(parts, c) =~= text);
            assert forall|i: int| 0 <= i < parts.len() implies !(#[trigger] parts[i]).contains(
                c,
            ) by {
                if i < before.len() {
                    assert(parts[i] == before[i]);
                }
            }
        } else {
            assert(parts.drop_last() =~= before.drop_last());
            assert(text.drop_last().push(text.last()) =~= text);
            assert(joined(parts, c) =~= text);
            assert forall|i: int| 0 <= i < parts.len() implies !(#[trigger] parts[i]).contains(
                c,
            ) by {
                assert(!before[i].contains(c));
                if i == parts.len() - 1 {
                    if parts[i].contains(c) {
                        let k = choose|k: int| 0 <= k < parts[i].len() && parts[i][k] == c;
                        assert(before[i][k] == c);
                    }
                }
            }
        }
    }
}

/// Behind a separator a new part starts.
pub proof fn separator_starts_a_part(text: Seq<char>, c: char, part: Seq<char>)
    requires
        !part.contains(c),
    ensures
        split(part, c) == seq![part],
        split(text.push(c) + part, c) == split(text, c).push(part),
    decreases part.len(),
{
    let whole = text.push(c) + part;
    if part.len() == 0 {
        assert(part =~= Seq::empty());
        assert(whole =~= text.push(c));
        assert(whole.drop_last() =~= text);
        assert(split(whole, c) =~= split(text, c).push(part));
        assert(split(part, c) =~= seq![part]);
    } else {
        let rest = part.drop_last();
        assert(part.contains(part.last()));
        assert(!rest.contains(c)) by {
            if rest.contains(c) {
                let k = choose|k: int| 0 <= k < rest.len() && rest[k] == c;
                assert(part[k] == c);
            }
        }
        separator_starts_a_part(text, c, rest);
        assert(rest.push(part.last()) =~= part);
        assert(whole.drop_last() =~= text.push(c) + rest);
        assert(split(whole, c) =~= split(text, c).push(part));
        assert(split(part, c) =~= seq![part]);
    }
}

/// The first part of a text ends where the first separator stands.
pub proof fn first_part_ends_at_the_separator(part: Seq<char>, c: char, rest: Seq<char>)
    requires
        !part.contains(c),
    ensures
        split(part.push(c) + rest, c) == seq![part] + split(rest, c),
    decreases rest.len(),
{
    let whole = part.push(c) + rest;
    separator_starts_a_part(part, c, Seq::empty());
    separator_starts_a_part(part, c, part);
    if rest.len() == 0 {
        assert(whole =~= part.push(c) + Seq::<char>::empty());
        assert(split(whole, c) =~= seq![part] + split(rest, c));
    } else {
        first_part_ends_at_the_separator(part, c, rest.drop_last());
        lemma_split_not_empty(rest.drop_last(), c);
        assert(whole.drop_last() =~= part.push(c) + rest.drop_last());
        assert(split(whole, c) =~= seq![part] + split(rest, c));
    }
}

/// A line end ends a line: the lines before it and behind it are the lines of
/// the text. A carriage return before the line end belongs to it; a text without
/// a line end is one line, unless it is empty.
#[verifier::rlimit(40)]
pub proof fn line_end_ends_a_line(line: Seq<char>, rest: Seq<char>)
    requires
        !line.contains('\n'),
    ensures
        lines(line.push('\n') + rest) == seq![
            if line.len() > 0 && line[line.len() - 1] == '\r' {
                line.take(line.len() - 1)
            } else {
                line
            },
        ] + lines(rest),
        line.len() > 0 ==> lines(line) == seq![line],
        lines(Seq::<char>::empty()) == Seq::<Seq<char>>::empty(),
{
    first_part_ends_at_the_separator(line, '\n', rest);
    separator_starts_a_part(line, '\n', line);
    lemma_split_not_empty(rest, '\n');
    let whole = line.push('\n') + rest;
    let parts = split(whole, '\n');
    let tail = split(rest, '\n');
    assert(parts.last() == tail.last());
    let f = |line: Seq<char>| chomped(line);
    assert(parts.drop_last() =~= seq![line] + tail.drop_last());
    assert(parts.drop_last().map_values(f) =~= seq![chomped(line)] + tail.drop_last().map_values(
        f,
    ));
    assert(line.drop_last() =~= line.take(line.len() - 1)) by {
        if line.len() == 0 {
            assert(line.take(line.len() - 1) =~= line.drop_last());
        }
    }
    assert(lines(whole) =~= seq![chomped(line)] + lines(rest));
    assert(split(line, '\n').drop_last() =~= Seq::empty());
    if line.len() > 0 {
        assert(lines(line) =~= seq![line]);
    }
    assert(lines(Seq::<char>::empty()) =~= Seq::<Seq<char>>::empty()) by {
        assert(split(Seq::<char>::empty(), '\n') =~= seq![Seq::<char>::empty()]);
    }
}

proof fn lemma_trim_start(text: Seq<char>) -> (front: Seq<char>)
    ensures
        blank(front),
        text == front + trim_start(text),
        trim_start(text).len() > 0 ==> !white(trim_start(text)[0]),
    decreases text.len(),
{
    if text.len() > 0 && white(text[0]) {
        let rest = lemma_trim_start(text.skip(1));
        let front = seq![text[0]] + rest;
        assert(text =~= seq![text[0]] + text.skip(1));
        assert(seq![text[0]] + (rest + trim_start(text)) =~= front + trim_start(text));
        assert forall|i: int| 0 <= i < front.len() implies white(#[trigger] front[i]) by {
            if i > 0 {
                assert(front[i] == rest[i - 1]);
            }
        }
        front
    } else {
        assert(text =~= Seq::<char>::empty() + text);
        Seq::empty()
    }
}

proof fn lemma_trim_end(text: Seq<char>) -> (back: Seq<char>)
    ensures
        blank(back),
        text == trim_end(text) + back,
        trim_end(text).len() > 0 ==> !white(trim_end(text).last()),
    decreases text.len(),
{
    if text.len() > 0 && white(text.last()) {
        let rest = lemma_trim_end(text.drop_last());
        let back = rest.push(text.last());
        assert(text =~= text.drop_last().push(text.last()));
        assert((trim_end(text) + rest).push(text.last()) =~= trim_end(text) + back);
        assert forall|i: int| 0 <= i < back.len() implies white(#[trigger] back[i]) by {
            if i < rest.len() {
                assert(back[i] == rest[i]);
            }
        }
        back
    } else {
        assert(text =~= text + Seq::<char>::empty());
        Seq::empty()
    }
}

/// What is trimmed away is white space at the two ends, all of it and nothing
/// else.
pub proof fn only_white_ends_are_trimmed(text: Seq<char>)
    ensures
        exists|front: Seq<char>, back: Seq<char>|
            blank(front) && blank(back) && text == #[trigger] (front + trimmed(text) + back),
        trimmed(text).len() > 0 ==> !white(trimmed(text)[0]) && !white(trimmed(text).last()),
{
    let front = lemma_trim_start(text);
    let middle = trim_start(text);
    let back = lemma_trim_end(middle);
    assert(text =~= front + trimmed(text) + back);
    if trimmed(text).len() > 0 {
        assert(middle[0] == trimmed(text)[0]);
    }
}

/// Case is that of the twenty-six letters of ASCII: the letters of one case are
/// those of the other at the same place of the alphabet.
pub proof fn case_is_ascii_case(c: char, k: int)
    requires
        0 <= k < 26,
    ensures
        lower_char("ABCDEFGHIJKLMNOPQRSTUVWXYZ"@[k]) == "abcdefghijklmnopqrstuvwxyz"@[k],
        upper_char("abcdefghijklmnopqrstuvwxyz"@[k]) == "ABCDEFGHIJKLMNOPQRSTUVWXYZ"@[k],
        !('A' <= c <= 'Z') ==> lower_char(c) == c,
        !('a' <= c <= 'z') ==> upper_char(c) == c,
{
    reveal_strlit("ABCDEFGHIJKLMNOPQRSTUVWXYZ");
    reveal_strlit("abcdefghijklmnopqrstuvwxyz");
}

/// Letter by letter, so that texts in one case stay as they are, and both cases
/// of a text are one text in either.
pub proof fn case_is_changed_by_letters(text: Seq<char>, i: int)
    requires
        0 <= i < text.len(),
    ensures
        lowered(text).len() == text.len() && uppered(text).len() == text.len(),
        lowered(text)[i] == lower_char(text[i]),
        uppered(text)[i] == upper_char(text[i]),
        lowered(lowered(text)) == lowered(text),
        lowered(uppered(text)) == lowered(text),
        uppered(lowered(text)) == uppered(text),
{
    assert(lowered(lowered(text)) =~= lowered(text));
    assert(lowered(uppered(text)) =~= lowered(text));
    assert(uppered(lowered(text)) =~= uppered(text));
}

/// The texts agree before `k`, and there the first ends, or has the lesser
/// character.
pub open spec fn first_differs(a: Seq<char>, b: Seq<char>, k: int) -> bool {
    &&& 0 <= k <= a.len() && k < b.len()
    &&& forall|i: int| 0 <= i < k ==> #[trigger] a[i] == b[i]
    &&& k == a.len() || a[k] < b[k]
}

/// One text is before another exactly if it is so at their first difference.
pub proof fn order_is_told_by_the_first_difference(a: Seq<char>, b: Seq<char>)
    ensures
        text_less(a, b) <==> exists|k: int| #[trigger] first_differs(a, b, k),
    decreases a.len(),
{
    if b.len() > 0 {
        if a.len() == 0 {
            assert(first_differs(a, b, 0));
        } else if a[0] != b[0] {
            if a[0] < b[0] {
                assert(first_differs(a, b, 0));
            }
            assert forall|k: int| #[trigger] first_differs(a, b, k) implies a[0] < b[0] by {
                if k > 0 {
                    assert(a[0] == b[0]);
                }
            }
        } else {
            let x = a.skip(1);
            let y = b.skip(1);
            order_is_told_by_the_first_difference(x, y);
            if text_less(x, y) {
                let k = choose|k: int| #[trigger] first_differs(x, y, k);
                assert forall|i: int| 0 <= i < k + 1 implies #[trigger] a[i] == b[i] by {
                    if i > 0 {
                        assert(x[i - 1] == y[i - 1]);
                    }
                }
                assert(first_differs(a, b, k + 1));
            }
            assert forall|k: int| #[trigger] first_differs(a, b, k) implies text_less(x, y) by {
                assert(k > 0);
                assert forall|i: int| 0 <= i < k - 1 implies #[trigger] x[i] == y[i] by {
                    assert(a[i + 1] == b[i + 1]);
                }
                assert(first_differs(x, y, k - 1));
            }
        }
    }
}

/// A number is read back from its decimal digits, of which the first is no zero
/// but that of zero itself.
#[verifier::rlimit(40)]
pub proof fn decimal_is_read_back(n: nat, max: int)
    ensures
        all_digits(decimal(n), 10),
        digits_number(decimal(n), 10) == n,
        decimal(n).len() > 0,
        n > 0 ==> decimal(n)[0] != '0',
        n < 10 ==> decimal(n).len() == 1,
        n <= max ==> unsigned_number(decimal(n), 10, max) == Some(n as int),
        n > max ==> unsigned_number(decimal(n), 10, max) is None,
    decreases n,
{
    if n < 10 {
        let text = decimal(n);
        assert(text.drop_last() =~= Seq::<char>::empty());
        assert(digits_number(text.drop_last(), 10) == 0);
    } else {
        decimal_is_read_back(n / 10, max);
        let text = decimal(n);
        assert(text.drop_last() =~= decimal(n / 10));
        assert forall|i: int| 0 <= i < text.len() implies digit_value(
            #[trigger] text[i],
            10,
        ) is Some by {
            if i < text.len() - 1 {
                assert(text[i] == decimal(n / 10)[i]);
            }
        }
        assert(text[0] == decimal(n / 10)[0]);
    }
    assert(digit_value(decimal(n)[0], 10) is Some);
}

/// Numbers are read from digits alone, behind at most one plus sign: a text with
/// anything else in it is none.
pub proof fn only_digits_are_numbers(text: Seq<char>, max: int, i: int)
    requires
        0 <= i < text.len(),
        !('0' <= text[i] <= '9'),
        text[i] != '+' || i > 0,
    ensures
        unsigned_number(text, 10, max) is None,
        unsigned_number(Seq::empty(), 10, max) is None,
{
    let digits = unsigned_digits(text);
    if text[0] == '+' {
        assert(digits[i - 1] == text[i]);
        assert(digit_value(digits[i - 1], 10) is None);
    } else {
        assert(digit_value(digits[i], 10) is None);
    }
}

/// A start of a text within a number of bytes is the longest one: one character
/// more would not fit.
#[verifier::rlimit(40)]
pub proof fn prefix_is_the_longest(text: Seq<char>, limit: int)
    requires
        limit >= 0,
    ensures
        ({
            let n = byte_prefix(text, limit).len() as int;
            &&& n <= text.len()
            &&& byte_prefix(text, limit) == text.take(n)
            &&& utf8_len(text.take(n)) <= limit
            &&& n < text.len() ==> utf8_len(text.take(n + 1)) > limit
        }),
    decreases text.len(),
{
    let shown = byte_prefix(text, limit);
    if !(text.len() == 0 || char_len(text[0]) > limit) {
        let rest = text.skip(1);
        let left = limit - char_len(text[0]);
        prefix_is_the_longest(rest, left);
        let n = shown.len() as int;
        assert(shown =~= text.take(n));
        lemma_utf8_len_front(text.take(n));
        assert(text.take(n).skip(1) =~= rest.take(n - 1));
        if n < text.len() {
            lemma_utf8_len_front(text.take(n + 1));
            assert(text.take(n + 1).skip(1) =~= rest.take(n));
        }
    } else {
        assert(shown =~= text.take(0));
        lemma_utf8_len_front(text.take(0));
        if text.len() > 0 {
            lemma_utf8_len_front(text.take(1));
            lemma_utf8_len_front(text.take(1).skip(1));
        }
    }
}

/// A start of so many bytes shows whole characters; for one that it would cut
/// stands a single mark, and a text that fits is shown whole.
pub proof fn cut_character_is_marked(text: Seq<char>, limit: int)
    requires
        limit >= 0,
    ensures
        utf8_len(text) <= limit ==> lossy_prefix(text, limit) == text,
        utf8_len(text) > limit ==> exists|n: int|
            0 <= n < text.len() && #[trigger] utf8_len(text.take(n)) <= limit && utf8_len(
                text.take(n + 1),
            ) > limit && lossy_prefix(text, limit) == if utf8_len(text.take(n)) == limit {
                text.take(n)
            } else {
                text.take(n).push('\u{fffd}')
            },
{
    prefix_is_the_longest(text, limit);
    let n = byte_prefix(text, limit).len() as int;
    assert(text.take(text.len() as int) =~= text);
    if utf8_len(text) <= limit {
        if n < text.len() {
            lemma_utf8_len_concat(text.take(n + 1), text.skip(n + 1));
            assert(text.take(n + 1) + text.skip(n + 1) =~= text);
        }
    } else {
        assert(n < text.len());
        assert(utf8_len(text.take(n)) <= limit);
    }
}

/// A text that holds no pattern stays as it is.
pub proof fn nothing_is_replaced_without_a_pattern(
    text: Seq<char>,
    pattern: Seq<char>,
    with: Seq<char>,
)
    requires
        !contains(text, pattern),
    ensures
        replaced(text, pattern, with) == text,
    decreases text.len(),
{
    if pattern.len() > 0 && text.len() > 0 {
        assert(!stands_at(text, pattern, 0));
        let rest = text.skip(1);
        assert(!contains(rest, pattern)) by {
            if contains(rest, pattern) {
                let at = choose|at: int| #[trigger] stands_at(rest, pattern, at);
                assert(text.subrange(at + 1, at + 1 + pattern.len()) =~= rest.subrange(
                    at,
                    at + pattern.len(),
                ));
                assert(stands_at(text, pattern, at + 1));
            }
        }
        nothing_is_replaced_without_a_pattern(rest, pattern, with);
        assert(seq![text[0]] + rest =~= text);
    }
}

/// Where a pattern stands at the start, its replacement does, and behind it what
/// becomes of the rest; another character is kept.
pub proof fn replacement_stands_for_the_pattern(
    first: char,
    text: Seq<char>,
    pattern: Seq<char>,
    with: Seq<char>,
)
    requires
        pattern.len() > 0,
    ensures
        replaced(pattern + text, pattern, with) == with + replaced(text, pattern, with),
        first != pattern[0] ==> replaced(seq![first] + text, pattern, with) == seq![first]
            + replaced(text, pattern, with),
        replaced(Seq::empty(), pattern, with) == Seq::<char>::empty(),
{
    let whole = pattern + text;
    assert(whole.subrange(0, pattern.len() as int) =~= pattern);
    assert(whole.skip(pattern.len() as int) =~= text);
    assert(starts_with(whole, pattern));
    let other = seq![first] + text;
    if first != pattern[0] {
        if starts_with(other, pattern) {
            assert(other.subrange(0, pattern.len() as int)[0] == first);
        }
        assert(other.skip(1) =~= text);
    }
}

/// Where one character is replaced by another, every other stays in its place.
pub proof fn one_character_is_replaced_in_place(text: Seq<char>, c: char, d: char)
    ensures
        replaced(text, seq![c], seq![d]).len() == text.len(),
        forall|i: int|
            0 <= i < text.len() ==> #[trigger] replaced(text, seq![c], seq![d])[i] == if text[i]
                == c {
                d
            } else {
                text[i]
            },
    decreases text.len(),
{
    if text.len() > 0 {
        let rest = text.skip(1);
        one_character_is_replaced_in_place(rest, c, d);
        let all = replaced(text, seq![c], seq![d]);
        let more = replaced(rest, seq![c], seq![d]);
        assert(text.subrange(0, 1) =~= seq![text[0]]);
        assert(starts_with(text, seq![c]) == (text[0] == c)) by {
            if text[0] != c && starts_with(text, seq![c]) {
                assert(text.subrange(0, 1)[0] == seq![c][0]);
            }
        }
        assert forall|i: int| 0 <= i < text.len() implies #[trigger] all[i] == if text[i] == c {
            d
        } else {
            text[i]
        } by {
            if i > 0 {
                assert(all[i] == more[i - 1]);
                assert(rest[i - 1] == text[i]);
            }
        }
    }
}

/// The characters for the values of six bits, each at its place.
pub proof fn base64_letters_are_in_place(v: int)
    requires
        0 <= v < 64,
    ensures
        url_safe_char(v)
            == "ABCDEFGHIJKLMNOPQRSTUVWXYZabcdefghijklmnopqrstuvwxyz0123456789-_"@[v],
        standard_char(v)
            == "ABCDEFGHIJKLMNOPQRSTUVWXYZabcdefghijklmnopqrstuvwxyz0123456789+/"@[v],
{
    reveal_strlit("ABCDEFGHIJKLMNOPQRSTUVWXYZabcdefghijklmnopqrstuvwxyz0123456789-_");
    reveal_strlit("ABCDEFGHIJKLMNOPQRSTUVWXYZabcdefghijklmnopqrstuvwxyz0123456789+/");
}

/// Four characters stand for three bytes: the same twenty-four bits, six at a
/// time. At the end, two stand for one byte and three for two, and standard
/// base64 fills up the four.
#[verifier::rlimit(40)]
pub proof fn four_characters_hold_three_bytes(bytes: Seq<u8>, k: int)
    requires
        0 <= k && 3 * k < bytes.len(),
    ensures
        ({
            let left = bytes.len() - 3 * k;
            let first = bytes[3 * k] as int;
            let second = if left > 1 {
                bytes[3 * k + 1] as int
            } else {
                0
            };
            let third = if left > 2 {
                bytes[3 * k + 2] as int
            } else {
                0
            };
            let bits = 65_536 * first + 256 * second + third;
            let text = base64_url(bytes);
            let padded = base64_standard(bytes);
            let a = bits / 262_144;
            let b = bits / 4096 % 64;
            let c = bits / 64 % 64;
            let d = bits % 64;
            &&& padded.len() % 4 == 0 && padded.len() >= 4 * k + 4
            &&& text[4 * k] == url_safe_char(a) && text[4 * k + 1] == url_safe_char(b)
            &&& padded[4 * k] == standard_char(a) && padded[4 * k + 1] == standard_char(b)
            &&& left == 1 ==> text.len() == 4 * k + 2 && padded.len() == 4 * k + 4 && padded[4 * k
                + 2] == '=' && padded[4 * k + 3] == '='
            &&& left >= 2 ==> text.len() >= 4 * k + 3 && text[4 * k + 2] == url_safe_char(c)
                && padded[4 * k + 2] == standard_char(c)
            &&& left == 2 ==> text.len() == 4 * k + 3 && padded.len() == 4 * k + 4 && padded[4 * k
                + 3] == '='
            &&& left >= 3 ==> text.len() >= 4 * k + 4 && text[4 * k + 3] == url_safe_char(d)
                && padded[4 * k + 3] == standard_char(d)
        }),
{
    lemma_sextet_places(k);
    let left = bytes.len() - 3 * k;
    let first = bytes[3 * k] as int;
    let second = if left > 1 {
        bytes[3 * k + 1] as int
    } else {
        0
    };
    let third = if left > 2 {
        bytes[3 * k + 2] as int
    } else {
        0
    };
    lemma_sextet_bits(first, second, third);
    lemma_sextet_count(bytes.len(), k);
    assert(sextet(bytes, 4 * k) == (256 * first + second) / 1024 % 64);
    assert(sextet(bytes, 4 * k + 1) == (256 * first + second) / 16 % 64);
    if left >= 2 {
        assert(sextet(bytes, 4 * k + 2) == (256 * second + third) / 64 % 64);
    }
    if left >= 3 {
        assert(third == bytes[3 * k + 2] as int);
        let next = if 3 * k + 3 < bytes.len() {
            bytes[3 * k + 3] as int
        } else {
            0
        };
        assert(sextet(bytes, 4 * k + 3) == (256 * third + next) / 256 % 64);
        assert((256 * third + next) / 256 == third);
    }
}

proof fn lemma_sextet_places(k: int)
    requires
        0 <= k,
    ensures
        6 * (4 * k) / 8 == 3 * k,
        6 * (4 * k) % 8 == 0,
        6 * (4 * k + 1) / 8 == 3 * k,
        6 * (4 * k + 1) % 8 == 6,
        6 * (4 * k + 2) / 8 == 3 * k + 1,
        6 * (4 * k + 2) % 8 == 4,
        6 * (4 * k + 3) / 8 == 3 * k + 2,
        6 * (4 * k + 3) % 8 == 2,
{
}

#[verifier::rlimit(40)]
proof fn lemma_sextet_bits(first: int, second: int, third: int)
    requires
        0 <= first < 256,
        0 <= second < 256,
        0 <= third < 256,
    ensures
        ({
            let bits = 65_536 * first + 256 * second + third;
            &&& bits / 262_144 == (256 * first + second) / 1024 % 64
            &&& bits / 4096 % 64 == (256 * first + second) / 16 % 64
            &&& bits / 64 % 64 == (256 * second + third) / 64 % 64
            &&& bits % 64 == third % 64
        }),
{
    let a = first / 4;
    let b = first % 4;
    let c = second / 16;
    let d = second % 16;
    let e = third / 64;
    let f = third % 64;
    lemma_parted(262_144, a, 65_536 * b + 256 * second + third);
    lemma_parted(1024, a, 256 * b + second);
    lemma_parted(4096, 64 * a + 16 * b + c, 256 * d + third);
    lemma_parted(16, 64 * a + 16 * b + c, d);
    lemma_wrapped(a, 16 * b + c);
    lemma_parted(64, 1024 * first + 4 * second + e, f);
    lemma_parted(64, 4 * second + e, f);
    lemma_wrapped(16 * first + c, 4 * d + e);
    lemma_wrapped(c, 4 * d + e);
    lemma_wrapped(1024 * first + 4 * second + e, f);
    lemma_wrapped(0, a);
}

proof fn lemma_parted(size: int, whole: int, rest: int)
    requires
        size > 0,
        0 <= rest < size,
    ensures
        (size * whole + rest) / size == whole,
{
    assert(size * whole == whole * size) by (nonlinear_arith);
    vstd::arithmetic::div_mod::lemma_fundamental_div_mod_converse(
        size * whole + rest,
        size,
        whole,
        rest,
    );
}

proof fn lemma_wrapped(whole: int, rest: int)
    requires
        0 <= rest < 64,
    ensures
        (64 * whole + rest) % 64 == rest,
{
}

#[verifier::rlimit(40)]
proof fn lemma_sextet_count(n: nat, k: int)
    requires
        0 <= k,
        3 * k < n,
    ensures
        n == 3 * k + 1 ==> sextets(n) == 4 * k + 2 && 4 * ((n + 2) / 3) == 4 * k + 4,
        n == 3 * k + 2 ==> sextets(n) == 4 * k + 3 && 4 * ((n + 2) / 3) == 4 * k + 4,
        n >= 3 * k + 3 ==> sextets(n) >= 4 * k + 4 && 4 * ((n + 2) / 3) >= 4 * k + 4,
{
}

/// Two hexadecimal digits stand for a byte, the high one first.
pub proof fn two_digits_hold_a_byte(bytes: Seq<u8>, i: int)
    requires
        0 <= i < bytes.len(),
    ensures
        hex(bytes).len() == 2 * bytes.len(),
        hex(bytes)[2 * i] == "0123456789abcdef"@[bytes[i] as int / 16],
        hex(bytes)[2 * i + 1] == "0123456789abcdef"@[bytes[i] as int % 16],
    decreases bytes.len(),
{
    reveal_strlit("0123456789abcdef");
    lemma_hex_len(bytes);
    let rest = bytes.drop_last();
    lemma_hex_len(rest);
    if i < rest.len() {
        two_digits_hold_a_byte(rest, i);
        assert(hex(bytes)[2 * i] == hex(rest)[2 * i]);
        assert(hex(bytes)[2 * i + 1] == hex(rest)[2 * i + 1]);
    } else {
        assert(hex(bytes)[2 * i] == hex_char(bytes[i] as int / 16));
        assert(hex(bytes)[2 * i + 1] == hex_char(bytes[i] as int % 16));
    }
}

proof fn lemma_hex_len(bytes: Seq<u8>)
    ensures
        hex(bytes).len() == 2 * bytes.len(),
    decreases bytes.len(),
{
    if bytes.len() > 0 {
        lemma_hex_len(bytes.drop_last());
    }
}

/// White space and control characters, by their code points.
pub proof fn classes_of_characters(c: char)
    ensures
        ({
            let n = c as u32;
            white(c) <==> 9 <= n <= 13 || n == 32 || n == 133 || n == 160 || n == 5760 || 8192 <= n
                <= 8202 || n == 8232 || n == 8233 || n == 8239 || n == 8287 || n == 12_288
        }),
        control(c) <==> (c as u32) < 32 || 127 <= (c as u32) < 160,
{
}

/// Eight bytes hold a number in the order of their weight, the greatest first.
pub proof fn eight_bytes_hold_a_number(n: nat)
    requires
        n < 0x1_0000_0000_0000_0000,
    ensures
        be64(n).len() == 8,
        be64(n)[7] == n % 256,
        be64(n)[6] == n / 256 % 256,
        be64(n)[5] == n / 65_536 % 256,
        be64(n)[4] == n / 16_777_216 % 256,
        n < 4_294_967_296 ==> be64(n)[0] == 0 && be64(n)[1] == 0 && be64(n)[2] == 0 && be64(n)[3]
            == 0,
{
}

}
