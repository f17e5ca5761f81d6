//! Finding, replacing and splitting text.
use vstd::prelude::*;

use crate::text::{from_chars, to_chars};

verus! {

/// `pattern` stands in `text` at `at`.
pub open spec fn stands_at(text: Seq<char>, pattern: Seq<char>, at: int) -> bool {
    0 <= at && at + pattern.len() <= text.len() && text.subrange(at, at + pattern.len()) == pattern
}

pub open spec fn starts_with(text: Seq<char>, pattern: Seq<char>) -> bool {
    stands_at(text, pattern, 0)
}

pub open spec fn ends_with(text: Seq<char>, pattern: Seq<char>) -> bool {
    stands_at(text, pattern, text.len() - pattern.len())
}

pub open spec fn contains(text: Seq<char>, pattern: Seq<char>) -> bool {
    exists|at: int| #[trigger] stands_at(text, pattern, at)
}

pub(crate) fn is_at(text: &Vec<char>, pattern: &Vec<char>, at: usize) -> (r: bool)
    ensures
        r == stands_at(text@, pattern@, at as int),
{
    let total = text.len();
    if pattern.len() > total || at > total - pattern.len() {
        return false;
    }
    let mut i: usize = 0;
    while i < pattern.len()
        invariant
            total == text@.len(),
            at + pattern@.len() <= total,
            i <= pattern@.len(),
            forall|j: int| 0 <= j < i ==> text@[at + j] == pattern@[j],
        decreases pattern.len() - i,
    {
        if text[at + i] != pattern[i] {
            proof {
                assert(text@.subrange(at as int, at + pattern@.len())[i as int] == text@[at + i]);
            }
            return false;
        }
        i += 1;
    }
    proof {
        assert(text@.subrange(at as int, at + pattern@.len()) =~= pattern@);
    }
    true
}

pub fn has_prefix(text: &str, pattern: &str) -> (r: bool)
    ensures
        r == starts_with(text@, pattern@),
{
    is_at(&to_chars(text), &to_chars(pattern), 0)
}

pub fn has_suffix(text: &str, pattern: &str) -> (r: bool)
    ensures
        r == ends_with(text@, pattern@),
{
    let chars = to_chars(text);
    let sought = to_chars(pattern);
    if sought.len() > chars.len() {
        return false;
    }
    is_at(&chars, &sought, chars.len() - sought.len())
}

pub fn has_text(text: &str, pattern: &str) -> (r: bool)
    ensures
        r == contains(text@, pattern@),
{
    let chars = to_chars(text);
    let sought = to_chars(pattern);
    let mut i: usize = 0;
    while i < chars.len()
        invariant
            i <= chars@.len(),
            chars@ == text@,
            sought@ == pattern@,
            forall|at: int| 0 <= at < i ==> !#[trigger] stands_at(text@, pattern@, at),
        decreases chars.len() - i,
    {
        if is_at(&chars, &sought, i) {
            return true;
        }
        i += 1;
    }
    is_at(&chars, &sought, i)
}

pub fn has_char(text: &str, c: char) -> (r: bool)
    ensures
        r == text@.contains(c),
{
    let chars = to_chars(text);
    let mut i: usize = 0;
    while i < chars.len()
        invariant
            i <= chars@.len(),
            chars@ == text@,
            forall|j: int| 0 <= j < i ==> chars@[j] != c,
        decreases chars.len() - i,
    {
        if chars[i] == c {
            return true;
        }
        i += 1;
    }
    false
}

/// `text` with every occurrence of `pattern`, from the start on, replaced.
pub open spec fn replaced(text: Seq<char>, pattern: Seq<char>, with: Seq<char>) -> Seq<char>
    decreases text.len(),
{
    if pattern.len() == 0 || text.len() == 0 {
        text
    } else if starts_with(text, pattern) {
        with + replaced(text.skip(pattern.len() as int), pattern, with)
    } else {
        seq![text[0]] + replaced(text.skip(1), pattern, with)
    }
}

pub fn replace(text: &str, pattern: &str, with: &str) -> (r: String)
    ensures
        r@ == replaced(text@, pattern@, with@),
{
    let chars = to_chars(text);
    let sought = to_chars(pattern);
    if sought.len() == 0 {
        return text.to_owned();
    }
    let mut out = String::new();
    let mut i: usize = 0;
    proof {
        assert(chars@.skip(0) =~= text@);
        assert(out@ + replaced(text@, pattern@, with@) =~= replaced(text@, pattern@, with@));
    }
    while i < chars.len()
        invariant
            i <= chars@.len(),
            chars@ == text@,
            sought@ == pattern@,
            sought@.len() > 0,
            replaced(text@, pattern@, with@) == out@ + replaced(
                chars@.skip(i as int),
                pattern@,
                with@,
            ),
        decreases chars.len() - i,
    {
        let ghost before = out@;
        let ghost rest = chars@.skip(i as int);
        if is_at(&chars, &sought, i) {
            out.append(with);
            proof {
                assert(rest.subrange(0, pattern@.len() as int) =~= chars@.subrange(
                    i as int,
                    i + pattern@.len(),
                ));
                assert(starts_with(rest, pattern@));
                assert(rest.skip(pattern@.len() as int) =~= chars@.skip(i + pattern@.len()));
                let tail = replaced(chars@.skip(i + pattern@.len()), pattern@, with@);
                assert(before + (with@ + tail) =~= out@ + tail);
            }
            i += sought.len();
        } else {
            out.push(chars[i]);
            proof {
                if starts_with(rest, pattern@) {
                    assert(rest.subrange(0, pattern@.len() as int) =~= chars@.subrange(
                        i as int,
                        i + pattern@.len(),
                    ));
                }
                assert(rest.skip(1) =~= chars@.skip(i + 1));
                let tail = replaced(chars@.skip(i + 1), pattern@, with@);
                assert(before + (seq![chars@[i as int]] + tail) =~= out@ + tail);
            }
            i += 1;
        }
    }
    proof {
        assert(out@ + replaced(chars@.skip(i as int), pattern@, with@) =~= out@);
    }
    out
}

/// Laid over `text` at some place, `pattern` and the text disagree wherever
/// they meet.
pub open spec fn never_overlaps(pattern: Seq<char>, text: Seq<char>) -> bool {
    forall|shift: int|
        -pattern.len() < shift < text.len() ==> #[trigger] differs_at(pattern, text, shift)
}

/// Some character of `pattern`, laid over `text` at `shift`, meets another one.
pub open spec fn differs_at(pattern: Seq<char>, text: Seq<char>, shift: int) -> bool {
    exists|i: int|
        0 <= i < pattern.len() && 0 <= i + shift < text.len() && #[trigger] pattern[i] != text[i
            + shift]
}

/// Where `pattern` has nothing in common with what replaces it, it does not
/// occur after it was replaced.
pub proof fn replaced_text_is_gone(text: Seq<char>, pattern: Seq<char>, with: Seq<char>)
    requires
        pattern.len() > 0,
        with.len() > 0,
        never_overlaps(pattern, with),
    ensures
        !contains(replaced(text, pattern, with), pattern),
{
    assert forall|at: int| !#[trigger] stands_at(replaced(text, pattern, with), pattern, at) by {
        lemma_no_occurrence(text, pattern, with, at);
    }
}

proof fn lemma_no_occurrence(text: Seq<char>, pattern: Seq<char>, with: Seq<char>, at: int)
    requires
        pattern.len() > 0,
        with.len() > 0,
        never_overlaps(pattern, with),
    ensures
        !stands_at(replaced(text, pattern, with), pattern, at),
    decreases text.len(),
{
    let after = replaced(text, pattern, with);
    if text.len() > 0 && stands_at(after, pattern, at) {
        let found = after.subrange(at, at + pattern.len());
        if starts_with(text, pattern) {
            let rest = text.skip(pattern.len() as int);
            let tail = replaced(rest, pattern, with);
            if at < with.len() {
                assert(differs_at(pattern, with, at));
                let i = choose|i: int|
                    0 <= i < pattern.len() && 0 <= i + at < with.len() && #[trigger] pattern[i]
                        != with[i + at];
                assert(found[i] == after[at + i]);
                assert(after[at + i] == with[at + i]);
            } else {
                assert(tail.subrange(at - with.len(), at - with.len() + pattern.len()) =~= found);
                lemma_no_occurrence(rest, pattern, with, at - with.len());
            }
        } else {
            let rest = text.skip(1);
            let tail = replaced(rest, pattern, with);
            if at == 0 {
                assert(pattern.skip(0) =~= pattern);
                assert(after.subrange(0, pattern.len() as int) =~= pattern.skip(0));
                lemma_literal_start(text, pattern, with, 0);
                assert(text.subrange(0, pattern.len() as int) =~= pattern);
            } else {
                assert(tail.subrange(at - 1, at - 1 + pattern.len()) =~= found);
                lemma_no_occurrence(rest, pattern, with, at - 1);
            }
        }
    }
}

/// Where what is left of `pattern` behind `from` starts the replaced text, it
/// starts the text itself.
proof fn lemma_literal_start(text: Seq<char>, pattern: Seq<char>, with: Seq<char>, from: int)
    requires
        pattern.len() > 0,
        with.len() > 0,
        0 <= from < pattern.len(),
        never_overlaps(pattern, with),
        starts_with(replaced(text, pattern, with), pattern.skip(from)),
    ensures
        starts_with(text, pattern.skip(from)),
    decreases text.len(),
{
    let after = replaced(text, pattern, with);
    let left = pattern.skip(from);
    assert(after.subrange(0, left.len() as int) == left);
    if text.len() > 0 && starts_with(text, pattern) {
        assert(differs_at(pattern, with, -from));
        let i = choose|i: int|
            0 <= i < pattern.len() && 0 <= i - from < with.len() && #[trigger] pattern[i] != with[i
                - from];
        assert(left[i - from] == pattern[i]);
        assert(after.subrange(0, left.len() as int)[i - from] == after[i - from]);
        assert(after[i - from] == with[i - from]);
    } else if text.len() > 0 {
        let rest = text.skip(1);
        let tail = replaced(rest, pattern, with);
        assert(after =~= seq![text[0]] + tail);
        assert(after[0] == left[0]);
        if from + 1 < pattern.len() {
            let fewer = pattern.skip(from + 1);
            assert(tail.subrange(0, fewer.len() as int) =~= fewer) by {
                assert forall|k: int| 0 <= k < fewer.len() implies tail.subrange(
                    0,
                    fewer.len() as int,
                )[k] == fewer[k] by {
                    assert(after.subrange(0, left.len() as int)[k + 1] == after[k + 1]);
                    assert(after[k + 1] == tail[k]);
                    assert(left[k + 1] == fewer[k]);
                }
            }
            lemma_literal_start(rest, pattern, with, from + 1);
            assert(rest.subrange(0, fewer.len() as int) == fewer);
            assert(text.subrange(0, left.len() as int) =~= left) by {
                assert forall|k: int| 0 <= k < left.len() implies text.subrange(
                    0,
                    left.len() as int,
                )[k] == left[k] by {
                    if k > 0 {
                        assert(rest.subrange(0, fewer.len() as int)[k - 1] == rest[k - 1]);
                        assert(fewer[k - 1] == left[k]);
                    }
                }
            }
        } else {
            assert(text.subrange(0, left.len() as int) =~= left);
        }
    }
}

/// The parts of `text` between the occurrences of `c`.
pub open spec fn split(text: Seq<char>, c: char) -> Seq<Seq<char>>
    decreases text.len(),
{
    if text.len() == 0 {
        seq![Seq::empty()]
    } else {
        let parts = split(text.drop_last(), c);
        if text.last() == c {
            parts.push(Seq::empty())
        } else {
            parts.update(parts.len() - 1, parts.last().push(text.last()))
        }
    }
}

pub proof fn lemma_split_not_empty(text: Seq<char>, c: char)
    ensures
        split(text, c).len() > 0,
    decreases text.len(),
{
    if text.len() > 0 {
        lemma_split_not_empty(text.drop_last(), c);
    }
}

pub open spec fn texts(parts: Seq<String>) -> Seq<Seq<char>> {
    parts.map_values(|part: String| part@)
}

pub fn split_text(text: &str, c: char) -> (parts: Vec<String>)
    ensures
        texts(parts@) == split(text@, c),
{
    let chars = to_chars(text);
    let mut done: Vec<String> = Vec::new();
    let mut part = String::new();
    let mut i: usize = 0;
    proof {
        assert(texts(done@).push(part@) =~= split(chars@.take(0), c));
    }
    while i < chars.len()
        invariant
            i <= chars@.len(),
            chars@ == text@,
            texts(done@).push(part@) == split(chars@.take(i as int), c),
        decreases chars.len() - i,
    {
        let ghost before = texts(done@);
        let ghost open = part@;
        let ghost parts = split(chars@.take(i as int), c);
        proof {
            assert(chars@.take(i + 1).drop_last() =~= chars@.take(i as int));
            assert(parts.last() == open);
        }
        if chars[i] == c {
            done.push(part);
            part = String::new();
            proof {
                assert(texts(done@) =~= before.push(open));
                assert(texts(done@).push(part@) =~= parts.push(Seq::empty()));
            }
        } else {
            part.push(chars[i]);
            proof {
                assert(texts(done@).push(part@) =~= parts.update(
                    parts.len() - 1,
                    open.push(chars@[i as int]),
                ));
            }
        }
        i += 1;
    }
    proof {
        assert(chars@.take(i as int) =~= text@);
    }
    let ghost last = part@;
    let ghost before = texts(done@);
    done.push(part);
    proof {
        assert(texts(done@) =~= before.push(last));
    }
    done
}

/// A line without the carriage return at its end.
pub open spec fn chomped(line: Seq<char>) -> Seq<char> {
    if line.len() > 0 && line.last() == '\r' {
        line.drop_last()
    } else {
        line
    }
}

/// The lines of a text, without their ends; a line end at the end of the text
/// starts no line.
pub open spec fn lines(text: Seq<char>) -> Seq<Seq<char>> {
    let parts = split(text, '\n');
    let whole = parts.drop_last().map_values(|line: Seq<char>| chomped(line));
    if parts.last().len() == 0 {
        whole
    } else {
        whole.push(parts.last())
    }
}

pub fn split_lines(text: &str) -> (r: Vec<String>)
    ensures
        texts(r@) == lines(text@),
{
    let parts = split_text(text, '\n');
    proof {
        lemma_split_not_empty(text@, '\n');
        assert(parts@.len() == texts(parts@).len());
    }
    let mut r: Vec<String> = Vec::new();
    let mut i: usize = 0;
    while i < parts.len() - 1
        invariant
            parts@.len() > 0,
            i < parts@.len(),
            r@.len() == i,
            texts(parts@) == split(text@, '\n'),
            forall|j: int| 0 <= j < i ==> (#[trigger] r@[j])@ == chomped(texts(parts@)[j]),
        decreases parts.len() - i,
    {
        let chars = to_chars(parts[i].as_str());
        let end: usize = if chars.len() > 0 && chars[chars.len() - 1] == '\r' {
            chars.len() - 1
        } else {
            chars.len()
        };
        proof {
            assert(chars@.subrange(0, end as int) =~= chomped(chars@));
        }
        r.push(from_chars(&chars, 0, end));
        i += 1;
    }
    let ghost whole = split(text@, '\n').drop_last().map_values(|line: Seq<char>| chomped(line));
    proof {
        assert(texts(r@) =~= whole);
        assert(texts(parts@).last() == parts@[i as int]@);
    }
    if !parts[i].as_str().is_empty() {
        r.push(parts[i].clone());
        proof {
            assert(texts(r@) =~= whole.push(parts@[i as int]@));
        }
    }
    r
}

}
