//! Parts of a console line: labelled values, lists, columns.
use vstd::prelude::*;

use crate::text::{decimal, decimal_text, join2, opt_view, to_chars};

verus! {

pub open spec fn labelled(label: &str, value: Option<Seq<char>>) -> Option<Seq<char>> {
    match value {
        Some(text) => Some(label@ + text),
        None => None,
    }
}

pub(crate) fn with_label(label: &str, value: Option<String>) -> (r: Option<String>)
    ensures
        opt_view(r) == labelled(label, opt_view(value)),
{
    match value {
        Some(text) => Some(join2(label, text.as_str())),
        None => None,
    }
}

pub open spec fn number_text(value: Option<u64>) -> Option<Seq<char>> {
    match value {
        Some(n) => Some(decimal(n as nat)),
        None => None,
    }
}

pub(crate) fn show_number(value: Option<u64>) -> (r: Option<String>)
    ensures
        opt_view(r) == number_text(value),
{
    match value {
        Some(n) => Some(decimal_text(n)),
        None => None,
    }
}

pub open spec fn nonzero(value: Option<u64>) -> Option<u64> {
    match value {
        Some(n) if n != 0 => Some(n),
        _ => None,
    }
}

pub(crate) fn keep_nonzero(value: Option<u64>) -> (r: Option<u64>)
    ensures
        r == nonzero(value),
{
    match value {
        Some(n) => if n != 0 {
            Some(n)
        } else {
            None
        },
        None => None,
    }
}

pub open spec fn flag(value: Option<bool>, word: &str) -> Option<Seq<char>> {
    if value == Some(true) {
        Some(word@)
    } else {
        None
    }
}

pub(crate) fn show_flag(value: Option<bool>, word: &str) -> (r: Option<String>)
    ensures
        opt_view(r) == flag(value, word),
{
    match value {
        Some(b) => if b {
            Some(word.to_owned())
        } else {
            None
        },
        None => None,
    }
}

pub open spec fn truth_text(value: bool) -> Seq<char> {
    if value {
        "true"@
    } else {
        "false"@
    }
}

pub(crate) fn show_truth(value: bool) -> (r: &'static str)
    ensures
        r@ == truth_text(value),
{
    if value {
        "true"
    } else {
        "false"
    }
}

pub open spec fn truth_field(value: Option<bool>) -> Option<Seq<char>> {
    match value {
        Some(b) => Some(truth_text(b)),
        None => None,
    }
}

pub(crate) fn show_truth_field(value: Option<bool>) -> (r: Option<String>)
    ensures
        opt_view(r) == truth_field(value),
{
    match value {
        Some(b) => Some(show_truth(b).to_owned()),
        None => None,
    }
}

pub open spec fn or_text(value: Option<Seq<char>>, default: &str) -> Seq<char> {
    match value {
        Some(text) => text,
        None => default@,
    }
}

pub(crate) fn unwrap_text(value: Option<String>, default: &str) -> (r: String)
    ensures
        r@ == or_text(opt_view(value), default),
{
    match value {
        Some(text) => text,
        None => default.to_owned(),
    }
}

/// The texts that are there.
pub open spec fn present(fields: Seq<Option<Seq<char>>>) -> Seq<Seq<char>>
    decreases fields.len(),
{
    if fields.len() == 0 {
        Seq::empty()
    } else {
        match fields.last() {
            Some(text) => present(fields.drop_last()).push(text),
            None => present(fields.drop_last()),
        }
    }
}

/// Texts in a row, with a separator between them.
pub open spec fn joined(parts: Seq<Seq<char>>, separator: Seq<char>) -> Seq<char>
    decreases parts.len(),
{
    if parts.len() == 0 {
        Seq::empty()
    } else if parts.len() == 1 {
        parts[0]
    } else {
        joined(parts.drop_last(), separator) + separator + parts.last()
    }
}

pub open spec fn fields_text(fields: Seq<Option<Seq<char>>>) -> Seq<char> {
    joined(present(fields), "  "@)
}

pub open spec fn opts(fields: Seq<Option<String>>) -> Seq<Option<Seq<char>>> {
    fields.map_values(|entry: Option<String>| opt_view(entry))
}

/// The texts that are there, two blanks between them.
pub fn console_join_fields(fields: Vec<Option<String>>) -> (r: String)
    ensures
        r@ == fields_text(opts(fields@)),
{
    let ghost all = opts(fields@);
    let mut r = String::new();
    let mut any = false;
    let mut i: usize = 0;
    proof {
        assert(all.take(0) =~= Seq::empty());
    }
    while i < fields.len()
        invariant
            i <= fields@.len(),
            all == opts(fields@),
            any == (present(all.take(i as int)).len() > 0),
            r@ == fields_text(all.take(i as int)),
        decreases fields.len() - i,
    {
        proof {
            assert(all.take(i + 1).drop_last() =~= all.take(i as int));
            assert(all.take(i + 1).last() == opt_view(fields@[i as int]));
        }
        let ghost before = present(all.take(i as int));
        if let Some(text) = &fields[i] {
            proof {
                assert(before.push(text@).drop_last() =~= before);
                assert(before.push(text@).last() == text@);
            }
            if any {
                r.append("  ");
                r.append(text.as_str());
            } else {
                r = text.clone();
                proof {
                    assert(before.push(text@).len() == 1);
                    assert(before.push(text@)[0] == text@);
                }
                any = true;
            }
        }
        i += 1;
    }
    proof {
        assert(all.take(i as int) =~= all);
    }
    r
}

/// `n` blanks.
pub open spec fn blanks(n: int) -> Seq<char>
    decreases n,
{
    if n <= 0 {
        Seq::empty()
    } else {
        blanks(n - 1).push(' ')
    }
}

pub(crate) fn make_blanks(n: usize) -> (r: String)
    ensures
        r@ == blanks(n as int),
{
    let mut r = String::new();
    let mut i: usize = 0;
    while i < n
        invariant
            i <= n,
            r@ == blanks(i as int),
        decreases n - i,
    {
        r.push(' ');
        i += 1;
    }
    r
}

/// A text at the left of a column.
pub open spec fn padded_right(text: Seq<char>, width: int) -> Seq<char> {
    text + blanks(width - text.len())
}

/// A text at the right of a column.
pub open spec fn padded_left(text: Seq<char>, width: int) -> Seq<char> {
    blanks(width - text.len()) + text
}

fn missing_width(text: &str, width: usize) -> (n: usize)
    ensures
        blanks(n as int) == blanks(width - text@.len()),
{
    let count = to_chars(text).len();
    if count < width {
        width - count
    } else {
        0
    }
}

pub(crate) fn pad_right(text: &str, width: usize) -> (r: String)
    ensures
        r@ == padded_right(text@, width as int),
{
    join2(text, make_blanks(missing_width(text, width)).as_str())
}

pub(crate) fn pad_left(text: &str, width: usize) -> (r: String)
    ensures
        r@ == padded_left(text@, width as int),
{
    join2(make_blanks(missing_width(text, width)).as_str(), text)
}

/// How the items that are not listed are counted.
pub open spec fn more_line(count: int) -> Seq<char> {
    "\n    ... +"@ + decimal(count as nat) + " more"@
}

pub(crate) fn show_more_line(count: usize) -> (r: String)
    ensures
        r@ == more_line(count as int),
{
    let mut r = "\n    ... +".to_owned();
    r.append(decimal_text(count as u64).as_str());
    r.append(" more");
    r
}

}
