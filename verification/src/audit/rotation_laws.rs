//! What becomes of log files when one of them is full.
use vstd::prelude::*;

use crate::audit::events::{
    file_name, file_stem, lemma_name_range, name_end, names_file, older_copy, rotation, separates,
    shifts, stem_len, RotationView,
};
use crate::text::{decimal, digit_char};

verus! {

/// The files of a directory after a step, with what they hold.
pub open spec fn step_done(files: Map<Seq<char>, Seq<u8>>, step: RotationView) -> Map<
    Seq<char>,
    Seq<u8>,
> {
    match step {
        RotationView::Remove(path) => files.remove(path),
        RotationView::RenameIfPresent(from, to) => if files.contains_key(from) {
            files.remove(from).insert(to, files[from])
        } else {
            files
        },
        RotationView::Rename(from, to) => files.remove(from).insert(to, files[from]),
    }
}

pub open spec fn steps_done(files: Map<Seq<char>, Seq<u8>>, steps: Seq<RotationView>) -> Map<
    Seq<char>,
    Seq<u8>,
>
    decreases steps.len(),
{
    if steps.len() == 0 {
        files
    } else {
        steps_done(step_done(files, steps[0]), steps.skip(1))
    }
}

/// Whether two directories hold the same under a name.
pub open spec fn same_file(
    a: Map<Seq<char>, Seq<u8>>,
    name: Seq<char>,
    b: Map<Seq<char>, Seq<u8>>,
    other: Seq<char>,
) -> bool {
    a.contains_key(name) == b.contains_key(other) && (a.contains_key(name) ==> a[name] == b[other])
}

proof fn lemma_decimal_distinct(a: nat, b: nat)
    requires
        decimal(a) == decimal(b),
    ensures
        a == b,
    decreases a,
{
    lemma_decimal_len(a / 10);
    lemma_decimal_len(b / 10);
    assert(decimal(a).last() == decimal(b).last());
    assert(decimal(a).last() == digit_char((a % 10) as int));
    assert(decimal(b).last() == digit_char((b % 10) as int));
    assert(digit_char((a % 10) as int) as int == '0' as int + a % 10);
    assert(digit_char((b % 10) as int) as int == '0' as int + b % 10);
    if a >= 10 && b >= 10 {
        assert(decimal(a).drop_last() =~= decimal(a / 10));
        assert(decimal(b).drop_last() =~= decimal(b / 10));
        lemma_decimal_distinct(a / 10, b / 10);
    }
}

proof fn lemma_decimal_len(n: nat)
    ensures
        decimal(n).len() > 0,
    decreases n,
{
    if n >= 10 {
        lemma_decimal_len(n / 10);
    }
}

/// A path of a file, with a separator as operating systems have them.
pub open spec fn names_log(path: Seq<char>, separator: char) -> bool {
    names_file(path, separator) && (separator == '/' || separator == '\\')
}

/// What stands behind the last name of a path starts with a separator.
proof fn lemma_behind_name(path: Seq<char>, separator: char)
    ensures
        0 <= name_end(path, separator) <= path.len(),
        name_end(path, separator) < path.len() ==> separates(
            path[name_end(path, separator)],
            separator,
        ),
    decreases path.len(),
{
    if path.len() > 0 {
        let rest = path.drop_last();
        lemma_behind_name(rest, separator);
        let end = name_end(path, separator);
        if end < path.len() {
            assert(end == name_end(rest, separator));
            if !separates(path.last(), separator) {
                assert(separates(rest.last(), separator));
                lemma_name_range(rest.drop_last(), separator);
            }
            if end < rest.len() {
                assert(path[end] == rest[end]);
            }
        }
    }
}

/// No dot stands behind the stem of a name but the one that ends it.
proof fn lemma_stem(name: Seq<char>)
    ensures
        0 <= stem_len(name) <= name.len(),
        stem_len(name) > 0 ==> stem_len(name) < name.len() && name[stem_len(name)] == '.',
        forall|k: int| stem_len(name) < k < name.len() && k > 0 ==> name[k] != '.',
    decreases name.len(),
{
    if name.len() > 1 && name.last() != '.' {
        let rest = name.drop_last();
        lemma_stem(rest);
        assert forall|k: int| stem_len(name) < k < name.len() && k > 0 implies name[k] != '.' by {
            if k < rest.len() {
                assert(name[k] == rest[k]);
            }
        }
    }
}

/// The path of a file is none of its older copies.
proof fn lemma_copy_is_another(path: Seq<char>, separator: char, n: int)
    requires
        names_log(path, separator),
    ensures
        older_copy(path, separator, n) != path,
{
    reveal_strlit(".log.");
    let end = name_end(path, separator);
    let name = file_name(path, separator);
    let whole = path.take(end);
    lemma_behind_name(path, separator);
    lemma_name_range(whole, separator);
    lemma_stem(name);
    lemma_decimal_len(n as nat);
    let start = end - name.len();
    let stem = file_stem(path, separator);
    let copy = older_copy(path, separator, n);
    let at = stem.len() as int;
    assert(copy.len() == at + 5 + decimal(n as nat).len());
    if copy == path {
        assert(copy[at] == '.' && copy[at + 1] == 'l' && copy[at + 4] == '.');
        assert(forall|k: int| start <= k < end ==> path[k] == name[k - start]);
        if stem_len(name) > 0 {
            assert(at == start + stem_len(name));
            if at + 4 < end {
                assert(name[at + 4 - start] != '.');
            } else {
                assert(end > at);
                let k = end - at;
                assert(1 <= k <= 4);
                assert(copy[at + 1] == 'l' && copy[at + 2] == 'o' && copy[at + 3] == 'g');
                assert(separates(path[end], separator));
            }
        } else {
            assert(at == end);
            assert(separates(path[end], separator));
        }
    }
}

proof fn lemma_copies_distinct(path: Seq<char>, separator: char, a: int, b: int)
    requires
        a >= 0,
        b >= 0,
        names_log(path, separator),
    ensures
        older_copy(path, separator, a) != path,
        older_copy(path, separator, a) == older_copy(path, separator, b) ==> a == b,
{
    let x = older_copy(path, separator, a);
    let y = older_copy(path, separator, b);
    lemma_copy_is_another(path, separator, a);
    if x == y {
        let start = file_stem(path, separator).len() + ".log."@.len();
        assert(x.skip(start as int) =~= decimal(a as nat));
        assert(y.skip(start as int) =~= decimal(b as nat));
        lemma_decimal_distinct(a as nat, b as nat);
    }
}

proof fn lemma_steps_joined(
    files: Map<Seq<char>, Seq<u8>>,
    first: Seq<RotationView>,
    rest: Seq<RotationView>,
)
    ensures
        steps_done(files, first + rest) == steps_done(steps_done(files, first), rest),
    decreases first.len(),
{
    if first.len() == 0 {
        assert(first + rest =~= rest);
    } else {
        assert((first + rest).skip(1) =~= first.skip(1) + rest);
        lemma_steps_joined(step_done(files, first[0]), first.skip(1), rest);
    }
}

proof fn lemma_shifts(files: Map<Seq<char>, Seq<u8>>, path: Seq<char>, separator: char, n: int)
    requires
        n >= 0,
        names_log(path, separator),
        !files.contains_key(older_copy(path, separator, n + 1)),
    ensures
        ({
            let after = steps_done(files, shifts(path, separator, n));
            &&& !after.contains_key(older_copy(path, separator, 1))
            &&& forall|k: int|
                1 <= k <= n ==> same_file(
                    files,
                    #[trigger] older_copy(path, separator, k),
                    after,
                    older_copy(path, separator, k + 1),
                )
            &&& forall|name: Seq<char>|
                (forall|k: int| 1 <= k <= n + 1 ==> name != older_copy(path, separator, k))
                    ==> #[trigger] same_file(files, name, after, name)
        }),
    decreases n,
{
    let after = steps_done(files, shifts(path, separator, n));
    if n > 0 {
        let step = RotationView::RenameIfPresent(older_copy(path, separator, n), older_copy(path, separator, n + 1));
        let mid = step_done(files, step);
        lemma_copies_distinct(path, separator, n, n + 1);
        assert(shifts(path, separator, n)[0] == step);
        assert(shifts(path, separator, n).skip(1) =~= shifts(path, separator, n - 1));
        lemma_shifts(mid, path, separator, n - 1);
        assert(same_file(files, older_copy(path, separator, n), mid, older_copy(path, separator, n + 1)));
        assert forall|k: int| 1 <= k <= n implies older_copy(path, separator, n + 1) != #[trigger] older_copy(
            path,
            separator,
            k,
        ) by {
            lemma_copies_distinct(path, separator, n + 1, k);
        }
        assert(same_file(mid, older_copy(path, separator, n + 1), after, older_copy(path, separator, n + 1)));
        assert forall|k: int| 1 <= k <= n implies same_file(
            files,
            #[trigger] older_copy(path, separator, k),
            after,
            older_copy(path, separator, k + 1),
        ) by {
            if k < n {
                lemma_copies_distinct(path, separator, k, n);
                lemma_copies_distinct(path, separator, k, n + 1);
                assert(same_file(files, older_copy(path, separator, k), mid, older_copy(path, separator, k)));
            }
        }
        assert forall|name: Seq<char>|
            (forall|k: int| 1 <= k <= n + 1 ==> name != older_copy(path, separator, k)) implies #[trigger] same_file(
            files,
            name,
            after,
            name,
        ) by {
            assert(name != older_copy(path, separator, n));
            assert(name != older_copy(path, separator, n + 1));
            assert(same_file(files, name, mid, name));
            assert(same_file(mid, name, after, name));
        }
    }
}

/// A full log file becomes its newest copy, every copy grows older by one, and
/// only the oldest is lost. Nothing else in the directory is touched.
pub proof fn rotation_loses_only_the_oldest(
    files: Map<Seq<char>, Seq<u8>>,
    path: Seq<char>,
    separator: char,
    size: u64,
    max_bytes: u64,
    max_files: int,
)
    requires
        size >= max_bytes,
        max_files > 0,
        names_log(path, separator),
        files.contains_key(path),
    ensures
        ({
            let after = steps_done(files, rotation(path, separator, size, max_bytes, max_files));
            &&& !after.contains_key(path)
            &&& same_file(files, path, after, older_copy(path, separator, 1))
            &&& forall|k: int|
                1 <= k < max_files ==> same_file(
                    files,
                    #[trigger] older_copy(path, separator, k),
                    after,
                    older_copy(path, separator, k + 1),
                )
            &&& forall|name: Seq<char>|
                name != path && (forall|k: int| 1 <= k <= max_files ==> name != older_copy(path, separator, k))
                    ==> #[trigger] same_file(files, name, after, name)
        }),
{
    let oldest = older_copy(path, separator, max_files);
    let removal = seq![RotationView::Remove(oldest)];
    let moves = shifts(path, separator, max_files - 1);
    let naming = seq![RotationView::Rename(path, older_copy(path, separator, 1))];
    assert(rotation(path, separator, size, max_bytes, max_files) =~= removal + (moves + naming));
    lemma_steps_joined(files, removal, moves + naming);
    reveal_with_fuel(steps_done, 2);
    let cleared = steps_done(files, removal);
    assert(cleared == files.remove(oldest));
    lemma_steps_joined(cleared, moves, naming);
    lemma_shifts(cleared, path, separator, max_files - 1);
    let moved = steps_done(cleared, moves);
    let after = steps_done(moved, naming);
    assert(after == moved.remove(path).insert(older_copy(path, separator, 1), moved[path]));
    lemma_copies_distinct(path, separator, 1, max_files);
    assert forall|k: int| 1 <= k <= max_files implies path != #[trigger] older_copy(path, separator, k) by {
        lemma_copies_distinct(path, separator, k, 1);
    }
    assert(same_file(cleared, path, moved, path));
    assert(path != oldest);
    assert forall|k: int| 1 <= k < max_files implies same_file(
        files,
        #[trigger] older_copy(path, separator, k),
        after,
        older_copy(path, separator, k + 1),
    ) by {
        lemma_copies_distinct(path, separator, k, max_files);
        lemma_copies_distinct(path, separator, k + 1, 1);
        assert(same_file(files, older_copy(path, separator, k), cleared, older_copy(path, separator, k)));
        assert(same_file(cleared, older_copy(path, separator, k), moved, older_copy(path, separator, k + 1)));
    }
    assert forall|name: Seq<char>|
        name != path && (forall|k: int| 1 <= k <= max_files ==> name != older_copy(path, separator, k)) implies #[trigger] same_file(
        files,
        name,
        after,
        name,
    ) by {
        assert(name != oldest);
        assert(name != older_copy(path, separator, 1));
        assert(same_file(cleared, name, moved, name));
    }
}

}
