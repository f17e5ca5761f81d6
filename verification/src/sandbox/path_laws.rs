//! What always holds of the paths of a project.
use vstd::prelude::*;

use crate::error::ErrorView;
use crate::sandbox::command::{components_text, sandbox_directory, slashed};
use crate::sandbox::paths::{
    appended, as_prefix, child_path, components_refusal, is_absolute, leads_up, named_parts,
    path_components, path_names, path_refusal, unified, within,
};
use crate::search::{lemma_split_not_empty, replaced, split};
use crate::text::utf8_len;
use crate::text_laws::{
    joined, one_character_is_replaced_in_place, parts_join_to_the_text, separator_starts_a_part,
};

verus! {

/// A name that a directory can have an entry under.
pub open spec fn plain_name(name: Seq<char>, separator: char) -> bool {
    &&& name.len() > 0
    &&& name != "."@
    &&& !name.contains('/')
    &&& !name.contains(separator)
}

/// The names of a path are those before a slash and those behind it. A single
/// name is that of its path, a dot is none, and neither is nothing.
pub proof fn slash_stands_between_names(front: Seq<char>, part: Seq<char>)
    requires
        !part.contains('/'),
    ensures
        path_names(front.push('/') + part) == if part.len() == 0 || part == "."@ {
            path_names(front)
        } else {
            path_names(front).push(part)
        },
        path_names(part) == if part.len() == 0 || part == "."@ {
            Seq::<Seq<char>>::empty()
        } else {
            seq![part]
        },
{
    separator_starts_a_part(front, '/', part);
    let parts = split(front.push('/') + part, '/');
    assert(parts.drop_last() =~= split(front, '/'));
    let alone = split(part, '/');
    assert(alone.drop_last() =~= Seq::<Seq<char>>::empty());
    assert(named_parts(alone.drop_last()) =~= Seq::<Seq<char>>::empty());
    assert(path_names(part) =~= if part.len() == 0 || part == "."@ {
        Seq::<Seq<char>>::empty()
    } else {
        seq![part]
    });
}

#[verifier::rlimit(40)]
proof fn lemma_named_parts_among(parts: Seq<Seq<char>>)
    ensures
        forall|name: Seq<char>| #[trigger]
            named_parts(parts).contains(name) <==> parts.contains(name) && name.len() > 0 && name
                != "."@,
    decreases parts.len(),
{
    if parts.len() > 0 {
        let rest = parts.drop_last();
        let last = parts.last();
        lemma_named_parts_among(rest);
        assert forall|name: Seq<char>| #[trigger] named_parts(parts).contains(name) <==> (
        parts.contains(name) && name.len() > 0 && name != "."@) by {
            let before = named_parts(rest);
            let now = named_parts(parts);
            assert(parts[parts.len() - 1] == last);
            if rest.contains(name) {
                let i = choose|i: int| 0 <= i < rest.len() && rest[i] == name;
                assert(parts[i] == name);
            }
            if parts.contains(name) && name != last {
                let i = choose|i: int| 0 <= i < parts.len() && parts[i] == name;
                assert(rest[i] == name);
            }
            if before.contains(name) {
                let i = choose|i: int| 0 <= i < before.len() && before[i] == name;
                assert(now[i] == name);
            }
            if now.contains(name) && name != last {
                let i = choose|i: int| 0 <= i < now.len() && now[i] == name;
                assert(before[i] == name);
            }
            if name == last && name.len() > 0 && name != "."@ {
                assert(now[now.len() - 1] == name);
            }
            if name == last && now.contains(name) && (name.len() == 0 || name == "."@) {
                assert(before.contains(name));
            }
        }
    }
}

proof fn lemma_up(path: Seq<char>)
    ensures
        leads_up(path) <==> exists|i: int|
            0 <= i < split(path, '/').len() && #[trigger] split(path, '/')[i] == ".."@,
{
    reveal_strlit("..");
    reveal_strlit(".");
    let parts = split(path, '/');
    lemma_named_parts_among(parts);
    assert(".."@.len() != "."@.len());
    assert(leads_up(path) == named_parts(parts).contains(".."@));
    if parts.contains(".."@) {
        let i = choose|i: int| 0 <= i < parts.len() && parts[i] == ".."@;
        assert(parts[i] == ".."@);
    }
}

/// Where a slash separates names, a path is accepted exactly if it has 1 to 4096
/// bytes, no NUL character and no backslash, does not start at the root, and no
/// part of it between slashes is two dots.
pub proof fn acceptable_path_is_accepted(path: Seq<char>)
    ensures
        path_refusal(path, '/') is None <==> {
            &&& 0 < path.len() && utf8_len(path) <= 4096
            &&& !path.contains('\0')
            &&& !path.contains('\\')
            &&& path[0] != '/'
            &&& forall|i: int|
                0 <= i < split(path, '/').len() ==> #[trigger] split(path, '/')[i] != ".."@
        },
        components_refusal(path) is None <==> path_refusal(path, '/') is None && exists|i: int|
            0 <= i < split(path, '/').len() && (#[trigger] split(path, '/')[i]).len() > 0 && split(
                path,
                '/',
            )[i] != "."@,
{
    lemma_up(path);
    let parts = split(path, '/');
    lemma_named_parts_among(parts);
    let names = path_names(path);
    if names.len() > 0 {
        assert(names.contains(names[0]));
        let i = choose|i: int| 0 <= i < parts.len() && parts[i] == names[0];
        assert(parts[i].len() > 0);
    }
    if exists|i: int| 0 <= i < parts.len() && (#[trigger] parts[i]).len() > 0 && parts[i] != "."@ {
        let i = choose|i: int|
            0 <= i < parts.len() && (#[trigger] parts[i]).len() > 0 && parts[i] != "."@;
        assert(parts.contains(parts[i]));
        assert(names.contains(parts[i]));
    }
}

/// Where a backslash separates names, a path that starts with a drive is refused
/// besides, with or without a root behind it.
pub proof fn drives_are_refused(path: Seq<char>)
    requires
        path.len() >= 2,
        'a' <= path[0] <= 'z' || 'A' <= path[0] <= 'Z',
        path[1] == ':',
    ensures
        path_refusal(path, '\\') is Some,
{
}

/// The path of a name in a directory: one separator between them.
pub proof fn child_is_behind_one_separator(
    parent: Seq<char>,
    name: Seq<char>,
    separator: char,
)
    requires
        parent.len() > 0,
    ensures
        parent.last() == '/' || parent.last() == separator ==> child_path(parent, name, separator)
            == parent + name,
        parent.last() != '/' && parent.last() != separator ==> child_path(parent, name, separator)
            == parent + seq![separator] + name,
{
    if parent.last() != '/' && parent.last() != separator {
        assert(child_path(parent, name, separator) =~= parent + seq![separator] + name);
    }
}

/// A path with names behind it is that path and the names, a separator before
/// each.
pub proof fn appended_names_follow_the_path(
    path: Seq<char>,
    names: Seq<Seq<char>>,
    from: int,
    separator: char,
)
    requires
        path.len() > 0,
        path.last() != '/' && path.last() != separator,
        0 <= from < names.len(),
        forall|i: int| 0 <= i < names.len() ==> plain_name(#[trigger] names[i], separator),
    ensures
        appended(path, names, from, separator) == path + seq![separator] + joined(
            names.skip(from),
            separator,
        ),
    decreases names.len() - from,
{
    let name = names[from];
    assert(plain_name(name, separator));
    assert(name.contains(name.last())) by {
        assert(name[name.len() - 1] == name.last());
    }
    let next = child_path(path, name, separator);
    child_is_behind_one_separator(path, name, separator);
    assert(next.last() == name.last());
    let rest = names.skip(from);
    if from + 1 < names.len() {
        appended_names_follow_the_path(next, names, from + 1, separator);
        assert(names.skip(from + 1) =~= rest.skip(1));
        lemma_joined_front(rest, separator);
        assert(next + seq![separator] + joined(rest.skip(1), separator) =~= path + seq![separator]
            + joined(rest, separator));
    } else {
        assert(appended(next, names, from + 1, separator) == next);
        assert(rest =~= seq![name]);
    }
}

proof fn lemma_joined_front(parts: Seq<Seq<char>>, c: char)
    requires
        parts.len() > 1,
    ensures
        joined(parts, c) == parts[0] + seq![c] + joined(parts.skip(1), c),
    decreases parts.len(),
{
    let rest = parts.skip(1);
    if parts.len() == 2 {
        assert(parts.drop_last() =~= seq![parts[0]]);
        assert(rest =~= seq![parts[1]]);
        assert(joined(parts.drop_last(), c) == parts[0]);
        assert(joined(rest, c) == parts[1]);
        assert(joined(parts, c) =~= parts[0] + seq![c] + parts[1]);
    } else {
        lemma_joined_front(parts.drop_last(), c);
        assert(parts.drop_last().skip(1) =~= rest.drop_last());
        assert(joined(parts, c) =~= parts[0] + seq![c] + joined(rest, c));
    }
}

/// A name in a directory has the directory's components, and itself as one more.
/// So what stands in a directory is within it, and two names never stand in each
/// other.
#[verifier::rlimit(40)]
pub proof fn child_adds_a_component(parent: Seq<char>, name: Seq<char>, separator: char)
    requires
        parent.len() > 0,
        plain_name(name, separator),
    ensures
        path_components(child_path(parent, name, separator), separator) == path_components(
            parent,
            separator,
        ).push(name),
{
    let child = child_path(parent, name, separator);
    let front = as_prefix(parent, separator);
    let plain = unified(child, separator);
    let above = unified(parent, separator);
    let inner = unified(front.drop_last(), separator);
    assert(unified(name, separator) =~= name) by {
        assert forall|i: int| 0 <= i < name.len() implies name[i] != separator by {
            assert(name.contains(name[i]));
        }
    }
    assert(plain =~= inner.push('/') + name);
    slash_stands_between_names(inner, name);
    separator_starts_a_part(inner, '/', name);
    lemma_split_not_empty(inner, '/');
    if parent.last() == '/' || parent.last() == separator {
        assert(above =~= inner.push('/'));
        assert(inner.push('/') =~= inner.push('/') + Seq::<char>::empty());
        slash_stands_between_names(inner, Seq::empty());
        separator_starts_a_part(inner, '/', Seq::empty());
    } else {
        assert(above =~= inner);
    }
    assert(split(plain, '/')[0] == split(inner, '/')[0]);
    assert(split(above, '/')[0] == split(inner, '/')[0]);
    assert(plain[0] == above[0]) by {
        assert(child[0] == parent[0]);
    }
    assert(path_components(child, separator) =~= path_components(parent, separator).push(name));
}

/// Entries of one directory under different names are apart: neither is within
/// the other.
pub proof fn siblings_are_apart(
    parent: Seq<char>,
    a: Seq<char>,
    b: Seq<char>,
    separator: char,
)
    requires
        parent.len() > 0,
        plain_name(a, separator),
        plain_name(b, separator),
        a != b,
    ensures
        within(child_path(parent, a, separator), parent, separator),
        !within(child_path(parent, a, separator), child_path(parent, b, separator), separator),
        !within(parent, child_path(parent, a, separator), separator),
{
    child_adds_a_component(parent, a, separator);
    child_adds_a_component(parent, b, separator);
    let base = path_components(parent, separator);
    assert(base.push(a).subrange(0, base.len() as int) =~= base);
    let n = base.len() as int;
    if base.push(b).is_prefix_of(base.push(a)) {
        assert(base.push(a).subrange(0, n + 1)[n] == a);
        assert(base.push(b)[n] == b);
    }
}

/// The root of a project is /workspace in the sandbox, and what stands in a
/// directory of it stands in that directory there.
#[verifier::rlimit(40)]
pub proof fn sandbox_keeps_the_way_to_a_directory(
    workdir: Seq<char>,
    name: Seq<char>,
    root: Seq<char>,
)
    requires
        root.len() > 0,
        workdir.len() > 0,
        within(workdir, root, '/'),
        plain_name(name, '/'),
        !name.contains('\\'),
    ensures
        sandbox_directory(root, root) == "/workspace"@,
        sandbox_directory(child_path(workdir, name, '/'), root) == sandbox_directory(workdir, root)
            + seq!['/'] + name,
{
    let base = path_components(root, '/');
    let above = path_components(workdir, '/');
    let n = base.len() as int;
    assert(base.skip(n).len() == 0);
    child_adds_a_component(workdir, name, '/');
    let rest = above.skip(n);
    assert(above.push(name).skip(n) =~= rest.push(name));
    let text = components_text(rest);
    let more = components_text(rest.push(name));
    reveal_strlit("\\");
    reveal_strlit("/");
    reveal_strlit("/workspace/");
    reveal_strlit("/workspace");
    assert("\\"@ =~= seq!['\\']);
    assert("/"@ =~= seq!['/']);
    one_character_is_replaced_in_place(text, '\\', '/');
    one_character_is_replaced_in_place(more, '\\', '/');
    one_character_is_replaced_in_place(name, '\\', '/');
    assert forall|i: int| 0 <= i < name.len() implies name[i] != '\\' by {
        assert(name.contains(name[i]));
    }
    assert(replaced(name, "\\"@, "/"@) =~= name);
    lemma_components(root);
    lemma_components(workdir);
    if rest.len() == 0 {
        assert(rest.push(name) =~= seq![name]);
        assert(name != "/"@) by {
            assert(name.contains(name[0]));
        }
        assert(more == name);
        assert(sandbox_directory(child_path(workdir, name, '/'), root) =~= "/workspace"@ + seq!['/']
            + name);
    } else {
        assert(rest[0] == above[n]);
        assert(n > 0);
        assert(!above[n].contains('/'));
        assert(rest[0] != "/"@) by {
            if rest[0] == "/"@ {
                assert(rest[0][0] == '/');
            }
        }
        assert(rest.push(name).drop_last() =~= rest);
        assert(more == text + "/"@ + name);
        assert(replaced(more, "\\"@, "/"@) =~= replaced(text, "\\"@, "/"@) + seq!['/'] + name);
        assert(sandbox_directory(child_path(workdir, name, '/'), root) =~= sandbox_directory(
            workdir,
            root,
        ) + seq!['/'] + name);
    }
}

proof fn lemma_components(path: Seq<char>)
    requires
        path.len() > 0,
    ensures
        path_components(path, '/').len() > 0,
        forall|i: int|
            1 <= i < path_components(path, '/').len() ==> !(#[trigger] path_components(
                path,
                '/',
            )[i]).contains('/'),
{
    let plain = unified(path, '/');
    let parts = split(plain, '/');
    let all = path_components(path, '/');
    let names = path_names(plain);
    parts_join_to_the_text(plain, '/');
    lemma_named_parts_among(parts);
    assert forall|i: int| 0 <= i < names.len() implies !(#[trigger] names[i]).contains('/') by {
        assert(names.contains(names[i]));
        let k = choose|k: int| 0 <= k < parts.len() && parts[k] == names[i];
        assert(!parts[k].contains('/'));
    }
    if plain[0] == '/' || parts[0] == "."@ {
        assert forall|i: int| 1 <= i < all.len() implies !(#[trigger] all[i]).contains('/') by {
            assert(all[i] == names[i - 1]);
        }
    } else {
        lemma_first_part(plain);
        assert(parts.contains(parts[0]));
        assert(names.contains(parts[0]));
    }
}

proof fn lemma_first_part(text: Seq<char>)
    requires
        text.len() > 0,
        text[0] != '/',
    ensures
        split(text, '/')[0].len() > 0,
    decreases text.len(),
{
    lemma_split_not_empty(text.drop_last(), '/');
    if text.len() > 1 {
        lemma_first_part(text.drop_last());
    } else {
        assert(text.drop_last() =~= Seq::<char>::empty());
        assert(split(text.drop_last(), '/') =~= seq![Seq::<char>::empty()]);
    }
}

/// Where a backslash separates names, a path is absolute that starts with a drive and its
/// root, or with a server and a share; where a slash does, one that starts with it.
pub proof fn absolute_paths_start_at_a_root(
    letter: char,
    server: Seq<char>,
    share: Seq<char>,
    rest: Seq<char>,
)
    requires
        'a' <= letter <= 'z' || 'A' <= letter <= 'Z',
        server.len() > 0 && !server.contains('/'),
        share.len() > 0 && !share.contains('/'),
    ensures
        is_absolute(seq![letter, ':', '/'] + rest, '\\'),
        !is_absolute(seq![letter, ':'] + server, '\\'),
        is_absolute(seq!['/', '/'] + (server.push('/') + share), '\\'),
        !is_absolute(seq!['/'] + server, '\\'),
        is_absolute(seq!['/'] + rest, '/'),
        !is_absolute(server, '/'),
{
    assert(server.contains(server[0]));
    let path = seq!['/', '/'] + (server.push('/') + share);
    assert(path.skip(2) =~= server.push('/') + share);
    separator_starts_a_part(server, '/', share);
    separator_starts_a_part(server, '/', server);
    assert(split(path.skip(2), '/') =~= seq![server, share]);
}

}
