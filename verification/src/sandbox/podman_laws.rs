//! What always holds of commands that run Podman.
use vstd::prelude::*;

use crate::sandbox::podman::{
    backend_name, line_sandboxed, podman_among, podman_choice, quote, runs_podman_as, segments,
    unquoted, unquoted_end, unquoted_start, words, PodmanInvocation,
};
use crate::sandbox::shell::base_name;
use crate::text::white;
use crate::text_laws::{first_part_ends_at_the_separator, separator_starts_a_part};

verus! {

/// A word that stands before a command and is no command: nothing, or an
/// assignment.
pub open spec fn sets_something(token: Seq<char>) -> bool {
    token.len() == 0 || (token[0] != '=' && exists|i: int| 0 < i < token.len() && token[i] == '=')
}

/// One of the first `k` words is sudo.
pub open spec fn sudo_before(tokens: Seq<Seq<char>>, from: int, k: int) -> bool {
    exists|i: int|
        from <= i < k && !sets_something(unquoted(#[trigger] tokens[i])) && base_name(
            unquoted(tokens[i]),
        ) == "sudo"@
}

/// The word at `i` is passed over: it sets something, it is sudo or an option of
/// it, or it runs the command behind it.
pub open spec fn passed_over(tokens: Seq<Seq<char>>, from: int, sudo: bool, i: int) -> bool {
    let token = unquoted(tokens[i]);
    let name = base_name(token);
    ||| sets_something(token)
    ||| name == "sudo"@
    ||| (sudo || sudo_before(tokens, from, i)) && (name == "-n"@ || name == "--non-interactive"@)
    ||| name == "env"@ || name == "command"@ || name == "exec"@ || name == "nohup"@ || name
        == "rtk"@
}

proof fn lemma_assignment(token: Seq<char>)
    ensures
        sets_something(token) == (token.len() == 0 || crate::sandbox::podman::assignment(token)),
{
    if token.len() > 0 {
        if crate::sandbox::podman::assignment(token) {
            let i = choose|i: int| 0 <= i < token.len() && token[i] == '=';
            assert(0 < i < token.len() && token[i] == '=');
        }
        if sets_something(token) {
            let i = choose|i: int| 0 < i < token.len() && token[i] == '=';
            assert(token.contains('='));
        }
    }
}

proof fn lemma_words_differ()
    ensures
        "podman"@ != "sudo"@,
        "podman"@ != "-n"@,
        "podman"@ != "--non-interactive"@,
        "podman"@ != "env"@,
        "podman"@ != "command"@,
        "podman"@ != "exec"@,
        "podman"@ != "nohup"@,
        "podman"@ != "rtk"@,
{
    reveal_strlit("podman");
    reveal_strlit("sudo");
    reveal_strlit("-n");
    reveal_strlit("--non-interactive");
    reveal_strlit("env");
    reveal_strlit("command");
    reveal_strlit("exec");
    reveal_strlit("nohup");
    reveal_strlit("rtk");
    assert("podman"@.len() == 6);
}

/// A command is what the first word names that is not passed over. It runs Podman
/// exactly if that word does, and through sudo exactly if sudo stands before it.
#[verifier::rlimit(40)]
pub proof fn first_command_word_decides(
    tokens: Seq<Seq<char>>,
    from: int,
    sudo: bool,
    k: int,
)
    requires
        0 <= from <= k < tokens.len(),
        forall|i: int| from <= i < k ==> #[trigger] passed_over(tokens, from, sudo, i),
        !passed_over(tokens, from, sudo, k),
    ensures
        podman_among(tokens, from, sudo) == if base_name(unquoted(tokens[k])) == "podman"@ {
            Some(sudo || sudo_before(tokens, from, k))
        } else {
            None
        },
    decreases k - from,
{
    lemma_words_differ();
    let token = unquoted(tokens[from]);
    let name = base_name(token);
    lemma_assignment(token);
    lemma_sudo_first(tokens, from, k, sudo);
    if from < k {
        assert(passed_over(tokens, from, sudo, from));
        let next = sudo || (!sets_something(token) && name == "sudo"@);
        assert forall|i: int| from + 1 <= i < k implies #[trigger] passed_over(
            tokens,
            from + 1,
            next,
            i,
        ) by {
            assert(passed_over(tokens, from, sudo, i));
            lemma_sudo_first(tokens, from, i, sudo);
        }
        assert(!passed_over(tokens, from + 1, next, k));
        assert(!sudo_before(tokens, from, from));
        first_command_word_decides(tokens, from + 1, next, k);
    } else {
        assert(!sudo_before(tokens, from, from));
    }
}

proof fn lemma_sudo_first(tokens: Seq<Seq<char>>, from: int, k: int, sudo: bool)
    requires
        0 <= from <= k < tokens.len(),
    ensures
        ({
            let token = unquoted(tokens[from]);
            let next = sudo || (!sets_something(token) && base_name(token) == "sudo"@);
            from < k ==> (sudo || sudo_before(tokens, from, k)) == (next || sudo_before(
                tokens,
                from + 1,
                k,
            ))
        }),
{
    if from < k {
        if sudo_before(tokens, from + 1, k) {
            let i = choose|i: int|
                from + 1 <= i < k && !sets_something(unquoted(#[trigger] tokens[i])) && base_name(
                    unquoted(tokens[i]),
                ) == "sudo"@;
            assert(from <= i < k && !sets_something(unquoted(tokens[i])));
        }
        if sudo_before(tokens, from, k) {
            let i = choose|i: int|
                from <= i < k && !sets_something(unquoted(#[trigger] tokens[i])) && base_name(
                    unquoted(tokens[i]),
                ) == "sudo"@;
            if i > from {
                assert(from + 1 <= i < k && !sets_something(unquoted(tokens[i])));
            }
        }
        if !sets_something(unquoted(tokens[from])) && base_name(unquoted(tokens[from]))
            == "sudo"@ {
            assert(sudo_before(tokens, from, k));
        }
    }
}

/// Words that are all passed over run nothing.
pub proof fn no_command_word_runs_nothing(tokens: Seq<Seq<char>>, from: int, sudo: bool)
    requires
        0 <= from <= tokens.len(),
        forall|i: int|
            from <= i < tokens.len() ==> sets_something(unquoted(#[trigger] tokens[i])),
    ensures
        podman_among(tokens, from, sudo) is None,
    decreases tokens.len() - from,
{
    if from < tokens.len() {
        lemma_assignment(unquoted(tokens[from]));
        no_command_word_runs_nothing(tokens, from + 1, sudo);
    }
}

proof fn lemma_quotes_start(word: Seq<char>) -> (front: Seq<char>)
    ensures
        word == front + unquoted_start(word),
        forall|i: int| 0 <= i < front.len() ==> quote(#[trigger] front[i]),
        unquoted_start(word).len() > 0 ==> !quote(unquoted_start(word)[0]),
    decreases word.len(),
{
    if word.len() > 0 && quote(word[0]) {
        let rest = lemma_quotes_start(word.skip(1));
        let front = seq![word[0]] + rest;
        assert(word =~= seq![word[0]] + word.skip(1));
        assert(seq![word[0]] + (rest + unquoted_start(word)) =~= front + unquoted_start(word));
        assert forall|i: int| 0 <= i < front.len() implies quote(#[trigger] front[i]) by {
            if i > 0 {
                assert(front[i] == rest[i - 1]);
            }
        }
        front
    } else {
        assert(word =~= Seq::<char>::empty() + word);
        Seq::empty()
    }
}

proof fn lemma_quotes_end(word: Seq<char>) -> (back: Seq<char>)
    ensures
        word == unquoted_end(word) + back,
        forall|i: int| 0 <= i < back.len() ==> quote(#[trigger] back[i]),
        unquoted_end(word).len() > 0 ==> !quote(unquoted_end(word).last()),
    decreases word.len(),
{
    if word.len() > 0 && quote(word.last()) {
        let rest = lemma_quotes_end(word.drop_last());
        let back = rest.push(word.last());
        assert(word =~= word.drop_last().push(word.last()));
        assert((unquoted_end(word) + rest).push(word.last()) =~= unquoted_end(word) + back);
        assert forall|i: int| 0 <= i < back.len() implies quote(#[trigger] back[i]) by {
            if i < rest.len() {
                assert(back[i] == rest[i]);
            }
        }
        back
    } else {
        assert(word =~= word + Seq::<char>::empty());
        Seq::empty()
    }
}

/// A word loses the quotes at its ends, single and double ones, and nothing else.
pub proof fn only_quotes_are_taken_off(word: Seq<char>)
    ensures
        exists|front: Seq<char>, back: Seq<char>|
            {
                &&& word == #[trigger] (front + unquoted(word) + back)
                &&& forall|i: int|
                    0 <= i < front.len() ==> #[trigger] front[i] == '"' || front[i] == '\''
                &&& forall|i: int|
                    0 <= i < back.len() ==> #[trigger] back[i] == '"' || back[i] == '\''
            },
        unquoted(word).len() > 0 ==> unquoted(word)[0] != '"' && unquoted(word)[0] != '\''
            && unquoted(word).last() != '"' && unquoted(word).last() != '\'',
{
    let front = lemma_quotes_start(word);
    let middle = unquoted_start(word);
    let back = lemma_quotes_end(middle);
    assert(word =~= front + unquoted(word) + back);
    assert forall|i: int| 0 <= i < front.len() implies #[trigger] front[i] == '"' || front[i]
        == '\'' by {
        assert(quote(front[i]));
    }
    assert forall|i: int| 0 <= i < back.len() implies #[trigger] back[i] == '"' || back[i]
        == '\'' by {
        assert(quote(back[i]));
    }
    if unquoted(word).len() > 0 {
        assert(middle[0] == unquoted(word)[0]);
    }
}

/// A line is cut into commands at each of the characters | & ; ( ) < >.
pub proof fn operators_part_commands(front: Seq<char>, rest: Seq<char>, c: char)
    requires
        forall|i: int|
            0 <= i < front.len() ==> {
                let x = #[trigger] front[i];
                x != '|' && x != '&' && x != ';' && x != '(' && x != ')' && x != '<' && x != '>'
            },
        c == '|' || c == '&' || c == ';' || c == '(' || c == ')' || c == '<' || c == '>',
    ensures
        segments(front) == seq![front],
        segments(front.push(c) + rest) == seq![front] + segments(rest),
{
    let f = |c: char|
        if crate::sandbox::podman::operator(c) {
            '|'
        } else {
            c
        };
    assert(front.map_values(f) =~= front);
    assert(!front.contains('|'));
    assert((front.push(c) + rest).map_values(f) =~= front.push('|') + rest.map_values(f));
    first_part_ends_at_the_separator(front, '|', rest.map_values(f));
    separator_starts_a_part(front, '|', front);
}

/// A command is cut into words at white space.
pub proof fn white_space_parts_words(front: Seq<char>, rest: Seq<char>, c: char)
    requires
        forall|i: int| 0 <= i < front.len() ==> !white(#[trigger] front[i]),
        white(c),
    ensures
        words(front) == seq![front],
        words(front.push(c) + rest) == seq![front] + words(rest),
{
    let f = |c: char|
        if white(c) {
            ' '
        } else {
            c
        };
    assert(front.map_values(f) =~= front);
    assert(!front.contains(' ')) by {
        if front.contains(' ') {
            let i = choose|i: int| 0 <= i < front.len() && front[i] == ' ';
            assert(!white(front[i]));
        }
    }
    assert((front.push(c) + rest).map_values(f) =~= front.push(' ') + rest.map_values(f));
    first_part_ends_at_the_separator(front, ' ', rest.map_values(f));
    separator_starts_a_part(front, ' ', front);
}

/// A command runs in the sandbox exactly if the settings want it, it works, and
/// either the command does not run Podman, or it does so without sudo where
/// Podman works directly and was seen to work there.
pub proof fn sandbox_is_used_where_it_works(
    backend: Seq<char>,
    bwrap_ok: bool,
    invocation: PodmanInvocation,
    probe_ok: bool,
    line: Seq<char>,
)
    ensures
        line_sandboxed(backend, bwrap_ok, invocation, probe_ok, Some(line)) <==> {
            &&& backend == "auto"@ || backend == "bwrap"@
            &&& bwrap_ok
            &&& !runs_podman_as(line, true)
            &&& runs_podman_as(line, false) ==> probe_ok && (invocation == PodmanInvocation::Direct
                || invocation == PodmanInvocation::DirectWithSudoFallback)
        },
        line_sandboxed(backend, bwrap_ok, invocation, probe_ok, None) <==> bwrap_ok && (backend
            == "auto"@ || backend == "bwrap"@),
{
    crate::sandbox::podman::podman_is_direct_or_sudo(line);
}

/// Podman is run directly exactly where it works directly on Linux, and sudo is
/// for those alone who are not root.
pub proof fn podman_is_run_as_it_works(is_linux: bool, root: bool, direct: bool, sudo: bool)
    ensures
        ({
            let how = podman_choice(is_linux, root, direct, sudo);
            &&& (how == PodmanInvocation::Direct || how == PodmanInvocation::DirectWithSudoFallback)
                <==> is_linux && direct
            &&& how == PodmanInvocation::DirectWithSudoFallback ==> sudo && !root
            &&& is_linux && direct && sudo && !root ==> how
                == PodmanInvocation::DirectWithSudoFallback
            &&& how == PodmanInvocation::Sudo <==> is_linux && !direct && sudo && !root
        }),
{
}

/// The backend by default is the sandbox exactly where the settings want it and it works.
pub proof fn default_backend_is_the_sandbox_where_it_works(backend: Seq<char>, bwrap_ok: bool)
    ensures
        bwrap_ok && (backend == "auto"@ || backend == "bwrap"@) ==> backend_name(backend, bwrap_ok)
            == "bubblewrap"@,
        !bwrap_ok || (backend != "auto"@ && backend != "bwrap"@) ==> backend_name(backend, bwrap_ok)
            == "native"@,
{
}

}
