//! Commands that run Podman, and whether they run in the sandbox.
use vstd::prelude::*;

use crate::sandbox::shell::{base_name, find_base_name};
use crate::search::{has_char, split, split_text, texts};
use crate::text::{from_chars, is_white, to_chars, white};

verus! {

/// How Podman is run on this machine.
#[derive(Clone, Copy, Debug, PartialEq, Eq, Structural)]
pub enum PodmanInvocation {
    Direct,
    DirectWithSudoFallback,
    Sudo,
    Unavailable,
}

pub open spec fn advice(invocation: PodmanInvocation) -> Seq<char> {
    match invocation {
        PodmanInvocation::Direct => "Linux Podman is available directly; invoke it explicitly as `podman ...`. No passwordless sudo fallback was detected, so do not invent `sudo podman` if a direct command fails. For interactive `podman run -it`, use exec_command with tty=true."@,
        PodmanInvocation::DirectWithSudoFallback => "Linux Podman is available directly and a passwordless rootful fallback is verified. Start with `podman ...`; if that direct Podman operation fails with a rootless runtime error such as `crun`, mount/`/proc`, `Operation not permitted`, permission, or user-namespace failure, retry the same Podman operation once as `sudo -n podman ...` before changing flags, images, or sandbox settings. Explicit `sudo -n podman ...` runs outside Bubblewrap. For interactive `podman run -it`, use exec_command with tty=true."@,
        PodmanInvocation::Sudo => "Linux Podman requires rootful execution in this runtime; invoke it explicitly as `sudo -n podman ...` and do not rely on shell aliases. Explicit `sudo -n podman ...` runs outside Bubblewrap. For interactive `podman run -it`, use exec_command with tty=true."@,
        PodmanInvocation::Unavailable => "Podman is only probed and enabled by CodexBridge on Linux, and no usable Linux Podman invocation was detected for this runtime; do not assume `podman` or `sudo podman` is available."@,
    }
}

impl PodmanInvocation {
    pub fn agent_advice(self) -> (text: &'static str)
        ensures
            text@ == advice(self),
    {
        match self {
            PodmanInvocation::Direct => "Linux Podman is available directly; invoke it explicitly as `podman ...`. No passwordless sudo fallback was detected, so do not invent `sudo podman` if a direct command fails. For interactive `podman run -it`, use exec_command with tty=true.",
            PodmanInvocation::DirectWithSudoFallback => "Linux Podman is available directly and a passwordless rootful fallback is verified. Start with `podman ...`; if that direct Podman operation fails with a rootless runtime error such as `crun`, mount/`/proc`, `Operation not permitted`, permission, or user-namespace failure, retry the same Podman operation once as `sudo -n podman ...` before changing flags, images, or sandbox settings. Explicit `sudo -n podman ...` runs outside Bubblewrap. For interactive `podman run -it`, use exec_command with tty=true.",
            PodmanInvocation::Sudo => "Linux Podman requires rootful execution in this runtime; invoke it explicitly as `sudo -n podman ...` and do not rely on shell aliases. Explicit `sudo -n podman ...` runs outside Bubblewrap. For interactive `podman run -it`, use exec_command with tty=true.",
            PodmanInvocation::Unavailable => "Podman is only probed and enabled by CodexBridge on Linux, and no usable Linux Podman invocation was detected for this runtime; do not assume `podman` or `sudo podman` is available.",
        }
    }
}

/// How Podman is run, given what works: only on Linux, directly where that
/// works, and through sudo for those who are not root.
pub open spec fn podman_choice(is_linux: bool, root: bool, direct: bool, sudo: bool) -> PodmanInvocation {
    if !is_linux {
        PodmanInvocation::Unavailable
    } else if direct {
        if !root && sudo {
            PodmanInvocation::DirectWithSudoFallback
        } else {
            PodmanInvocation::Direct
        }
    } else if !root && sudo {
        PodmanInvocation::Sudo
    } else {
        PodmanInvocation::Unavailable
    }
}

pub fn select_podman_invocation(
    is_linux: bool,
    running_as_root: bool,
    direct_usable: bool,
    sudo_usable: bool,
) -> (invocation: PodmanInvocation)
    ensures
        invocation == podman_choice(is_linux, running_as_root, direct_usable, sudo_usable),
{
    if !is_linux {
        PodmanInvocation::Unavailable
    } else if direct_usable && !running_as_root && sudo_usable {
        PodmanInvocation::DirectWithSudoFallback
    } else if direct_usable {
        PodmanInvocation::Direct
    } else if !running_as_root && sudo_usable {
        PodmanInvocation::Sudo
    } else {
        PodmanInvocation::Unavailable
    }
}

/// A command that shows by its exit status whether something works.
pub struct Probe {
    pub program: &'static str,
    pub args: Vec<&'static str>,
}

pub open spec fn probe_args(args: Seq<&'static str>) -> Seq<Seq<char>> {
    args.map_values(|arg: &'static str| arg@)
}

/// Whether Podman works directly is tried on Linux alone. For those who are not
/// root, the trial starts the namespaces that a container needs: Podman may
/// answer although it cannot start one.
pub fn probe_direct_podman_runtime(is_linux: bool, running_as_root: bool) -> (probe: Option<Probe>)
    ensures
        match probe {
            None => !is_linux,
            Some(probe) => is_linux && if running_as_root {
                probe.program@ == "podman"@ && probe_args(probe.args@) == seq![
                    "info"@,
                    "--format"@,
                    "json"@,
                ]
            } else {
                probe.program@ == "/bin/sh"@ && probe_args(probe.args@) == seq![
                    "-c"@,
                    "rootless=$(podman info --format '{{.Host.Security.Rootless}}' 2>/dev/null) || exit 1; if [ \"$rootless\" = false ]; then exit 0; fi; [ \"$rootless\" = true ] || exit 1; command -v unshare >/dev/null 2>&1 || exit 0; exec podman unshare unshare --mount --pid --fork --mount-proc true"@,
                ]
            },
        },
{
    if !is_linux {
        return None;
    }
    let mut args: Vec<&'static str> = Vec::new();
    if running_as_root {
        args.push("info");
        args.push("--format");
        args.push("json");
        proof {
            assert(probe_args(args@) =~= seq!["info"@, "--format"@, "json"@]);
        }
        Some(Probe { program: "podman", args })
    } else {
        args.push("-c");
        args.push(
            "rootless=$(podman info --format '{{.Host.Security.Rootless}}' 2>/dev/null) || exit 1; if [ \"$rootless\" = false ]; then exit 0; fi; [ \"$rootless\" = true ] || exit 1; command -v unshare >/dev/null 2>&1 || exit 0; exec podman unshare unshare --mount --pid --fork --mount-proc true",
        );
        proof {
            assert(probe_args(args@) =~= seq![
                "-c"@,
                "rootless=$(podman info --format '{{.Host.Security.Rootless}}' 2>/dev/null) || exit 1; if [ \"$rootless\" = false ]; then exit 0; fi; [ \"$rootless\" = true ] || exit 1; command -v unshare >/dev/null 2>&1 || exit 0; exec podman unshare unshare --mount --pid --fork --mount-proc true"@,
            ]);
        }
        Some(Probe { program: "/bin/sh", args })
    }
}

/// Whether the sandbox works is tried on Linux, where it is installed.
pub fn probe_bwrap(is_linux: bool, installed: bool) -> (probe: Option<Probe>)
    ensures
        match probe {
            None => !is_linux || !installed,
            Some(probe) => is_linux && installed && probe.program@ == "/usr/bin/bwrap"@
                && probe_args(probe.args@) == seq![
                "--unshare-all"@,
                "--share-net"@,
                "--die-with-parent"@,
                "--ro-bind"@,
                "/"@,
                "/"@,
                "--proc"@,
                "/proc"@,
                "--dev"@,
                "/dev"@,
                "/bin/true"@,
            ],
        },
{
    if !is_linux || !installed {
        return None;
    }
    let mut args: Vec<&'static str> = Vec::new();
    args.push("--unshare-all");
    args.push("--share-net");
    args.push("--die-with-parent");
    args.push("--ro-bind");
    args.push("/");
    args.push("/");
    args.push("--proc");
    args.push("/proc");
    args.push("--dev");
    args.push("/dev");
    args.push("/bin/true");
    proof {
        assert(probe_args(args@) =~= seq![
            "--unshare-all"@,
            "--share-net"@,
            "--die-with-parent"@,
            "--ro-bind"@,
            "/"@,
            "/"@,
            "--proc"@,
            "/proc"@,
            "--dev"@,
            "/dev"@,
            "/bin/true"@,
        ]);
    }
    Some(Probe { program: "/usr/bin/bwrap", args })
}

/// Whether Podman works through sudo is tried on Linux, for those who are not
/// root.
pub fn probe_sudo_podman(is_linux: bool, running_as_root: bool) -> (probe: Option<Probe>)
    ensures
        match probe {
            None => !is_linux || running_as_root,
            Some(probe) => is_linux && !running_as_root && probe.program@ == "sudo"@ && probe_args(
                probe.args@,
            ) == seq!["-n"@, "podman"@, "info"@, "--format"@, "json"@],
        },
{
    if !is_linux || running_as_root {
        return None;
    }
    let mut args: Vec<&'static str> = Vec::new();
    args.push("-n");
    args.push("podman");
    args.push("info");
    args.push("--format");
    args.push("json");
    proof {
        assert(probe_args(args@) =~= seq!["-n"@, "podman"@, "info"@, "--format"@, "json"@]);
    }
    Some(Probe { program: "sudo", args })
}

/// Characters that end a command in a shell.
pub open spec fn operator(c: char) -> bool {
    c == '|' || c == '&' || c == ';' || c == '(' || c == ')' || c == '<' || c == '>'
}

/// The commands of a shell line.
pub open spec fn segments(command: Seq<char>) -> Seq<Seq<char>> {
    split(
        command.map_values(
            |c: char|
                if operator(c) {
                    '|'
                } else {
                    c
                },
        ),
        '|',
    )
}

/// The words of a text.
pub open spec fn words(text: Seq<char>) -> Seq<Seq<char>> {
    split(
        text.map_values(
            |c: char|
                if white(c) {
                    ' '
                } else {
                    c
                },
        ),
        ' ',
    )
}

pub open spec fn quote(c: char) -> bool {
    c == '\'' || c == '"'
}

/// A word without quotes at its start.
pub open spec fn unquoted_start(word: Seq<char>) -> Seq<char>
    decreases word.len(),
{
    if word.len() > 0 && quote(word[0]) {
        unquoted_start(word.skip(1))
    } else {
        word
    }
}

pub open spec fn unquoted_end(word: Seq<char>) -> Seq<char>
    decreases word.len(),
{
    if word.len() > 0 && quote(word.last()) {
        unquoted_end(word.drop_last())
    } else {
        word
    }
}

pub open spec fn unquoted(word: Seq<char>) -> Seq<char> {
    unquoted_end(unquoted_start(word))
}

/// An assignment before a command.
pub open spec fn assignment(word: Seq<char>) -> bool {
    word.contains('=') && word[0] != '='
}

/// Commands that run the command behind them.
pub open spec fn forwarder(name: Seq<char>) -> bool {
    name == "env"@ || name == "command"@ || name == "exec"@ || name == "nohup"@ || name == "rtk"@
}

/// Whether the words from `from` on run Podman: none where they run something
/// else, and whether they do so through sudo.
pub open spec fn podman_among(tokens: Seq<Seq<char>>, from: int, sudo: bool) -> Option<bool>
    decreases tokens.len() - from,
{
    if from < 0 || from >= tokens.len() {
        None
    } else {
        let token = unquoted(tokens[from]);
        let name = base_name(token);
        if token.len() == 0 || assignment(token) {
            podman_among(tokens, from + 1, sudo)
        } else if name == "sudo"@ {
            podman_among(tokens, from + 1, true)
        } else if sudo && (name == "-n"@ || name == "--non-interactive"@) {
            podman_among(tokens, from + 1, sudo)
        } else if forwarder(name) {
            podman_among(tokens, from + 1, sudo)
        } else if name == "podman"@ {
            Some(sudo)
        } else {
            None
        }
    }
}

pub open spec fn podman_in_segment(segment: Seq<char>) -> Option<bool> {
    podman_among(words(segment), 0, false)
}

/// Some command of the line runs Podman.
pub open spec fn runs_podman(command: Seq<char>) -> bool {
    exists|i: int|
        0 <= i < segments(command).len() && podman_in_segment(#[trigger] segments(command)[i])
            is Some
}

/// Some command of the line runs Podman, through sudo or not, as asked.
pub open spec fn runs_podman_as(command: Seq<char>, sudo: bool) -> bool {
    exists|i: int|
        0 <= i < segments(command).len() && podman_in_segment(#[trigger] segments(command)[i])
            == Some(sudo)
}

fn mark_all(text: &str, operators: bool) -> (r: String)
    ensures
        operators ==> r@ == text@.map_values(
            |c: char|
                if operator(c) {
                    '|'
                } else {
                    c
                },
        ),
        !operators ==> r@ == text@.map_values(
            |c: char|
                if white(c) {
                    ' '
                } else {
                    c
                },
        ),
{
    let chars = to_chars(text);
    let mut r = String::new();
    let mut i: usize = 0;
    while i < chars.len()
        invariant
            i <= chars@.len(),
            chars@ == text@,
            r@.len() == i,
            forall|j: int|
                0 <= j < i ==> #[trigger] r@[j] == if operators {
                    if operator(chars@[j]) {
                        '|'
                    } else {
                        chars@[j]
                    }
                } else if white(chars@[j]) {
                    ' '
                } else {
                    chars@[j]
                },
        decreases chars.len() - i,
    {
        let c = chars[i];
        if operators {
            if c == '|' || c == '&' || c == ';' || c == '(' || c == ')' || c == '<' || c == '>' {
                r.push('|');
            } else {
                r.push(c);
            }
        } else if is_white(c) {
            r.push(' ');
        } else {
            r.push(c);
        }
        i += 1;
    }
    proof {
        if operators {
            assert(r@ =~= text@.map_values(
                |c: char|
                    if operator(c) {
                        '|'
                    } else {
                        c
                    },
            ));
        } else {
            assert(r@ =~= text@.map_values(
                |c: char|
                    if white(c) {
                        ' '
                    } else {
                        c
                    },
            ));
        }
    }
    r
}

fn strip_quotes(word: &str) -> (r: String)
    ensures
        r@ == unquoted(word@),
{
    let chars = to_chars(word);
    let mut start: usize = 0;
    proof {
        assert(chars@.skip(0) =~= word@);
    }
    while start < chars.len() && (chars[start] == '\'' || chars[start] == '"')
        invariant
            start <= chars@.len(),
            chars@ == word@,
            unquoted_start(word@) == unquoted_start(chars@.skip(start as int)),
        decreases chars.len() - start,
    {
        proof {
            assert(chars@.skip(start as int).skip(1) =~= chars@.skip(start + 1));
        }
        start += 1;
    }
    let mut end: usize = chars.len();
    proof {
        assert(chars@.skip(start as int) =~= chars@.subrange(start as int, end as int));
    }
    while start < end && (chars[end - 1] == '\'' || chars[end - 1] == '"')
        invariant
            start <= end <= chars@.len(),
            chars@ == word@,
            unquoted(word@) == unquoted_end(chars@.subrange(start as int, end as int)),
        decreases end - start,
    {
        proof {
            assert(chars@.subrange(start as int, end as int).drop_last() =~= chars@.subrange(
                start as int,
                end - 1,
            ));
        }
        end -= 1;
    }
    from_chars(&chars, start, end)
}

fn is_assignment(word: &str) -> (r: bool)
    requires
        word@.len() > 0,
    ensures
        r == assignment(word@),
{
    let chars = to_chars(word);
    has_char(word, '=') && chars[0] != '='
}

fn is_forwarder(name: &str) -> (r: bool)
    ensures
        r == forwarder(name@),
{
    name.eq("env") || name.eq("command") || name.eq("exec") || name.eq("nohup") || name.eq("rtk")
}

/// Whether one command of a shell line runs Podman, and whether through sudo.
pub fn segment_podman_invocation(segment: &str) -> (r: Option<bool>)
    ensures
        r == podman_in_segment(segment@),
{
    let tokens = split_text(mark_all(segment, false).as_str(), ' ');
    let ghost all = texts(tokens@);
    let mut saw_sudo = false;
    let mut i: usize = 0;
    while i < tokens.len()
        invariant
            i <= tokens@.len(),
            all == texts(tokens@),
            podman_in_segment(segment@) == podman_among(all, i as int, saw_sudo),
        decreases tokens.len() - i,
    {
        let token = strip_quotes(tokens[i].as_str());
        proof {
            assert(all[i as int] == tokens@[i as int]@);
        }
        if token.as_str().is_empty() || is_assignment(token.as_str()) {
            i += 1;
            continue;
        }
        let base = find_base_name(token.as_str());
        let name = base.as_str();
        if name.eq("sudo") {
            saw_sudo = true;
        } else if (saw_sudo && (name.eq("-n") || name.eq("--non-interactive"))) || is_forwarder(
            name,
        ) {
        } else {
            return if name.eq("podman") {
                Some(saw_sudo)
            } else {
                None
            };
        }
        i += 1;
    }
    None
}

fn split_segments(command: &str) -> (parts: Vec<String>)
    ensures
        texts(parts@) == segments(command@),
{
    split_text(mark_all(command, true).as_str(), '|')
}

pub fn invokes_podman(command: &str) -> (r: bool)
    ensures
        r == runs_podman(command@),
{
    let parts = split_segments(command);
    let ghost all = texts(parts@);
    let mut i: usize = 0;
    while i < parts.len()
        invariant
            i <= parts@.len(),
            all == texts(parts@),
            all == segments(command@),
            forall|j: int| 0 <= j < i ==> podman_in_segment(#[trigger] all[j]) is None,
        decreases parts.len() - i,
    {
        proof {
            assert(all[i as int] == parts@[i as int]@);
        }
        if segment_podman_invocation(parts[i].as_str()).is_some() {
            return true;
        }
        i += 1;
    }
    false
}

fn invokes_podman_as(command: &str, sudo: bool) -> (r: bool)
    ensures
        r == runs_podman_as(command@, sudo),
{
    let parts = split_segments(command);
    let ghost all = texts(parts@);
    let mut i: usize = 0;
    while i < parts.len()
        invariant
            i <= parts@.len(),
            all == texts(parts@),
            all == segments(command@),
            forall|j: int| 0 <= j < i ==> podman_in_segment(#[trigger] all[j]) != Some(sudo),
        decreases parts.len() - i,
    {
        proof {
            assert(all[i as int] == parts@[i as int]@);
        }
        if let Some(found) = segment_podman_invocation(parts[i].as_str()) {
            if found == sudo {
                return true;
            }
        }
        i += 1;
    }
    false
}

pub fn invokes_sudo_podman(command: &str) -> (r: bool)
    ensures
        r == runs_podman_as(command@, true),
{
    invokes_podman_as(command, true)
}

pub fn invokes_direct_podman(command: &str) -> (r: bool)
    ensures
        r == runs_podman_as(command@, false),
{
    invokes_podman_as(command, false)
}

/// A line that runs Podman runs it directly or through sudo.
pub proof fn podman_is_direct_or_sudo(command: Seq<char>)
    ensures
        runs_podman(command) == (runs_podman_as(command, true) || runs_podman_as(command, false)),
{
    if runs_podman(command) {
        let i = choose|i: int|
            0 <= i < segments(command).len() && podman_in_segment(#[trigger] segments(command)[i])
                is Some;
        let how = podman_in_segment(segments(command)[i])->0;
        assert(podman_in_segment(segments(command)[i]) == Some(how));
    }
}

pub open spec fn sandbox_wanted(backend: Seq<char>) -> bool {
    backend == "auto"@ || backend == "bwrap"@
}

pub fn wants_sandbox(backend: &str) -> (r: bool)
    ensures
        r == sandbox_wanted(backend@),
{
    backend.eq("auto") || backend.eq("bwrap")
}

/// Whether a command runs in the sandbox: never Podman through sudo, and Podman
/// only where that was seen to work.
pub open spec fn sandboxed(
    backend: Seq<char>,
    bwrap_ok: bool,
    podman: bool,
    sudo_podman: bool,
    podman_in_bwrap_ok: bool,
) -> bool {
    sandbox_wanted(backend) && bwrap_ok && !sudo_podman && (!podman || podman_in_bwrap_ok)
}

pub fn should_use_bwrap(
    sandbox_backend: &str,
    bwrap_ok: bool,
    podman_command: bool,
    sudo_podman_command: bool,
    podman_in_bwrap_ok: bool,
) -> (r: bool)
    ensures
        r == sandboxed(
            sandbox_backend@,
            bwrap_ok,
            podman_command,
            sudo_podman_command,
            podman_in_bwrap_ok,
        ),
{
    wants_sandbox(sandbox_backend) && bwrap_ok && !sudo_podman_command && (!podman_command
        || podman_in_bwrap_ok)
}

pub open spec fn podman_fits_sandbox(invocation: PodmanInvocation, probe_ok: bool) -> bool {
    (invocation == PodmanInvocation::Direct || invocation
        == PodmanInvocation::DirectWithSudoFallback) && probe_ok
}

pub fn podman_can_use_bwrap(invocation: PodmanInvocation, probe_ok: bool) -> (r: bool)
    ensures
        r == podman_fits_sandbox(invocation, probe_ok),
{
    match invocation {
        PodmanInvocation::Direct => probe_ok,
        PodmanInvocation::DirectWithSudoFallback => probe_ok,
        _ => false,
    }
}

/// Whether a command line runs in the sandbox.
pub open spec fn line_sandboxed(
    backend: Seq<char>,
    bwrap_ok: bool,
    invocation: PodmanInvocation,
    podman_probe_ok: bool,
    command: Option<Seq<char>>,
) -> bool {
    match command {
        Some(line) => sandboxed(
            backend,
            bwrap_ok,
            runs_podman(line),
            runs_podman_as(line, true),
            podman_fits_sandbox(invocation, podman_probe_ok),
        ),
        None => sandbox_wanted(backend) && bwrap_ok,
    }
}

pub fn use_bwrap(
    backend: &str,
    bwrap_ok: bool,
    invocation: PodmanInvocation,
    podman_probe_ok: bool,
    command: Option<&str>,
) -> (r: bool)
    ensures
        r == line_sandboxed(
            backend@,
            bwrap_ok,
            invocation,
            podman_probe_ok,
            crate::text::opt_str_view(command),
        ),
{
    if !wants_sandbox(backend) || !bwrap_ok {
        return false;
    }
    match command {
        Some(line) => {
            let podman = invokes_podman(line);
            should_use_bwrap(
                backend,
                bwrap_ok,
                podman,
                invokes_sudo_podman(line),
                !podman || podman_can_use_bwrap(invocation, podman_probe_ok),
            )
        },
        None => true,
    }
}

/// Podman through sudo never stays inside the sandbox.
pub proof fn sudo_podman_leaves_the_sandbox(
    backend: Seq<char>,
    bwrap_ok: bool,
    invocation: PodmanInvocation,
    podman_probe_ok: bool,
    line: Seq<char>,
)
    requires
        runs_podman_as(line, true),
    ensures
        !line_sandboxed(backend, bwrap_ok, invocation, podman_probe_ok, Some(line)),
{
}

pub open spec fn backend_name(backend: Seq<char>, bwrap_ok: bool) -> Seq<char> {
    if sandbox_wanted(backend) && bwrap_ok {
        "bubblewrap"@
    } else {
        "native"@
    }
}

pub fn effective_default_sandbox_backend(backend: &str, bwrap_ok: bool) -> (name: &'static str)
    ensures
        name@ == backend_name(backend@, bwrap_ok),
{
    if wants_sandbox(backend) && bwrap_ok {
        "bubblewrap"
    } else {
        "native"
    }
}

}
