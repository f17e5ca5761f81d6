//! What always holds of commands, from the shell's options to the environment.
use vstd::prelude::*;

use crate::config::{entry_of, pairs, Config};
use crate::encoding::base64_standard;
use crate::error::{error_view, ErrorView};
use crate::sandbox::command::{
    argv_plan, argv_refusal, base_environment, command_environment, inherited, inherited_names,
    podman_trial, sandbox_options, shell_plan, shown_binds, shown_paths, total_len, ExecHost,
    HostPath,
};
use crate::sandbox::shell::{
    base_name, cmd_executable, kind_of, le16, shell_line, utf16_char, utf16le, valid_shell,
    windows_program, ShellHost, ShellKind,
};
use crate::sandbox::podman::line_sandboxed;
use crate::search::texts;
use crate::text::{lowered, opt_view, utf8_len};

verus! {

/// The shell that runs a command: the one that is named; without a name, /bin/sh in the
/// sandbox and the one of the machine outside.
pub open spec fn running_shell(
    host: ShellHost,
    in_sandbox: bool,
    shell: Option<Seq<char>>,
) -> Seq<char> {
    if shell is Some && (shell->0).len() > 0 {
        shell->0
    } else if shell is None && in_sandbox {
        "/bin/sh"@
    } else if host.windows {
        "powershell.exe"@
    } else if host.shell is Some && host.shell->0@.len() > 0 {
        host.shell->0@
    } else {
        "/bin/sh"@
    }
}

/// A command as Windows hands it to PowerShell: its script in UTF-16, in base64.
pub open spec fn encodes(text: Seq<char>, command: Seq<char>) -> bool {
    exists|script: Seq<char>|
        text == #[trigger] base64_standard(utf16le(script)) && holds_line(script, command)
}

/// In the sandbox a command line is: all options of the sandbox, the shell, the
/// shell's own options, the command as the shell takes it. A POSIX shell takes
/// the command itself behind "-c", cmd behind "/d /s /c", and PowerShell a script
/// behind "-NoLogo -NoProfile -Command", on Windows an encoded one behind
/// "-EncodedCommand".
#[verifier::rlimit(40)]
pub proof fn sandboxed_shell_gets_its_command(
    config: Config,
    host: ExecHost,
    root: Seq<char>,
    command: Seq<char>,
    interactive: bool,
    additions: Seq<(Seq<char>, Seq<char>)>,
    workdir: Seq<char>,
    shell: Option<Seq<char>>,
    runtime: HostPath,
    runtime_target: Seq<char>,
)
    requires
        shell_plan(
            config,
            host,
            root,
            command,
            interactive,
            additions,
            workdir,
            shell,
            runtime,
            runtime_target,
        ) is Ok,
        (shell_plan(
            config,
            host,
            root,
            command,
            interactive,
            additions,
            workdir,
            shell,
            runtime,
            runtime_target,
        )->Ok_0).1,
    ensures
        ({
            let plan = (shell_plan(
            config,
            host,
            root,
            command,
            interactive,
            additions,
            workdir,
            shell,
            runtime,
            runtime_target,
        )->Ok_0).0;
            let options = sandbox_options(host, root, workdir, runtime, runtime_target);
            let name = running_shell(host.shell, true, shell);
            let at = options->Ok_0.len() as int;
            let n = plan.args.len() as int;
            &&& plan.program == "/usr/bin/bwrap"@
            &&& plan.verbatim is None && plan.directory is None
            &&& plan.interactive == interactive
            &&& options is Ok
            &&& options->Ok_0.is_prefix_of(plan.args)
            &&& at + 3 <= n
            &&& !host.shell.windows ==> plan.args[at] == name
            &&& kind_of(name) == ShellKind::Posix ==> {
                &&& n == at + 3
                &&& plan.args[n - 1] == command
                &&& plan.args[n - 2] == "-c"@
                &&& plan.args[n - 3] == name
            }
            &&& kind_of(name) == ShellKind::Cmd ==> {
                &&& n == at + 5
                &&& plan.args[n - 1] == command
                &&& plan.args[n - 2] == "/c"@
                &&& plan.args[n - 3] == "/s"@
                &&& plan.args[n - 4] == "/d"@
            }
            &&& kind_of(name) == ShellKind::PowerShell && !host.shell.windows ==> {
                &&& n == at + 5
                &&& holds_line(plan.args[n - 1], command)
                &&& plan.args[n - 2] == "-Command"@
                &&& plan.args[n - 3] == "-NoProfile"@
                &&& plan.args[n - 4] == "-NoLogo"@
            }
            &&& kind_of(name) == ShellKind::PowerShell && host.shell.windows ==> {
                &&& encodes(plan.args[n - 1], command)
                &&& plan.args[n - 2] == "-EncodedCommand"@
                &&& plan.args[n - 3] == "-NonInteractive"@
                &&& plan.args[at + 1] == "-NoLogo"@
                &&& plan.args[at + 2] == "-NoProfile"@
            }
        }),
{
    let options = sandbox_options(host, root, workdir, runtime, runtime_target)->Ok_0;
    let plan = (shell_plan(
            config,
            host,
            root,
            command,
            interactive,
            additions,
            workdir,
            shell,
            runtime,
            runtime_target,
        )->Ok_0).0;
    assert(plan.args.subrange(0, options.len() as int) =~= options);
    script_holds_the_command(command);
    lemma_encodes(command);
    reveal_strlit("/bin/sh");
}

proof fn lemma_encodes(command: Seq<char>)
    ensures
        encodes(
            base64_standard(utf16le(crate::sandbox::shell::script_of(command))),
            command,
        ),
{
    script_holds_the_command(command);
    let script = crate::sandbox::shell::script_of(command);
    assert(base64_standard(utf16le(script)) == base64_standard(utf16le(script)));
}

/// The text holds the line, with line breaks around it.
pub open spec fn holds_line(text: Seq<char>, line: Seq<char>) -> bool {
    exists|at: int|
        1 <= at && at + line.len() < text.len() && #[trigger] text.subrange(at, at + line.len())
            == line && text[at - 1] == '\n' && text[at + line.len()] == '\n'
}

/// A script for PowerShell has the command on lines of its own: before it the
/// exit code is forgotten, behind it the outcome is told.
pub proof fn script_holds_the_command(command: Seq<char>)
    ensures
        holds_line(crate::sandbox::shell::script_of(command), command),
        "$global:LASTEXITCODE = $null"@.is_prefix_of(crate::sandbox::shell::script_of(command)),
{
    let script = crate::sandbox::shell::script_of(command);
    reveal_strlit("$global:LASTEXITCODE = $null\n");
    reveal_strlit("$global:LASTEXITCODE = $null");
    reveal_strlit(
        "\n$codexbridge_success = $?\n$codexbridge_exit_code = $LASTEXITCODE\nif ($codexbridge_success) { exit 0 }\nif ($null -ne $codexbridge_exit_code) { exit $codexbridge_exit_code }\nexit 1",
    );
    let at = "$global:LASTEXITCODE = $null\n"@.len() as int;
    assert(script.subrange(at, at + command.len()) =~= command);
    assert(script[at - 1] == '\n');
    assert(script[at + command.len()] == '\n');
    let first = "$global:LASTEXITCODE = $null"@;
    assert(script.subrange(0, first.len() as int) =~= first);
}

/// Outside the sandbox, which the settings have to allow, the shell is started
/// in the directory that was asked for, with its own options and the command.
#[verifier::rlimit(40)]
pub proof fn native_shell_gets_its_command(
    config: Config,
    host: ExecHost,
    root: Seq<char>,
    command: Seq<char>,
    interactive: bool,
    additions: Seq<(Seq<char>, Seq<char>)>,
    workdir: Seq<char>,
    shell: Option<Seq<char>>,
    runtime: HostPath,
    runtime_target: Seq<char>,
)
    requires
        shell_plan(
            config,
            host,
            root,
            command,
            interactive,
            additions,
            workdir,
            shell,
            runtime,
            runtime_target,
        ) is Ok,
        !(shell_plan(
            config,
            host,
            root,
            command,
            interactive,
            additions,
            workdir,
            shell,
            runtime,
            runtime_target,
        )->Ok_0).1,
    ensures
        ({
            let plan = (shell_plan(
            config,
            host,
            root,
            command,
            interactive,
            additions,
            workdir,
            shell,
            runtime,
            runtime_target,
        )->Ok_0).0;
            let name = running_shell(host.shell, false, shell);
            let named = shell is Some && (shell->0).len() > 0;
            let n = plan.args.len() as int;
            &&& config.allow_unsandboxed_exec
            &&& plan.directory == Some(workdir)
            &&& plan.interactive == interactive
            &&& !host.shell.windows ==> plan.program == name
            &&& kind_of(name) == ShellKind::Posix ==> plan.args == seq!["-c"@, command]
                && plan.verbatim is None && plan.program == name
            &&& kind_of(name) == ShellKind::Cmd && !host.shell.windows ==> plan.args == seq![
                "/d"@,
                "/s"@,
                "/c"@,
                command,
            ] && plan.verbatim is None
            &&& kind_of(name) == ShellKind::Cmd && host.shell.windows ==> {
                &&& plan.args == seq!["/d"@, "/s"@, "/c"@]
                &&& plan.verbatim is Some
                &&& (plan.verbatim->0).len() == command.len() + 2
                &&& (plan.verbatim->0)[0] == '"' && (plan.verbatim->0).last() == '"'
                &&& (plan.verbatim->0).subrange(1, 1 + command.len() as int) == command
            }
            &&& kind_of(name) == ShellKind::PowerShell && !host.shell.windows ==> {
                &&& plan.args.take(3) == seq!["-NoLogo"@, "-NoProfile"@, "-Command"@]
                &&& n == 4
                &&& holds_line(plan.args[3], command)
                &&& plan.verbatim is None
            }
            &&& kind_of(name) == ShellKind::PowerShell && host.shell.windows ==> {
                &&& encodes(plan.args[n - 1], command)
                &&& plan.args[n - 2] == "-EncodedCommand"@
                &&& plan.args[n - 3] == "-NonInteractive"@
                &&& plan.args[0] == "-NoLogo"@ && plan.args[1] == "-NoProfile"@
                &&& named ==> n == 9 && plan.args[2] == "-InputFormat"@ && plan.args[3] == "Text"@
                    && plan.args[4] == "-OutputFormat"@ && plan.args[5] == "Text"@
                &&& !named ==> n == 5
                &&& plan.verbatim is None
            }
        }),
{
    reveal_strlit("\"");
    script_holds_the_command(command);
    lemma_encodes(command);
    let name = running_shell(host.shell, false, shell);
    let plan = (shell_plan(
            config,
            host,
            root,
            command,
            interactive,
            additions,
            workdir,
            shell,
            runtime,
            runtime_target,
        )->Ok_0).0;
    if kind_of(name) == ShellKind::Posix {
        assert(plan.args =~= seq!["-c"@, command]);
    } else if kind_of(name) == ShellKind::Cmd {
        if host.shell.windows {
            assert((plan.verbatim->0).subrange(1, 1 + command.len() as int) =~= command);
        } else {
            assert(plan.args =~= seq!["/d"@, "/s"@, "/c"@, command]);
        }
    } else if !host.shell.windows {
        assert(plan.args.take(3) =~= seq!["-NoLogo"@, "-NoProfile"@, "-Command"@]);
    }
}

/// The program that a shell is on Windows: a path as it is, and for a bare name that of
/// the program. The command interpreter of the machine counts where it is cmd.exe.
pub proof fn windows_shell_is_a_program(
    shell: Seq<char>,
    kind: ShellKind,
    comspec: Option<Seq<char>>,
)
    ensures
        ({
            let program = windows_program(shell, kind, comspec);
            let bare = !shell.contains('/') && !shell.contains('\\') && !shell.contains(':');
            &&& !bare || kind == ShellKind::Posix ==> program == shell
            &&& bare && kind == ShellKind::Cmd && comspec is Some && cmd_executable(comspec->0)
                ==> program == comspec->0
            &&& bare && kind == ShellKind::Cmd && (comspec is None || !cmd_executable(comspec->0))
                ==> program == "cmd.exe"@
            &&& bare && kind == ShellKind::PowerShell && (lowered(shell) == "powershell"@ || lowered(
                shell,
            ) == "powershell.exe"@) ==> program == "powershell.exe"@
            &&& bare && kind == ShellKind::PowerShell && (lowered(shell) == "pwsh"@ || lowered(shell)
                == "pwsh.exe"@) ==> program == "pwsh.exe"@
        }),
{
    reveal_strlit("powershell");
    reveal_strlit("powershell.exe");
    reveal_strlit("pwsh");
    reveal_strlit("pwsh.exe");
    assert("powershell"@.len() == 10 && "powershell.exe"@.len() == 14 && "pwsh"@.len() == 4
        && "pwsh.exe"@.len() == 8);
}

/// What can name a shell: 1 to 4096 bytes on one line, without NUL characters. Any other
/// shell is refused.
pub proof fn odd_shells_are_refused(shell: Seq<char>, command: Seq<char>, host: ShellHost)
    requires
        shell.len() > 0,
    ensures
        shell_line(Some(shell), command, host) is Ok <==> utf8_len(shell) <= 4096
            && !shell.contains('\0') && !shell.contains('\n') && !shell.contains('\r'),
        cmd_executable(shell) ==> lowered(base_name(shell)) == "cmd.exe"@,
{
}

/// A program with arguments is started with exactly these arguments, in their
/// order, and in the sandbox behind all of its options.
pub proof fn program_gets_its_arguments(
    config: Config,
    host: ExecHost,
    root: Seq<char>,
    executable: Seq<char>,
    arguments: Seq<Seq<char>>,
    additions: Seq<(Seq<char>, Seq<char>)>,
)
    requires
        argv_plan(config, host, root, executable, arguments, additions) is Ok,
    ensures
        ({
            let (plan, in_sandbox) = argv_plan(
                config,
                host,
                root,
                executable,
                arguments,
                additions,
            )->Ok_0;
            let options = sandbox_options(host, root, root, HostPath::Unset, ""@);
            let n = plan.args.len();
            &&& !plan.interactive && plan.verbatim is None
            &&& n >= arguments.len()
            &&& plan.args.skip(n - arguments.len()) == arguments
            &&& in_sandbox ==> {
                &&& plan.program == "/usr/bin/bwrap"@
                &&& plan.directory is None
                &&& options is Ok
                &&& n == options->Ok_0.len() + 1 + arguments.len()
                &&& plan.args[n - arguments.len() - 1] == executable
                &&& plan.args.take(n - arguments.len() - 1) == options->Ok_0
            }
            &&& !in_sandbox ==> {
                &&& config.allow_unsandboxed_exec
                &&& plan.program == executable
                &&& n == arguments.len()
                &&& plan.directory == Some(root)
            }
        }),
{
    let (plan, in_sandbox) = argv_plan(
        config,
        host,
        root,
        executable,
        arguments,
        additions,
    )->Ok_0;
    let n = plan.args.len();
    assert(plan.args.skip(n - arguments.len()) =~= arguments);
    if in_sandbox {
        let options = sandbox_options(host, root, root, HostPath::Unset, ""@)->Ok_0;
        assert(plan.args.take(n - arguments.len() - 1) =~= options);
    }
}

/// The trial of Podman is `podman info --format json`, in the sandbox.
pub proof fn trial_asks_podman_for_its_state(
    host: ExecHost,
    socket: Option<Seq<char>>,
    root: Seq<char>,
)
    requires
        podman_trial(host, socket, root) is Some,
    ensures
        ({
            let plan = podman_trial(host, socket, root)->0;
            let n = plan.args.len();
            &&& host.bwrap_usable && !host.shell.windows
            &&& plan.program == "/usr/bin/bwrap"@
            &&& n >= 4 && plan.args.skip(n - 4) == seq![
                "podman"@,
                "info"@,
                "--format"@,
                "json"@,
            ]
            &&& sandbox_options(host, root, root, HostPath::Unset, ""@) == Ok::<
                Seq<Seq<char>>,
                ErrorView,
            >(plan.args.take(n - 4))
        }),
{
    let plan = podman_trial(host, socket, root)->0;
    let n = plan.args.len();
    let options = sandbox_options(host, root, root, HostPath::Unset, ""@)->Ok_0;
    assert(plan.args.skip(n - 4) =~= seq!["podman"@, "info"@, "--format"@, "json"@]);
    assert(plan.args.take(n - 4) =~= options);
}

/// One of the variables that a command has from the library.
pub open spec fn library_variable(name: Seq<char>, windows: bool) -> bool {
    if windows {
        name == "PATH"@ || name == "SystemRoot"@ || name == "WINDIR"@ || name == "ComSpec"@ || name
            == "PATHEXT"@ || name == "USERPROFILE"@ || name == "HOMEDRIVE"@ || name == "HOMEPATH"@
            || name == "LOCALAPPDATA"@ || name == "APPDATA"@ || name == "ProgramData"@ || name
            == "ProgramFiles"@ || name == "ProgramFiles(x86)"@ || name == "ProgramW6432"@ || name
            == "SystemDrive"@ || name == "TEMP"@ || name == "TMP"@
    } else {
        name == "PATH"@ || name == "HOME"@ || name == "TMPDIR"@ || name == "LANG"@
    }
}

/// A command has no variable but the few that the library sets, those that name
/// the container service where there is one, and what its caller adds, which
/// comes last.
#[verifier::rlimit(40)]
pub proof fn environment_is_small(
    host: ExecHost,
    socket: Option<Seq<char>>,
    in_sandbox: bool,
    additions: Seq<(Seq<char>, Seq<char>)>,
)
    ensures
        command_environment(host, socket, in_sandbox, additions) is Ok <==> forall|i: int|
            0 <= i < additions.len() ==> utf8_len((#[trigger] additions[i]).0) <= 128 && utf8_len(
                additions[i].1,
            ) <= 8192 && !additions[i].0.contains('=') && !additions[i].0.contains('\0')
                && !additions[i].1.contains('\0'),
        command_environment(host, socket, in_sandbox, additions) is Ok ==> {
            let all = command_environment(host, socket, in_sandbox, additions)->Ok_0;
            let own = all.len() - additions.len();
            &&& own >= 0
            &&& all.skip(own) == additions
            &&& forall|i: int|
                0 <= i < own ==> library_variable((#[trigger] all[i]).0, host.shell.windows) || (
                socket is Some && (all[i].0 == "CONTAINER_HOST"@ || all[i].0 == "DOCKER_HOST"@))
            &&& socket is Some ==> own >= 2 && all[own - 2].0 == "CONTAINER_HOST"@ && all[own - 1].0
                == "DOCKER_HOST"@ && all[own - 2].1 == all[own - 1].1
            &&& socket is Some && in_sandbox ==> all[own - 1].1 == "unix:///run/podman.sock"@
            &&& socket is Some && !in_sandbox ==> all[own - 1].1 == "unix://"@ + socket->0
            &&& !host.shell.windows ==> {
                &&& own == if socket is Some {
                    6int
                } else {
                    4int
                }
                &&& all[0].0 == "PATH"@
                &&& all[1] == ("HOME"@, "/tmp"@)
                &&& all[2] == ("TMPDIR"@, "/tmp"@)
                &&& all[3] == ("LANG"@, "C.UTF-8"@)
            }
        },
{
    if command_environment(host, socket, in_sandbox, additions) is Ok {
        let all = command_environment(host, socket, in_sandbox, additions)->Ok_0;
        let own = all.len() - additions.len();
        assert(all.skip(own) =~= additions);
        let base = base_environment(host, in_sandbox);
        if host.shell.windows {
            lemma_inherited(pairs(host.environment@), 10);
            let kept = inherited(pairs(host.environment@), 10);
            assert forall|i: int| 0 <= i < base.len() implies library_variable(
                (#[trigger] base[i]).0,
                true,
            ) by {
                if 5 <= i < 5 + kept.len() {
                    assert(base[i] == kept[i - 5]);
                    let k = choose|k: int|
                        0 <= k < 10 && kept[i - 5].0 == #[trigger] inherited_names()[k];
                    assert(0 <= k < 10);
                }
            }
        }
        assert forall|i: int| 0 <= i < own implies library_variable(
            (#[trigger] all[i]).0,
            host.shell.windows,
        ) || (socket is Some && (all[i].0 == "CONTAINER_HOST"@ || all[i].0 == "DOCKER_HOST"@)) by {
            if i < base.len() {
                assert(all[i] == base[i]);
            }
        }
    }
}

proof fn lemma_inherited(environment: Seq<(Seq<char>, Seq<char>)>, n: int)
    requires
        0 <= n <= 10,
    ensures
        forall|i: int|
            0 <= i < inherited(environment, n).len() ==> exists|k: int|
                0 <= k < n && (#[trigger] inherited(environment, n)[i]).0
                    == #[trigger] inherited_names()[k],
    decreases n,
{
    if n > 0 {
        lemma_inherited(environment, n - 1);
        let before = inherited(environment, n - 1);
        let now = inherited(environment, n);
        assert forall|i: int| 0 <= i < now.len() implies exists|k: int|
            0 <= k < n && (#[trigger] now[i]).0 == #[trigger] inherited_names()[k] by {
            if i < before.len() {
                assert(now[i] == before[i]);
                let k = choose|k: int|
                    0 <= k < n - 1 && before[i].0 == #[trigger] inherited_names()[k];
                assert(now[i].0 == inherited_names()[k]);
            } else {
                assert(now[i].0 == inherited_names()[n - 1]);
            }
        }
    }
}

/// The path on which commands are looked up: a fixed one in the sandbox, that of
/// this process outside, where it has one that is not empty.
pub proof fn search_path_is_the_hosts_outside(host: ExecHost, in_sandbox: bool)
    requires
        !host.shell.windows,
    ensures
        ({
            let path = base_environment(host, in_sandbox)[0].1;
            let own = entry_of(pairs(host.environment@), "PATH"@);
            &&& in_sandbox || own is None || (own->0).len() == 0 ==> path
                == "/usr/local/sbin:/usr/local/bin:/usr/sbin:/usr/bin:/sbin:/bin"@
            &&& !in_sandbox && own is Some && (own->0).len() > 0 ==> path == own->0
        }),
{
}

/// A shell is known by its name alone, in whatever directory it stands and
/// whatever the case of its letters: PowerShell and cmd with or without the
/// ending of an executable. Every other shell is a POSIX shell.
#[verifier::rlimit(40)]
pub proof fn shell_is_known_by_its_name(directory: Seq<char>, name: Seq<char>)
    requires
        forall|i: int| 0 <= i < name.len() ==> #[trigger] name[i] != '/' && name[i] != '\\',
    ensures
        kind_of(directory.push('/') + name) == kind_of(name),
        kind_of(directory.push('\\') + name) == kind_of(name),
        kind_of(name) == ShellKind::PowerShell <==> (lowered(name) == "powershell"@ || lowered(name)
            == "pwsh"@ || lowered(name) == "powershell.exe"@ || lowered(name) == "pwsh.exe"@),
        kind_of(name) == ShellKind::Cmd <==> (lowered(name) == "cmd"@ || lowered(name)
            == "cmd.exe"@),
{
    lemma_base_name(Seq::empty(), name);
    assert(Seq::<char>::empty() + name =~= name);
    lemma_base_name(directory.push('/'), name);
    lemma_base_name(directory.push('\\'), name);
    reveal_strlit("powershell");
    reveal_strlit("pwsh");
    reveal_strlit("cmd");
    reveal_strlit("powershell.exe");
    reveal_strlit("pwsh.exe");
    reveal_strlit("cmd.exe");
    reveal_strlit(".exe");
    let small = lowered(name);
    if name.len() >= 4 {
        let front = name.take(name.len() - 4);
        let ending = name.skip(name.len() - 4);
        assert(lowered(front) =~= small.take(small.len() - 4));
        assert(lowered(ending) =~= small.skip(small.len() - 4));
        assert(small =~= lowered(front) + lowered(ending));
        assert("powershell.exe"@ =~= "powershell"@ + ".exe"@);
        assert("pwsh.exe"@ =~= "pwsh"@ + ".exe"@);
        assert("cmd.exe"@ =~= "cmd"@ + ".exe"@);
        assert("powershell.exe"@.skip(10) =~= ".exe"@);
        assert("pwsh.exe"@.skip(4) =~= ".exe"@);
        assert("cmd.exe"@.skip(3) =~= ".exe"@);
        assert("powershell.exe"@.take(10) =~= "powershell"@);
        assert("pwsh.exe"@.take(4) =~= "pwsh"@);
        assert("cmd.exe"@.take(3) =~= "cmd"@);
        assert("powershell"@.skip(6)[0] != '.');
        assert("pwsh"@.skip(0)[0] != '.');
    }
}

proof fn lemma_base_name(front: Seq<char>, name: Seq<char>)
    requires
        forall|i: int| 0 <= i < name.len() ==> #[trigger] name[i] != '/' && name[i] != '\\',
        front.len() == 0 || front.last() == '/' || front.last() == '\\',
    ensures
        base_name(front + name) == name,
    decreases name.len(),
{
    let path = front + name;
    if name.len() == 0 {
        assert(path =~= front);
        assert(base_name(path) =~= name);
    } else {
        assert(path.drop_last() =~= front + name.drop_last());
        lemma_base_name(front, name.drop_last());
        assert(name.drop_last().push(name.last()) =~= name);
        assert(path.last() == name[name.len() - 1]);
    }
}

/// The UTF-16 of a text is that of its parts.
pub proof fn utf16_is_written_in_order(a: Seq<char>, b: Seq<char>, c: char)
    ensures
        utf16le(a + b) == utf16le(a) + utf16le(b),
        utf16le(seq![c]) == utf16_char(c),
    decreases b.len(),
{
    assert(seq![c].drop_last() =~= Seq::<char>::empty());
    assert(utf16le(Seq::<char>::empty()) =~= Seq::<u8>::empty());
    assert(utf16le(seq![c]) =~= utf16_char(c));
    if b.len() == 0 {
        assert(a + b =~= a);
        assert(utf16le(a) + utf16le(b) =~= utf16le(a));
    } else {
        utf16_is_written_in_order(a, b.drop_last(), c);
        assert((a + b).drop_last() =~= a + b.drop_last());
        assert(utf16le(a + b) =~= utf16le(a) + utf16le(b));
    }
}

proof fn lemma_le16(n: int)
    requires
        0 <= n < 0x1_0000,
    ensures
        le16(n).len() == 2,
        le16(n)[0] + 256 * le16(n)[1] == n,
{
}

/// A character can be told from its bytes: two of them hold its number, or four hold a pair
/// of surrogates, the high one first.
#[verifier::rlimit(40)]
pub proof fn utf16_tells_the_character(c: char)
    ensures
        (c as u32) < 0x1_0000 ==> utf16_char(c).len() == 2 && utf16_char(c)[0] as int + 256
            * utf16_char(c)[1] == c as u32,
        (c as u32) >= 0x1_0000 ==> {
            let bytes = utf16_char(c);
            let high = bytes[0] as int + 256 * bytes[1];
            let low = bytes[2] as int + 256 * bytes[3];
            &&& bytes.len() == 4
            &&& 0xd800 <= high < 0xdc00
            &&& 0xdc00 <= low < 0xe000
            &&& 0x1_0000 + (high - 0xd800) * 0x400 + (low - 0xdc00) == c as u32
        },
{
    vstd::utf8::char_is_scalar(c);
    let n = c as u32 as int;
    if n < 0x1_0000 {
        lemma_le16(n);
    } else {
        let high = 0xd800 + (n - 0x1_0000) / 0x400;
        let low = 0xdc00 + (n - 0x1_0000) % 0x400;
        lemma_le16(high);
        lemma_le16(low);
        let bytes = utf16_char(c);
        assert(bytes =~= le16(high) + le16(low));
        assert(bytes[0] == le16(high)[0] && bytes[1] == le16(high)[1]);
        assert(bytes[2] == le16(low)[0] && bytes[3] == le16(low)[1]);
    }
}

/// The bytes of a program's arguments, summed up: before argument `i` there are
/// `sums[i]`.
pub open spec fn argument_sums(sums: Seq<int>, arguments: Seq<Seq<char>>) -> bool {
    &&& sums.len() == arguments.len() + 1
    &&& sums[0] == 0
    &&& forall|i: int|
        0 <= i < arguments.len() ==> sums[i + 1] == sums[i] + utf8_len(#[trigger] arguments[i])
}

proof fn lemma_total_len(arguments: Seq<Seq<char>>, sums: Seq<int>)
    requires
        argument_sums(sums, arguments),
    ensures
        total_len(arguments) == sums.last(),
    decreases arguments.len(),
{
    if arguments.len() > 0 {
        let rest = arguments.drop_last();
        let fewer = sums.drop_last();
        assert forall|i: int| 0 <= i < rest.len() implies fewer[i + 1] == fewer[i] + utf8_len(
            #[trigger] rest[i],
        ) by {
            assert(rest[i] == arguments[i]);
            assert(sums[i + 1] == sums[i] + utf8_len(arguments[i]));
        }
        lemma_total_len(rest, fewer);
        let last = arguments.len() - 1;
        assert(sums[last + 1] == sums[last] + utf8_len(arguments[last]));
    }
}

/// A program with arguments is taken exactly if it has a name, of at most 4096
/// bytes, no NUL character and no line break occurs in it or its arguments, and
/// all of it is within the limit.
pub proof fn acceptable_arguments_are_taken(
    executable: Seq<char>,
    arguments: Seq<Seq<char>>,
    limit: int,
    sums: Seq<int>,
)
    requires
        argument_sums(sums, arguments),
        0 <= limit < usize::MAX,
    ensures
        argv_refusal(executable, arguments, limit) is None <==> {
            &&& 0 < executable.len() && utf8_len(executable) <= 4096
            &&& !executable.contains('\0') && !executable.contains('\n') && !executable.contains(
                '\r',
            )
            &&& forall|i: int|
                0 <= i < arguments.len() ==> !(#[trigger] arguments[i]).contains('\0')
                    && !arguments[i].contains('\n') && !arguments[i].contains('\r')
            &&& utf8_len(executable) + sums.last() <= limit
        },
{
    lemma_total_len(arguments, sums);
    assert forall|i: int| 0 <= i < arguments.len() implies crate::sandbox::command::has_break(
        #[trigger] arguments[i],
    ) == (arguments[i].contains('\0') || arguments[i].contains('\n') || arguments[i].contains(
        '\r',
    )) by {}
}

/// A path of the machine that the sandbox may show.
pub open spec fn may_be_shown(path: Seq<char>) -> bool {
    path == "/usr"@ || path == "/bin"@ || path == "/lib"@ || path == "/lib64"@ || path
        == "/usr/local"@ || path == "/etc/ssl"@ || path == "/etc/resolv.conf"@ || path
        == "/etc/hosts"@ || path == "/etc/nsswitch.conf"@ || path == "/etc/passwd"@ || path
        == "/etc/group"@
}

/// Options that bind paths read-only at their own places, from `from` on up to
/// `to`.
pub open spec fn read_only_binds(
    options: Seq<Seq<char>>,
    from: int,
    to: int,
    present: Seq<Seq<char>>,
) -> bool {
    &&& 0 <= from <= to <= options.len() && (to - from) % 3 == 0
    &&& forall|j: int|
        from <= j < to && (j - from) % 3 == 0 ==> #[trigger] options[j] == "--ro-bind"@ && options[j
            + 1] == options[j + 2] && present.contains(options[j + 1]) && may_be_shown(
            options[j + 1],
        )
}

/// One of those options binds the path.
pub open spec fn binds_path(
    options: Seq<Seq<char>>,
    from: int,
    to: int,
    path: Seq<char>,
) -> bool {
    exists|j: int|
        from <= j < to && (j - from) % 3 == 0 && #[trigger] options[j] == "--ro-bind"@ && options[j
            + 1] == path && options[j + 2] == path
}

#[verifier::rlimit(40)]
proof fn lemma_shown_binds(present: Seq<Seq<char>>, n: int)
    requires
        0 <= n <= 11,
    ensures
        read_only_binds(shown_binds(present, n), 0, shown_binds(present, n).len() as int, present),
        forall|k: int|
            0 <= k < n && present.contains(#[trigger] shown_paths()[k]) ==> binds_path(
                shown_binds(present, n),
                0,
                shown_binds(present, n).len() as int,
                shown_paths()[k],
            ),
    decreases n,
{
    if n > 0 {
        lemma_shown_binds(present, n - 1);
        let before = shown_binds(present, n - 1);
        let now = shown_binds(present, n);
        let path = shown_paths()[n - 1];
        assert(may_be_shown(path));
        if present.contains(path) {
            assert forall|j: int| 0 <= j < now.len() && j % 3 == 0 implies #[trigger] now[j]
                == "--ro-bind"@ && now[j + 1] == now[j + 2] && present.contains(now[j + 1])
                && may_be_shown(now[j + 1]) by {
                if j < before.len() {
                    assert(before[j] == "--ro-bind"@);
                    assert(j + 2 < before.len());
                    assert(now[j] == before[j] && now[j + 1] == before[j + 1] && now[j + 2]
                        == before[j + 2]);
                } else {
                    assert(j == before.len());
                }
            }
            assert forall|k: int|
                0 <= k < n && present.contains(#[trigger] shown_paths()[k]) implies binds_path(
                now,
                0,
                now.len() as int,
                shown_paths()[k],
            ) by {
                if k < n - 1 {
                    let j = choose|j: int|
                        0 <= j < before.len() && j % 3 == 0 && #[trigger] before[j]
                            == "--ro-bind"@ && before[j + 1] == shown_paths()[k] && before[j + 2]
                            == shown_paths()[k];
                    assert(j + 2 < before.len());
                    assert(now[j] == before[j] && now[j + 1] == before[j + 1] && now[j + 2]
                        == before[j + 2]);
                } else {
                    let j = before.len() as int;
                    assert(now[j] == "--ro-bind"@ && now[j + 1] == path && now[j + 2] == path);
                }
            }
        }
    }
}

/// What the sandbox is started with: everything apart but the network; those
/// of the paths that may be shown that are there, read-only; its own /proc, /dev
/// and /tmp; the project as /workspace, and the directory in it to start from.
/// Then what the settings and the caller bind, and nothing else.
#[verifier::rlimit(40)]
pub proof fn sandbox_shows_no_more_than_it_says(
    host: ExecHost,
    root: Seq<char>,
    workdir: Seq<char>,
    runtime: HostPath,
    target: Seq<char>,
) -> (b: int)
    requires
        sandbox_options(host, root, workdir, runtime, target) is Ok,
    ensures
        ({
            let options = sandbox_options(host, root, workdir, runtime, target)->Ok_0;
            let present = texts(host.present_paths@);
            let s: int = if host.container_socket is Found {
                3
            } else {
                0
            };
            let c: int = if host.container_config_root is Found {
                3
            } else {
                0
            };
            let r: int = if runtime is Found {
                3
            } else {
                0
            };
            &&& options.len() == b + 13 + s + c + r
            &&& options[0] == "--unshare-all"@
            &&& options[1] == "--share-net"@
            &&& options[2] == "--die-with-parent"@
            &&& options[3] == "--new-session"@
            &&& read_only_binds(options, 4, b, present)
            &&& forall|path: Seq<char>|
                may_be_shown(path) && #[trigger] present.contains(path) ==> binds_path(
                    options,
                    4,
                    b,
                    path,
                )
            &&& options[b] == "--proc"@ && options[b + 1] == "/proc"@
            &&& options[b + 2] == "--dev"@ && options[b + 3] == "/dev"@
            &&& options[b + 4] == "--tmpfs"@ && options[b + 5] == "/tmp"@
            &&& options[b + 6] == "--bind"@ && options[b + 7] == root && options[b + 8]
                == "/workspace"@
            &&& options[b + 9] == "--chdir"@ && options[b + 10]
                == crate::sandbox::command::sandbox_directory(workdir, root)
            &&& options[b + 11] == "--dir"@ && options[b + 12] == "/run"@
            &&& host.container_socket is Found ==> options[b + 13] == "--bind"@ && options[b + 14]
                == host.container_socket->Found_0@ && options[b + 15] == "/run/podman.sock"@
            &&& host.container_config_root is Found ==> options[b + 13 + s] == "--ro-bind"@
                && options[b + 14 + s] == host.container_config_root->Found_0@ && options[b + 15
                + s] == "/etc/containers"@
            &&& runtime is Found ==> options[b + 13 + s + c] == "--bind"@ && options[b + 14 + s + c]
                == runtime->Found_0@ && options[b + 15 + s + c] == target
        }),
{
    let options = sandbox_options(host, root, workdir, runtime, target)->Ok_0;
    let present = texts(host.present_paths@);
    let shown = shown_binds(present, 11);
    let b = 4 + shown.len() as int;
    lemma_shown_binds(present, 11);
    assert forall|j: int| 0 <= j < shown.len() implies #[trigger] options[4 + j] == shown[j] by {}
    assert forall|j: int| 4 <= j < b && (j - 4) % 3 == 0 implies #[trigger] options[j]
        == "--ro-bind"@ && options[j + 1] == options[j + 2] && present.contains(options[j + 1])
        && may_be_shown(options[j + 1]) by {
        assert(shown[j - 4] == "--ro-bind"@);
        assert(j - 4 + 2 < shown.len());
        assert(options[4 + (j - 4)] == shown[j - 4]);
        assert(options[4 + (j - 3)] == shown[j - 3]);
        assert(options[4 + (j - 2)] == shown[j - 2]);
    }
    assert forall|path: Seq<char>| may_be_shown(path) && #[trigger] present.contains(
        path,
    ) implies binds_path(options, 4, b, path) by {
        lemma_may_be_shown(path);
        let k = choose|k: int| 0 <= k < 11 && #[trigger] shown_paths()[k] == path;
        assert(present.contains(shown_paths()[k]));
        assert(binds_path(shown, 0, shown.len() as int, path));
        let j = choose|j: int|
            0 <= j < shown.len() && j % 3 == 0 && #[trigger] shown[j] == "--ro-bind"@ && shown[j
                + 1] == path && shown[j + 2] == path;
        assert(j + 2 < shown.len());
        assert(options[4 + j] == shown[j]);
        assert(options[4 + (j + 1)] == shown[j + 1]);
        assert(options[4 + (j + 2)] == shown[j + 2]);
        assert(options[4 + j] == "--ro-bind"@);
    }
    b
}

proof fn lemma_may_be_shown(path: Seq<char>)
    requires
        may_be_shown(path),
    ensures
        exists|k: int| 0 <= k < 11 && #[trigger] shown_paths()[k] == path,
{
    let all = shown_paths();
    assert(all[0] == "/usr"@ && all[1] == "/bin"@ && all[2] == "/lib"@ && all[3] == "/lib64"@
        && all[4] == "/usr/local"@ && all[5] == "/etc/ssl"@ && all[6] == "/etc/resolv.conf"@
        && all[7] == "/etc/hosts"@ && all[8] == "/etc/nsswitch.conf"@ && all[9] == "/etc/passwd"@
        && all[10] == "/etc/group"@);
}

/// The sandbox is refused exactly if the directory is not in the project, or
/// something that the settings or the caller name is not there.
pub proof fn sandbox_needs_what_is_named(
    host: ExecHost,
    root: Seq<char>,
    workdir: Seq<char>,
    runtime: HostPath,
    target: Seq<char>,
)
    ensures
        sandbox_options(host, root, workdir, runtime, target) is Ok <==> {
            &&& crate::sandbox::paths::within(workdir, root, '/')
            &&& !(host.container_socket is Unavailable)
            &&& !(host.container_config_root is Unavailable)
            &&& !(runtime is Unavailable)
        },
        !crate::sandbox::paths::within(workdir, root, '/') ==> sandbox_options(
            host,
            root,
            workdir,
            runtime,
            target,
        ) == Err::<Seq<Seq<char>>, ErrorView>(
            error_view("PATH_OUTSIDE_WORKSPACE", "process workdir escaped project"),
        ),
{
}

/// A command gets a plan exactly if its shell can be one, the additions to its environment
/// are valid, and it has a sandbox with all that is named, or may do without one. It is in
/// the sandbox wherever that is used for its line, with the environment for where it is.
pub proof fn command_gets_a_plan(
    config: Config,
    host: ExecHost,
    root: Seq<char>,
    command: Seq<char>,
    interactive: bool,
    additions: Seq<(Seq<char>, Seq<char>)>,
    workdir: Seq<char>,
    shell: Option<Seq<char>>,
    runtime: HostPath,
    runtime_target: Seq<char>,
)
    ensures
        ({
            let plan = shell_plan(
                config,
                host,
                root,
                command,
                interactive,
                additions,
                workdir,
                shell,
                runtime,
                runtime_target,
            );
            let inside = line_sandboxed(
                config.sandbox_backend@,
                host.bwrap_usable,
                host.podman,
                host.podman_in_bwrap,
                Some(command),
            );
            let socket = opt_view(config.container_socket);
            &&& plan is Ok <==> {
                &&& valid_shell(running_shell(host.shell, inside, shell))
                &&& inside ==> sandbox_options(
                    host,
                    root,
                    workdir,
                    runtime,
                    runtime_target,
                ) is Ok
                &&& !inside ==> config.allow_unsandboxed_exec
                &&& command_environment(host, socket, inside, additions) is Ok
            }
            &&& plan is Ok ==> (plan->Ok_0).1 == inside && command_environment(
                host,
                socket,
                inside,
                additions,
            ) == Ok::<Seq<(Seq<char>, Seq<char>)>, ErrorView>((plan->Ok_0).0.environment)
            &&& valid_shell(running_shell(host.shell, inside, shell)) && !inside
                && !config.allow_unsandboxed_exec ==> plan is Err && (plan->Err_0).code
                == "SANDBOX_UNAVAILABLE"@
        }),
{
    reveal_strlit("/bin/sh");
}

/// So does a program with arguments, where these are acceptable.
pub proof fn program_gets_a_plan(
    config: Config,
    host: ExecHost,
    root: Seq<char>,
    executable: Seq<char>,
    arguments: Seq<Seq<char>>,
    additions: Seq<(Seq<char>, Seq<char>)>,
)
    ensures
        ({
            let plan = argv_plan(config, host, root, executable, arguments, additions);
            let inside = line_sandboxed(
                config.sandbox_backend@,
                host.bwrap_usable,
                host.podman,
                host.podman_in_bwrap,
                Some(executable),
            );
            let socket = opt_view(config.container_socket);
            &&& plan is Ok <==> {
                &&& argv_refusal(
                    executable,
                    arguments,
                    config.limits.input_string_bytes as int,
                ) is None
                &&& inside ==> sandbox_options(host, root, root, HostPath::Unset, ""@) is Ok
                &&& !inside ==> config.allow_unsandboxed_exec
                &&& command_environment(host, socket, inside, additions) is Ok
            }
            &&& plan is Ok ==> (plan->Ok_0).1 == inside && command_environment(
                host,
                socket,
                inside,
                additions,
            ) == Ok::<Seq<(Seq<char>, Seq<char>)>, ErrorView>((plan->Ok_0).0.environment)
        }),
{
}

}
