//! Commands, from what is asked for to what is started.
use vstd::prelude::*;

use crate::config::{entry_of, pairs, Config};
use crate::error::{error, error_view, unit_view, AppError, ErrorView};
use crate::project::ProjectContext;
use crate::sandbox::paths::{is_within, list_components, path_components, within};
use crate::sandbox::podman::{line_sandboxed, use_bwrap, PodmanInvocation};
use crate::sandbox::shell::{
    is_shell_readable, shell_command, shell_line, shell_readable, ShellHost, ShellKind, ShellView,
};
use crate::search::{has_char, replace, replaced, texts};
use crate::text::{byte_len, join2, join3, opt_str, opt_str_view, opt_view, utf8_len};

verus! {

/// A path of the machine that the settings name.
pub enum HostPath {
    /// The settings name none.
    Unset,
    /// Its canonical path.
    Found(String),
    /// Why it cannot be used.
    Unavailable(String),
}

/// What of the machine decides on commands.
pub struct ExecHost {
    pub shell: ShellHost,
    /// The environment of this process.
    pub environment: Vec<(String, String)>,
    pub temp_dir: String,
    pub bwrap_usable: bool,
    pub podman: PodmanInvocation,
    pub podman_in_bwrap: bool,
    /// Those of the sandbox's read-only paths that are there.
    pub present_paths: Vec<String>,
    pub container_socket: HostPath,
    pub container_config_root: HostPath,
}

/// Paths of the machine that the sandbox shows, where they are there.
pub open spec fn shown_paths() -> Seq<Seq<char>> {
    seq![
        "/usr"@,
        "/bin"@,
        "/lib"@,
        "/lib64"@,
        "/usr/local"@,
        "/etc/ssl"@,
        "/etc/resolv.conf"@,
        "/etc/hosts"@,
        "/etc/nsswitch.conf"@,
        "/etc/passwd"@,
        "/etc/group"@,
    ]
}

/// One of the paths that the sandbox shows.
pub fn shown_path(i: usize) -> (path: &'static str)
    requires
        i < 11,
    ensures
        path@ == shown_paths()[i as int],
{
    match i {
        0 => "/usr",
        1 => "/bin",
        2 => "/lib",
        3 => "/lib64",
        4 => "/usr/local",
        5 => "/etc/ssl",
        6 => "/etc/resolv.conf",
        7 => "/etc/hosts",
        8 => "/etc/nsswitch.conf",
        9 => "/etc/passwd",
        _ => "/etc/group",
    }
}

/// The options by which the first `n` shown paths are bound.
pub open spec fn shown_binds(present: Seq<Seq<char>>, n: int) -> Seq<Seq<char>>
    decreases n,
{
    if n <= 0 {
        Seq::empty()
    } else {
        let before = shown_binds(present, n - 1);
        let path = shown_paths()[n - 1];
        if present.contains(path) {
            before + seq!["--ro-bind"@, path, path]
        } else {
            before
        }
    }
}

/// Names with a slash between each two.
pub open spec fn slashed(names: Seq<Seq<char>>) -> Seq<char>
    decreases names.len(),
{
    if names.len() == 0 {
        Seq::empty()
    } else if names.len() == 1 {
        names[0]
    } else {
        slashed(names.drop_last()) + "/"@ + names.last()
    }
}

/// The text of a path with these components.
pub open spec fn components_text(components: Seq<Seq<char>>) -> Seq<char> {
    if components.len() > 0 && components[0] == "/"@ {
        "/"@ + slashed(components.skip(1))
    } else {
        slashed(components)
    }
}

/// Where a directory of the project is in the sandbox.
pub open spec fn sandbox_directory(workdir: Seq<char>, root: Seq<char>) -> Seq<char> {
    let rest = path_components(workdir, '/').skip(path_components(root, '/').len() as int);
    if rest.len() == 0 {
        "/workspace"@
    } else {
        "/workspace/"@ + replaced(components_text(rest), "\\"@, "/"@)
    }
}

pub open spec fn unavailable(what: &str, reason: Seq<char>) -> ErrorView {
    ErrorView { code: "SANDBOX_UNAVAILABLE"@, message: what@ + reason }
}

/// The options that bind a path of the settings, or why they cannot.
pub open spec fn bind_options(path: HostPath, option: &str, target: Seq<char>, what: &str) -> Result<
    Seq<Seq<char>>,
    ErrorView,
> {
    match path {
        HostPath::Unset => Ok(Seq::empty()),
        HostPath::Found(path) => Ok(seq![option@, path@, target]),
        HostPath::Unavailable(reason) => Err(unavailable(what, reason@)),
    }
}

/// The options of the sandbox that come before those of the settings.
pub open spec fn fixed_options(host: ExecHost, root: Seq<char>, workdir: Seq<char>) -> Seq<Seq<char>> {
    seq!["--unshare-all"@, "--share-net"@, "--die-with-parent"@, "--new-session"@] + shown_binds(
        texts(host.present_paths@),
        11,
    ) + seq![
        "--proc"@,
        "/proc"@,
        "--dev"@,
        "/dev"@,
        "--tmpfs"@,
        "/tmp"@,
        "--bind"@,
        root,
        "/workspace"@,
        "--chdir"@,
        sandbox_directory(workdir, root),
        "--dir"@,
        "/run"@,
    ]
}

/// The options with which the sandbox is started: the machine's network, its
/// programs read-only, and the project as the only directory that can be
/// written.
pub open spec fn sandbox_options(
    host: ExecHost,
    root: Seq<char>,
    workdir: Seq<char>,
    runtime: HostPath,
    runtime_target: Seq<char>,
) -> Result<Seq<Seq<char>>, ErrorView> {
    if !within(workdir, root, '/') {
        Err(error_view("PATH_OUTSIDE_WORKSPACE", "process workdir escaped project"))
    } else {
        match bind_options(
            host.container_socket,
            "--bind",
            "/run/podman.sock"@,
            "configured container socket is unavailable: ",
        ) {
            Err(e) => Err(e),
            Ok(socket) => match bind_options(
                host.container_config_root,
                "--ro-bind",
                "/etc/containers"@,
                "configured container config root is unavailable: ",
            ) {
                Err(e) => Err(e),
                Ok(settings) => match bind_options(
                    runtime,
                    "--bind",
                    runtime_target,
                    "runtime bind source is unavailable: ",
                ) {
                    Err(e) => Err(e),
                    Ok(extra) => Ok(
                        fixed_options(host, root, workdir) + socket + settings + extra,
                    ),
                },
            },
        }
    }
}

fn push_option(args: &mut Vec<String>, option: &str)
    ensures
        texts(final(args)@) == texts(old(args)@).push(option@),
{
    let ghost before = texts(args@);
    args.push(option.to_owned());
    proof {
        assert(texts(args@) =~= before.push(option@));
    }
}

fn is_present(present: &Vec<String>, path: &str) -> (r: bool)
    ensures
        r == texts(present@).contains(path@),
{
    let mut i: usize = 0;
    while i < present.len()
        invariant
            i <= present@.len(),
            forall|j: int| 0 <= j < i ==> texts(present@)[j] != path@,
        decreases present.len() - i,
    {
        if present[i].as_str().eq(path) {
            proof {
                assert(texts(present@)[i as int] == path@);
            }
            return true;
        }
        i += 1;
    }
    false
}

fn join_slashed(names: &Vec<String>, from: usize) -> (text: String)
    requires
        from <= names@.len(),
    ensures
        text@ == slashed(texts(names@).skip(from as int)),
{
    let ghost all = texts(names@).skip(from as int);
    let mut text = String::new();
    let mut i: usize = from;
    proof {
        assert(all.take(0) =~= Seq::empty());
        assert(text@ =~= Seq::empty());
    }
    while i < names.len()
        invariant
            from <= i <= names@.len(),
            all == texts(names@).skip(from as int),
            text@ == slashed(all.take(i - from)),
        decreases names.len() - i,
    {
        proof {
            let next = all.take(i + 1 - from);
            assert(next.drop_last() =~= all.take(i - from));
            assert(next.last() == names@[i as int]@);
        }
        if i > from {
            text.append("/");
        }
        text.append(names[i].as_str());
        i += 1;
        proof {
            if i - from == 1 {
                assert(text@ =~= all.take(1)[0]);
            }
        }
    }
    proof {
        assert(all.take(i - from) =~= all);
    }
    text
}

fn find_sandbox_directory(workdir: &str, root: &str) -> (directory: String)
    requires
        within(workdir@, root@, '/'),
    ensures
        directory@ == sandbox_directory(workdir@, root@),
{
    let list = list_components(workdir, '/');
    let start = list_components(root, '/').len();
    let ghost rest = texts(list@).skip(start as int);
    proof {
        assert(path_components(root@, '/').len() == start);
        assert(texts(list@).len() == list@.len());
    }
    if start == list.len() {
        return "/workspace".to_owned();
    }
    proof {
        assert(rest[0] == list@[start as int]@);
        assert(rest.skip(1) =~= texts(list@).skip(start + 1));
    }
    let relative = if list[start].as_str().eq("/") {
        join2("/", join_slashed(&list, start + 1).as_str())
    } else {
        join_slashed(&list, start)
    };
    join2("/workspace/", replace(relative.as_str(), "\\", "/").as_str())
}

fn list_shown_binds(args: &mut Vec<String>, present: &Vec<String>)
    ensures
        texts(final(args)@) == texts(old(args)@) + shown_binds(texts(present@), 11),
{
    let ghost before = texts(args@);
    let mut i: usize = 0;
    proof {
        assert(before + shown_binds(texts(present@), 0) =~= before);
    }
    while i < 11
        invariant
            i <= 11,
            texts(args@) == before + shown_binds(texts(present@), i as int),
        decreases 11 - i,
    {
        let path = shown_path(i);
        let ghost held = texts(args@);
        if is_present(present, path) {
            push_option(args, "--ro-bind");
            push_option(args, path);
            push_option(args, path);
            proof {
                assert(texts(args@) =~= before + (shown_binds(texts(present@), i as int) + seq![
                    "--ro-bind"@,
                    path@,
                    path@,
                ]));
            }
        }
        i += 1;
    }
}

fn list_bind(args: &mut Vec<String>, path: &HostPath, option: &str, target: &str, what: &str) -> (result:
    Result<(), AppError>)
    ensures
        match bind_options(*path, option, target@, what) {
            Ok(more) => result is Ok && texts(final(args)@) == texts(old(args)@) + more,
            Err(e) => result is Err && result->Err_0@ == e,
        },
{
    match path {
        HostPath::Unset => {
            proof {
                assert(texts(args@) + Seq::<Seq<char>>::empty() =~= texts(args@));
            }
            Ok(())
        },
        HostPath::Found(found) => {
            push_option(args, option);
            push_option(args, found.as_str());
            push_option(args, target);
            proof {
                assert(texts(args@) =~= texts(old(args)@) + seq![option@, found@, target@]);
            }
            Ok(())
        },
        HostPath::Unavailable(reason) => Err(
            AppError::new("SANDBOX_UNAVAILABLE", join2(what, reason.as_str())),
        ),
    }
}

/// The options with which the sandbox is started.
pub fn bubblewrap_arguments(
    host: &ExecHost,
    project_root: &str,
    workdir: &str,
    runtime: &HostPath,
    runtime_target: &str,
) -> (result: Result<Vec<String>, AppError>)
    ensures
        match result {
            Ok(args) => sandbox_options(
                *host,
                project_root@,
                workdir@,
                *runtime,
                runtime_target@,
            ) == Ok::<Seq<Seq<char>>, ErrorView>(texts(args@)),
            Err(e) => sandbox_options(
                *host,
                project_root@,
                workdir@,
                *runtime,
                runtime_target@,
            ) == Err::<Seq<Seq<char>>, ErrorView>(e@),
        },
{
    if !is_within(workdir, project_root, '/') {
        return Err(error("PATH_OUTSIDE_WORKSPACE", "process workdir escaped project"));
    }
    let mut args: Vec<String> = Vec::new();
    proof {
        assert(texts(args@) =~= Seq::empty());
    }
    push_option(&mut args, "--unshare-all");
    push_option(&mut args, "--share-net");
    push_option(&mut args, "--die-with-parent");
    push_option(&mut args, "--new-session");
    proof {
        assert(texts(args@) =~= seq![
            "--unshare-all"@,
            "--share-net"@,
            "--die-with-parent"@,
            "--new-session"@,
        ]);
    }
    list_shown_binds(&mut args, &host.present_paths);
    let ghost middle = texts(args@);
    push_option(&mut args, "--proc");
    push_option(&mut args, "/proc");
    push_option(&mut args, "--dev");
    push_option(&mut args, "/dev");
    push_option(&mut args, "--tmpfs");
    push_option(&mut args, "/tmp");
    push_option(&mut args, "--bind");
    push_option(&mut args, project_root);
    push_option(&mut args, "/workspace");
    push_option(&mut args, "--chdir");
    push_option(&mut args, find_sandbox_directory(workdir, project_root).as_str());
    push_option(&mut args, "--dir");
    push_option(&mut args, "/run");
    proof {
        assert(texts(args@) =~= fixed_options(*host, project_root@, workdir@));
    }
    if let Err(e) = list_bind(
        &mut args,
        &host.container_socket,
        "--bind",
        "/run/podman.sock",
        "configured container socket is unavailable: ",
    ) {
        return Err(e);
    }
    if let Err(e) = list_bind(
        &mut args,
        &host.container_config_root,
        "--ro-bind",
        "/etc/containers",
        "configured container config root is unavailable: ",
    ) {
        return Err(e);
    }
    if let Err(e) = list_bind(
        &mut args,
        runtime,
        "--bind",
        runtime_target,
        "runtime bind source is unavailable: ",
    ) {
        return Err(e);
    }
    Ok(args)
}

/// A variable of the environment that is not empty.
pub open spec fn filled(environment: Seq<(Seq<char>, Seq<char>)>, name: &str) -> Option<Seq<char>> {
    match entry_of(environment, name@) {
        Some(value) if value.len() > 0 => Some(value),
        _ => None,
    }
}

pub open spec fn value_or(value: Option<Seq<char>>, default: Seq<char>) -> Seq<char> {
    match value {
        Some(value) => value,
        None => default,
    }
}

/// Variables of Windows that programs find their files by.
pub open spec fn inherited_names() -> Seq<Seq<char>> {
    seq![
        "USERPROFILE"@,
        "HOMEDRIVE"@,
        "HOMEPATH"@,
        "LOCALAPPDATA"@,
        "APPDATA"@,
        "ProgramData"@,
        "ProgramFiles"@,
        "ProgramFiles(x86)"@,
        "ProgramW6432"@,
        "SystemDrive"@,
    ]
}

/// The first `n` of those variables, where they are filled.
pub open spec fn inherited(environment: Seq<(Seq<char>, Seq<char>)>, n: int) -> Seq<
    (Seq<char>, Seq<char>),
>
    decreases n,
{
    if n <= 0 {
        Seq::empty()
    } else {
        let before = inherited(environment, n - 1);
        let name = inherited_names()[n - 1];
        match entry_of(environment, name) {
            Some(value) if value.len() > 0 => before.push((name, value)),
            _ => before,
        }
    }
}

pub open spec fn unix_path() -> Seq<char> {
    "/usr/local/sbin:/usr/local/bin:/usr/sbin:/usr/bin:/sbin:/bin"@
}

/// The environment that a command starts from. It is small: secrets in the
/// environment of this process are not passed on.
pub open spec fn base_environment(host: ExecHost, in_sandbox: bool) -> Seq<(Seq<char>, Seq<char>)> {
    let environment = pairs(host.environment@);
    if host.shell.windows {
        let system_root = value_or(entry_of(environment, "SystemRoot"@), "C:\\Windows"@);
        seq![
            (
                "PATH"@,
                value_or(
                    entry_of(environment, "PATH"@),
                    system_root + "\\System32;"@ + system_root + ";"@ + system_root
                        + "\\System32\\WindowsPowerShell\\v1.0"@,
                ),
            ),
            ("SystemRoot"@, system_root),
            ("WINDIR"@, system_root),
            (
                "ComSpec"@,
                value_or(filled(environment, "ComSpec"), system_root + "\\System32\\cmd.exe"@),
            ),
            ("PATHEXT"@, value_or(filled(environment, "PATHEXT"), ".COM;.EXE;.BAT;.CMD"@)),
        ] + inherited(environment, 10) + seq![
            ("TEMP"@, host.temp_dir@),
            ("TMP"@, host.temp_dir@),
        ]
    } else {
        seq![
            (
                "PATH"@,
                if in_sandbox {
                    unix_path()
                } else {
                    value_or(filled(environment, "PATH"), unix_path())
                },
            ),
            ("HOME"@, "/tmp"@),
            ("TMPDIR"@, "/tmp"@),
            ("LANG"@, "C.UTF-8"@),
        ]
    }
}

fn push_pair(list: &mut Vec<(String, String)>, name: &str, value: &str)
    ensures
        pairs(final(list)@) == pairs(old(list)@).push((name@, value@)),
{
    let ghost before = pairs(list@);
    list.push((name.to_owned(), value.to_owned()));
    proof {
        assert(pairs(list@) =~= before.push((name@, value@)));
    }
}

fn get_filled(environment: &Vec<(String, String)>, name: &str) -> (value: Option<String>)
    ensures
        opt_view(value) == filled(pairs(environment@), name),
{
    match crate::config::find_entry(environment, name) {
        Some(value) => if value.as_str().is_empty() {
            None
        } else {
            Some(value)
        },
        None => None,
    }
}

fn inherited_name(i: usize) -> (name: &'static str)
    requires
        i < 10,
    ensures
        name@ == inherited_names()[i as int],
{
    match i {
        0 => "USERPROFILE",
        1 => "HOMEDRIVE",
        2 => "HOMEPATH",
        3 => "LOCALAPPDATA",
        4 => "APPDATA",
        5 => "ProgramData",
        6 => "ProgramFiles",
        7 => "ProgramFiles(x86)",
        8 => "ProgramW6432",
        _ => "SystemDrive",
    }
}

fn windows_environment(host: &ExecHost) -> (list: Vec<(String, String)>)
    requires
        host.shell.windows,
    ensures
        pairs(list@) == base_environment(*host, false),
        pairs(list@) == base_environment(*host, true),
{
    let ghost environment = pairs(host.environment@);
    let mut list: Vec<(String, String)> = Vec::new();
    proof {
        assert(pairs(list@) =~= Seq::empty());
    }
    let system_root = match crate::config::find_entry(&host.environment, "SystemRoot") {
        Some(value) => value,
        None => "C:\\Windows".to_owned(),
    };
    let root = system_root.as_str();
    let path = match crate::config::find_entry(&host.environment, "PATH") {
        Some(value) => value,
        None => {
            let mut path = join3(root, "\\System32;", root);
            path.append(";");
            path.append(root);
            path.append("\\System32\\WindowsPowerShell\\v1.0");
            path
        },
    };
    push_pair(&mut list, "PATH", path.as_str());
    push_pair(&mut list, "SystemRoot", root);
    push_pair(&mut list, "WINDIR", root);
    let comspec = match get_filled(&host.environment, "ComSpec") {
        Some(value) => value,
        None => join2(root, "\\System32\\cmd.exe"),
    };
    push_pair(&mut list, "ComSpec", comspec.as_str());
    let extensions = match get_filled(&host.environment, "PATHEXT") {
        Some(value) => value,
        None => ".COM;.EXE;.BAT;.CMD".to_owned(),
    };
    push_pair(&mut list, "PATHEXT", extensions.as_str());
    let ghost first = pairs(list@);
    let mut i: usize = 0;
    proof {
        assert(first + inherited(environment, 0) =~= first);
    }
    while i < 10
        invariant
            i <= 10,
            environment == pairs(host.environment@),
            pairs(list@) == first + inherited(environment, i as int),
        decreases 10 - i,
    {
        let name = inherited_name(i);
        let ghost held = pairs(list@);
        if let Some(value) = get_filled(&host.environment, name) {
            push_pair(&mut list, name, value.as_str());
            proof {
                assert(held.push((name@, value@)) =~= first + inherited(
                    environment,
                    i as int,
                ).push((name@, value@)));
            }
        }
        i += 1;
    }
    push_pair(&mut list, "TEMP", host.temp_dir.as_str());
    push_pair(&mut list, "TMP", host.temp_dir.as_str());
    proof {
        assert(pairs(list@) =~= base_environment(*host, false));
        assert(pairs(list@) =~= base_environment(*host, true));
    }
    list
}

/// The environment that a command starts from.
pub fn sanitized_base_environment(host: &ExecHost, in_sandbox: bool) -> (list: Vec<(String, String)>)
    ensures
        pairs(list@) == base_environment(*host, in_sandbox),
{
    if host.shell.windows {
        return windows_environment(host);
    }
    let mut list: Vec<(String, String)> = Vec::new();
    let path = if in_sandbox {
        "/usr/local/sbin:/usr/local/bin:/usr/sbin:/usr/bin:/sbin:/bin".to_owned()
    } else {
        match get_filled(&host.environment, "PATH") {
            Some(value) => value,
            None => "/usr/local/sbin:/usr/local/bin:/usr/sbin:/usr/bin:/sbin:/bin".to_owned(),
        }
    };
    push_pair(&mut list, "PATH", path.as_str());
    push_pair(&mut list, "HOME", "/tmp");
    push_pair(&mut list, "TMPDIR", "/tmp");
    push_pair(&mut list, "LANG", "C.UTF-8");
    proof {
        assert(pairs(list@) =~= base_environment(*host, in_sandbox));
    }
    list
}

/// What a caller may add to the environment of a command.
pub open spec fn valid_addition(name: Seq<char>, value: Seq<char>) -> bool {
    utf8_len(name) <= 128 && utf8_len(value) <= 8192 && !name.contains('=') && !name.contains('\0')
        && !value.contains('\0')
}

pub open spec fn additions_valid(additions: Seq<(Seq<char>, Seq<char>)>) -> bool {
    forall|i: int|
        0 <= i < additions.len() ==> valid_addition((#[trigger] additions[i]).0, additions[i].1)
}

/// Variables that name the container service.
pub open spec fn container_variables(socket: Option<Seq<char>>, in_sandbox: bool) -> Seq<
    (Seq<char>, Seq<char>),
> {
    match socket {
        None => Seq::empty(),
        Some(path) => {
            let uri = if in_sandbox {
                "unix:///run/podman.sock"@
            } else {
                "unix://"@ + path
            };
            seq![("CONTAINER_HOST"@, uri), ("DOCKER_HOST"@, uri)]
        },
    }
}

/// The environment of a command.
pub open spec fn command_environment(
    host: ExecHost,
    socket: Option<Seq<char>>,
    in_sandbox: bool,
    additions: Seq<(Seq<char>, Seq<char>)>,
) -> Result<Seq<(Seq<char>, Seq<char>)>, ErrorView> {
    if additions_valid(additions) {
        Ok(
            base_environment(host, in_sandbox) + container_variables(socket, in_sandbox)
                + additions,
        )
    } else {
        Err(error_view("INVALID_INPUT", "invalid environment addition"))
    }
}

fn build_environment(
    host: &ExecHost,
    socket: Option<&str>,
    in_sandbox: bool,
    additions: &Vec<(String, String)>,
) -> (result: Result<Vec<(String, String)>, AppError>)
    ensures
        match result {
            Ok(list) => command_environment(
                *host,
                opt_str_view(socket),
                in_sandbox,
                pairs(additions@),
            ) == Ok::<Seq<(Seq<char>, Seq<char>)>, ErrorView>(pairs(list@)),
            Err(e) => command_environment(
                *host,
                opt_str_view(socket),
                in_sandbox,
                pairs(additions@),
            ) == Err::<Seq<(Seq<char>, Seq<char>)>, ErrorView>(e@),
        },
{
    let mut list = sanitized_base_environment(host, in_sandbox);
    let ghost base = pairs(list@);
    if let Some(path) = socket {
        let uri = if in_sandbox {
            "unix:///run/podman.sock".to_owned()
        } else {
            join2("unix://", path)
        };
        push_pair(&mut list, "CONTAINER_HOST", uri.as_str());
        push_pair(&mut list, "DOCKER_HOST", uri.as_str());
    }
    let ghost fixed = base + container_variables(opt_str_view(socket), in_sandbox);
    let ghost all = pairs(additions@);
    proof {
        assert(pairs(list@) =~= fixed);
        assert(fixed + all.take(0) =~= fixed);
    }
    let mut i: usize = 0;
    while i < additions.len()
        invariant
            i <= additions@.len(),
            all == pairs(additions@),
            pairs(list@) == fixed + all.take(i as int),
            fixed == base_environment(*host, in_sandbox) + container_variables(
                opt_str_view(socket),
                in_sandbox,
            ),
            forall|j: int|
                0 <= j < i ==> valid_addition((#[trigger] all[j]).0, all[j].1),
        decreases additions.len() - i,
    {
        let name = additions[i].0.as_str();
        let value = additions[i].1.as_str();
        proof {
            assert(all[i as int] == (name@, value@));
        }
        if byte_len(name) > 128 || byte_len(value) > 8192 || has_char(name, '=') || has_char(
            name,
            '\0',
        ) || has_char(value, '\0') {
            proof {
                assert(!valid_addition(all[i as int].0, all[i as int].1));
            }
            return Err(error("INVALID_INPUT", "invalid environment addition"));
        }
        let ghost held = pairs(list@);
        push_pair(&mut list, name, value);
        i += 1;
        proof {
            assert(held.push((name@, value@)) =~= fixed + all.take(i as int));
        }
    }
    proof {
        assert(all.take(i as int) =~= all);
    }
    Ok(list)
}

/// A command that is ready to be started.
pub struct CommandPlan {
    pub program: String,
    pub args: Vec<String>,
    /// What follows the arguments word for word, without any quoting.
    pub verbatim: Option<String>,
    pub directory: Option<String>,
    pub environment: Vec<(String, String)>,
    pub interactive: bool,
}

pub struct PlanView {
    pub program: Seq<char>,
    pub args: Seq<Seq<char>>,
    pub verbatim: Option<Seq<char>>,
    pub directory: Option<Seq<char>>,
    pub environment: Seq<(Seq<char>, Seq<char>)>,
    pub interactive: bool,
}

impl View for CommandPlan {
    type V = PlanView;

    open spec fn view(&self) -> PlanView {
        PlanView {
            program: self.program@,
            args: texts(self.args@),
            verbatim: opt_view(self.verbatim),
            directory: opt_view(self.directory),
            environment: pairs(self.environment@),
            interactive: self.interactive,
        }
    }
}

pub open spec fn no_backend() -> ErrorView {
    error_view(
        "SANDBOX_UNAVAILABLE",
        "no usable exec backend; Bubblewrap is unavailable and native execution is disabled",
    )
}

/// A shell command outside the sandbox. On Windows, cmd takes its command word
/// for word in quotes of its own.
pub open spec fn native_shell_plan(line: ShellView, windows: bool, workdir: Seq<char>) -> (
    Seq<Seq<char>>,
    Option<Seq<char>>,
) {
    if windows && line.kind == ShellKind::Cmd {
        (line.args, Some("\""@ + line.text + "\""@))
    } else {
        (line.args.push(line.text), None)
    }
}

/// The plan for a shell command, and whether it runs in the sandbox.
pub open spec fn shell_plan(
    config: Config,
    host: ExecHost,
    root: Seq<char>,
    command: Seq<char>,
    interactive: bool,
    additions: Seq<(Seq<char>, Seq<char>)>,
    workdir: Seq<char>,
    shell: Option<Seq<char>>,
    runtime: HostPath,
    runtime_target: Seq<char>,
) -> Result<(PlanView, bool), ErrorView> {
    let in_sandbox = line_sandboxed(
        config.sandbox_backend@,
        host.bwrap_usable,
        host.podman,
        host.podman_in_bwrap,
        Some(command),
    );
    let wanted = asked_shell(in_sandbox, shell);
    match shell_line(wanted, command, host.shell) {
        Err(e) => Err(e),
        Ok(line) => {
            let started = if in_sandbox {
                match sandbox_options(host, root, workdir, runtime, runtime_target) {
                    Err(e) => Err(e),
                    Ok(options) => Ok(
                        (
                            "/usr/bin/bwrap"@,
                            options.push(line.shell) + line.args.push(line.text),
                            None::<Seq<char>>,
                            None::<Seq<char>>,
                        ),
                    ),
                }
            } else if config.allow_unsandboxed_exec {
                let (args, verbatim) = native_shell_plan(line, host.shell.windows, workdir);
                Ok((line.shell, args, verbatim, Some(workdir)))
            } else {
                Err(no_backend())
            };
            finished_plan(config, host, in_sandbox, interactive, additions, started)
        },
    }
}

/// In the sandbox the default is a plain POSIX shell.
pub open spec fn asked_shell(in_sandbox: bool, shell: Option<Seq<char>>) -> Option<Seq<char>> {
    if shell is None && in_sandbox {
        Some("/bin/sh"@)
    } else {
        shell
    }
}

pub open spec fn finished_plan(
    config: Config,
    host: ExecHost,
    in_sandbox: bool,
    interactive: bool,
    additions: Seq<(Seq<char>, Seq<char>)>,
    started: Result<(Seq<char>, Seq<Seq<char>>, Option<Seq<char>>, Option<Seq<char>>), ErrorView>,
) -> Result<(PlanView, bool), ErrorView> {
    match started {
        Err(e) => Err(e),
        Ok((program, args, verbatim, directory)) => match command_environment(
            host,
            opt_view(config.container_socket),
            in_sandbox,
            additions,
        ) {
            Err(e) => Err(e),
            Ok(environment) => Ok(
                (
                    PlanView { program, args, verbatim, directory, environment, interactive },
                    in_sandbox,
                ),
            ),
        },
    }
}

pub open spec fn plan_answer(result: Result<(CommandPlan, bool), AppError>) -> Result<
    (PlanView, bool),
    ErrorView,
> {
    match result {
        Ok((plan, in_sandbox)) => Ok((plan@, in_sandbox)),
        Err(e) => Err(e@),
    }
}

/// The name of the shell of a command can be read.
pub open spec fn command_shell_readable(
    config: Config,
    host: ExecHost,
    command: Seq<char>,
    shell: Option<Seq<char>>,
) -> bool {
    shell_readable(
        asked_shell(
            line_sandboxed(
                config.sandbox_backend@,
                host.bwrap_usable,
                host.podman,
                host.podman_in_bwrap,
                Some(command),
            ),
            shell,
        ),
        host.shell,
    )
}

fn append_options(args: &mut Vec<String>, more: Vec<String>)
    ensures
        texts(final(args)@) == texts(old(args)@) + texts(more@),
{
    let ghost before = texts(args@);
    let ghost added = texts(more@);
    let mut rest = more;
    args.append(&mut rest);
    proof {
        assert(texts(args@) =~= before + added);
    }
}

/// Plan a shell command, and say whether it runs in the sandbox.
pub fn build_command_with_options_and_runtime_bind(
    config: &Config,
    host: &ExecHost,
    project: &ProjectContext,
    command_text: &str,
    interactive: bool,
    environment: &Vec<(String, String)>,
    workdir: &str,
    shell: Option<&str>,
    runtime: &HostPath,
    runtime_target: &str,
) -> (result: Result<(CommandPlan, bool), AppError>)
    requires
        command_shell_readable(*config, *host, command_text@, opt_str_view(shell)),
    ensures
        plan_answer(result) == shell_plan(
            *config,
            *host,
            project.project_root@,
            command_text@,
            interactive,
            pairs(environment@),
            workdir@,
            opt_str_view(shell),
            *runtime,
            runtime_target@,
        ),
{
    let in_sandbox = use_bwrap(
        config.sandbox_backend.as_str(),
        host.bwrap_usable,
        host.podman,
        host.podman_in_bwrap,
        Some(command_text),
    );
    let wanted = if shell.is_none() && in_sandbox {
        Some("/bin/sh")
    } else {
        shell
    };
    let line = match shell_command(wanted, command_text, &host.shell) {
        Ok(line) => line,
        Err(e) => {
            return Err(e);
        },
    };
    let ghost shown = line@;
    let program: String;
    let mut args: Vec<String>;
    let mut verbatim: Option<String> = None;
    let mut directory: Option<String> = None;
    if in_sandbox {
        args = match bubblewrap_arguments(
            host,
            project.project_root.as_str(),
            workdir,
            runtime,
            runtime_target,
        ) {
            Ok(args) => args,
            Err(e) => {
                return Err(e);
            },
        };
        let ghost options = texts(args@);
        program = "/usr/bin/bwrap".to_owned();
        push_option(&mut args, line.shell.as_str());
        append_options(&mut args, line.args);
        push_option(&mut args, line.text.as_str());
        proof {
            assert(texts(args@) =~= options.push(shown.shell) + shown.args.push(shown.text));
        }
    } else if config.allow_unsandboxed_exec {
        program = line.shell;
        args = line.args;
        directory = Some(workdir.to_owned());
        if host.shell.windows && line.kind == ShellKind::Cmd {
            verbatim = Some(join3("\"", line.text.as_str(), "\""));
        } else {
            push_option(&mut args, line.text.as_str());
        }
    } else {
        return Err(
            error(
                "SANDBOX_UNAVAILABLE",
                "no usable exec backend; Bubblewrap is unavailable and native execution is disabled",
            ),
        );
    }
    match build_environment(
        host,
        crate::text::opt_str(&config.container_socket),
        in_sandbox,
        environment,
    ) {
        Err(e) => Err(e),
        Ok(environment) => Ok(
            (
                CommandPlan { program, args, verbatim, directory, environment, interactive },
                in_sandbox,
            ),
        ),
    }
}

/// Plan a shell command in a directory of the project.
pub fn build_command_with_options(
    config: &Config,
    host: &ExecHost,
    project: &ProjectContext,
    command_text: &str,
    interactive: bool,
    environment: &Vec<(String, String)>,
    workdir: &str,
    shell: Option<&str>,
) -> (result: Result<CommandPlan, AppError>)
    requires
        command_shell_readable(*config, *host, command_text@, opt_str_view(shell)),
    ensures
        match (
            result,
            shell_plan(
                *config,
                *host,
                project.project_root@,
                command_text@,
                interactive,
                pairs(environment@),
                workdir@,
                opt_str_view(shell),
                HostPath::Unset,
                ""@,
            ),
        ) {
            (Ok(plan), Ok((expected, _))) => plan@ == expected,
            (Err(e), Err(expected)) => e@ == expected,
            _ => false,
        },
{
    match build_command_with_options_and_runtime_bind(
        config,
        host,
        project,
        command_text,
        interactive,
        environment,
        workdir,
        shell,
        &HostPath::Unset,
        "",
    ) {
        Ok((plan, _)) => Ok(plan),
        Err(e) => Err(e),
    }
}

/// Plan a shell command in the root of the project, for the default shell.
pub fn build_command(
    config: &Config,
    host: &ExecHost,
    project: &ProjectContext,
    command_text: &str,
    interactive: bool,
    environment: &Vec<(String, String)>,
) -> (result: Result<CommandPlan, AppError>)
    requires
        command_shell_readable(*config, *host, command_text@, None),
    ensures
        match (
            result,
            shell_plan(
                *config,
                *host,
                project.project_root@,
                command_text@,
                interactive,
                pairs(environment@),
                project.project_root@,
                None,
                HostPath::Unset,
                ""@,
            ),
        ) {
            (Ok(plan), Ok((expected, _))) => plan@ == expected,
            (Err(e), Err(expected)) => e@ == expected,
            _ => false,
        },
{
    build_command_with_options(
        config,
        host,
        project,
        command_text,
        interactive,
        environment,
        project.project_root.as_str(),
        None,
    )
}

/// Whether the name of the shell of a command can be read.
pub fn is_command_shell_readable(
    config: &Config,
    host: &ExecHost,
    command_text: &str,
    shell: Option<&str>,
) -> (r: bool)
    ensures
        r == command_shell_readable(*config, *host, command_text@, opt_str_view(shell)),
{
    let in_sandbox = use_bwrap(
        config.sandbox_backend.as_str(),
        host.bwrap_usable,
        host.podman,
        host.podman_in_bwrap,
        Some(command_text),
    );
    let wanted = if shell.is_none() && in_sandbox {
        Some("/bin/sh")
    } else {
        shell
    };
    is_shell_readable(wanted, &host.shell)
}

/// Why a program with arguments is refused.
pub open spec fn argv_refusal(executable: Seq<char>, arguments: Seq<Seq<char>>, limit: int) -> Option<
    ErrorView,
> {
    if executable.len() == 0 || utf8_len(executable) > 4096 || has_break(executable) || exists|
        i: int,
    |
        0 <= i < arguments.len() && has_break(#[trigger] arguments[i]) {
        Some(error_view("INVALID_INPUT", "invalid executable or argv value"))
    } else if counted_len(executable, arguments) > limit {
        Some(
            error_view(
                "INPUT_TOO_LARGE",
                "executable and arguments exceed MAX_INPUT_STRING_BYTES",
            ),
        )
    } else {
        None
    }
}

/// The bytes of a program's name and arguments, as far as they can be counted.
pub open spec fn counted_len(executable: Seq<char>, arguments: Seq<Seq<char>>) -> int {
    if utf8_len(executable) + total_len(arguments) <= usize::MAX {
        (utf8_len(executable) + total_len(arguments)) as int
    } else {
        usize::MAX as int
    }
}

pub open spec fn has_break(text: Seq<char>) -> bool {
    text.contains('\0') || text.contains('\n') || text.contains('\r')
}

pub open spec fn total_len(arguments: Seq<Seq<char>>) -> nat
    decreases arguments.len(),
{
    if arguments.len() == 0 {
        0
    } else {
        total_len(arguments.drop_last()) + utf8_len(arguments.last())
    }
}

fn breaks(text: &str) -> (r: bool)
    ensures
        r == has_break(text@),
{
    has_char(text, '\0') || has_char(text, '\n') || has_char(text, '\r')
}

fn any_break(arguments: &Vec<String>) -> (r: bool)
    ensures
        r == exists|i: int|
            0 <= i < arguments@.len() && has_break(#[trigger] texts(arguments@)[i]),
{
    let mut i: usize = 0;
    while i < arguments.len()
        invariant
            i <= arguments@.len(),
            forall|j: int| 0 <= j < i ==> !has_break(#[trigger] texts(arguments@)[j]),
        decreases arguments.len() - i,
    {
        if breaks(arguments[i].as_str()) {
            proof {
                assert(has_break(texts(arguments@)[i as int]));
            }
            return true;
        }
        i += 1;
    }
    false
}

fn encoded_len(executable: &str, arguments: &Vec<String>) -> (n: usize)
    ensures
        n == counted_len(executable@, texts(arguments@)),
{
    let ghost all = texts(arguments@);
    let mut n: usize = byte_len(executable);
    let mut i: usize = 0;
    while i < arguments.len()
        invariant
            i <= arguments@.len(),
            all == texts(arguments@),
            n == counted_len(executable@, all.take(i as int)),
        decreases arguments.len() - i,
    {
        proof {
            assert(all.take(i + 1).drop_last() =~= all.take(i as int));
            assert(all.take(i + 1).last() == arguments@[i as int]@);
        }
        n = n.saturating_add(byte_len(arguments[i].as_str()));
        i += 1;
    }
    proof {
        assert(all.take(i as int) =~= all);
    }
    n
}

/// The plan for a program with arguments.
pub open spec fn argv_plan(
    config: Config,
    host: ExecHost,
    root: Seq<char>,
    executable: Seq<char>,
    arguments: Seq<Seq<char>>,
    additions: Seq<(Seq<char>, Seq<char>)>,
) -> Result<(PlanView, bool), ErrorView> {
    let in_sandbox = line_sandboxed(
        config.sandbox_backend@,
        host.bwrap_usable,
        host.podman,
        host.podman_in_bwrap,
        Some(executable),
    );
    match argv_refusal(executable, arguments, config.limits.input_string_bytes as int) {
        Some(e) => Err(e),
        None => {
            let started = if in_sandbox {
                match sandbox_options(host, root, root, HostPath::Unset, ""@) {
                    Err(e) => Err(e),
                    Ok(options) => Ok(
                        (
                            "/usr/bin/bwrap"@,
                            options.push(executable) + arguments,
                            None::<Seq<char>>,
                            None::<Seq<char>>,
                        ),
                    ),
                }
            } else if config.allow_unsandboxed_exec {
                Ok((executable, arguments, None::<Seq<char>>, Some(root)))
            } else {
                Err(no_backend())
            };
            finished_plan(config, host, in_sandbox, false, additions, started)
        },
    }
}

fn copy_texts(list: &Vec<String>) -> (copied: Vec<String>)
    ensures
        texts(copied@) == texts(list@),
{
    let mut copied: Vec<String> = Vec::new();
    let mut i: usize = 0;
    while i < list.len()
        invariant
            i <= list@.len(),
            copied@.len() == i,
            forall|j: int| 0 <= j < i ==> (#[trigger] copied@[j])@ == list@[j]@,
        decreases list.len() - i,
    {
        copied.push(list[i].clone());
        i += 1;
    }
    proof {
        assert(texts(copied@) =~= texts(list@));
    }
    copied
}

/// Plan a program with arguments.
pub fn build_argv_command(
    config: &Config,
    host: &ExecHost,
    project: &ProjectContext,
    executable: &str,
    arguments: &Vec<String>,
    environment: &Vec<(String, String)>,
) -> (result: Result<(CommandPlan, bool), AppError>)
    ensures
        plan_answer(result) == argv_plan(
            *config,
            *host,
            project.project_root@,
            executable@,
            texts(arguments@),
            pairs(environment@),
        ),
{
    if executable.is_empty() || byte_len(executable) > 4096 || breaks(executable) || any_break(
        arguments,
    ) {
        return Err(error("INVALID_INPUT", "invalid executable or argv value"));
    }
    if encoded_len(executable, arguments) > config.limits.input_string_bytes {
        return Err(
            error("INPUT_TOO_LARGE", "executable and arguments exceed MAX_INPUT_STRING_BYTES"),
        );
    }
    let in_sandbox = use_bwrap(
        config.sandbox_backend.as_str(),
        host.bwrap_usable,
        host.podman,
        host.podman_in_bwrap,
        Some(executable),
    );
    let root = project.project_root.as_str();
    let program: String;
    let mut args: Vec<String>;
    let mut directory: Option<String> = None;
    if in_sandbox {
        args = match bubblewrap_arguments(host, root, root, &HostPath::Unset, "") {
            Ok(args) => args,
            Err(e) => {
                return Err(e);
            },
        };
        program = "/usr/bin/bwrap".to_owned();
        push_option(&mut args, executable);
        append_options(&mut args, copy_texts(arguments));
    } else if config.allow_unsandboxed_exec {
        program = executable.to_owned();
        args = copy_texts(arguments);
        directory = Some(root.to_owned());
    } else {
        return Err(
            error(
                "SANDBOX_UNAVAILABLE",
                "no usable exec backend; Bubblewrap is unavailable and native execution is disabled",
            ),
        );
    }
    match build_environment(
        host,
        crate::text::opt_str(&config.container_socket),
        in_sandbox,
        environment,
    ) {
        Err(e) => Err(e),
        Ok(environment) => Ok(
            (
                CommandPlan {
                    program,
                    args,
                    verbatim: None,
                    directory,
                    environment,
                    interactive: false,
                },
                in_sandbox,
            ),
        ),
    }
}

/// A command text that may be run: not empty, and not too long.
pub fn check_command(command_text: &str, limit: usize) -> (result: Result<(), AppError>)
    ensures
        unit_view(result) == if command_text@.len() == 0 || utf8_len(command_text@) > limit {
            Err(
                error_view(
                    "INPUT_TOO_LARGE",
                    "command is empty or exceeds MAX_INPUT_STRING_BYTES",
                ),
            )
        } else {
            Ok(())
        },
{
    if command_text.is_empty() || byte_len(command_text) > limit {
        return Err(
            error("INPUT_TOO_LARGE", "command is empty or exceeds MAX_INPUT_STRING_BYTES"),
        );
    }
    Ok(())
}

/// The command that shows by its exit status whether Podman works inside the
/// sandbox. Without a sandbox, or where it lacks what the settings name, there is
/// none: Podman does not work there.
pub open spec fn podman_trial(host: ExecHost, socket: Option<Seq<char>>, root: Seq<char>) -> Option<
    PlanView,
> {
    if !host.bwrap_usable || host.shell.windows {
        None
    } else {
        match sandbox_options(host, root, root, HostPath::Unset, ""@) {
            Err(_) => None,
            Ok(options) => Some(
                PlanView {
                    program: "/usr/bin/bwrap"@,
                    args: options + seq!["podman"@, "info"@, "--format"@, "json"@],
                    verbatim: None,
                    directory: None,
                    environment: base_environment(host, true) + container_variables(socket, true),
                    interactive: false,
                },
            ),
        }
    }
}

pub fn probe_podman_in_bwrap(config: &Config, host: &ExecHost, project: &ProjectContext) -> (trial:
    Option<CommandPlan>)
    ensures
        match (trial, podman_trial(
            *host,
            opt_view(config.container_socket),
            project.project_root@,
        )) {
            (Some(plan), Some(expected)) => plan@ == expected,
            (None, None) => true,
            _ => false,
        },
{
    if !host.bwrap_usable || host.shell.windows {
        return None;
    }
    let root = project.project_root.as_str();
    let mut args = match bubblewrap_arguments(host, root, root, &HostPath::Unset, "") {
        Ok(args) => args,
        Err(_) => {
            return None;
        },
    };
    let ghost options = texts(args@);
    push_option(&mut args, "podman");
    push_option(&mut args, "info");
    push_option(&mut args, "--format");
    push_option(&mut args, "json");
    let additions: Vec<(String, String)> = Vec::new();
    proof {
        assert(pairs(additions@) =~= Seq::empty());
        assert(texts(args@) =~= options + seq!["podman"@, "info"@, "--format"@, "json"@]);
    }
    let environment = match build_environment(
        host,
        opt_str(&config.container_socket),
        true,
        &additions,
    ) {
        Ok(environment) => environment,
        Err(_) => {
            return None;
        },
    };
    let plan = CommandPlan {
        program: "/usr/bin/bwrap".to_owned(),
        args,
        verbatim: None,
        directory: None,
        environment,
        interactive: false,
    };
    proof {
        assert(plan@.environment =~= base_environment(*host, true) + container_variables(
            opt_view(config.container_socket),
            true,
        ));
    }
    Some(plan)
}

/// A command in the sandbox has the network of the machine and the project as
/// its workspace, and no other directory of the machine to write to but those
/// that the settings or the caller bind.
pub proof fn sandbox_shares_network_and_project(
    host: ExecHost,
    root: Seq<char>,
    workdir: Seq<char>,
    runtime: HostPath,
    target: Seq<char>,
)
    requires
        sandbox_options(host, root, workdir, runtime, target) is Ok,
    ensures
        ({
            let options = sandbox_options(host, root, workdir, runtime, target)->Ok_0;
            &&& within(workdir, root, '/')
            &&& options[0] == "--unshare-all"@
            &&& options[1] == "--share-net"@
            &&& fixed_options(host, root, workdir).is_prefix_of(options)
            &&& fixed_options(host, root, workdir).contains("--bind"@)
            &&& fixed_options(host, root, workdir).contains(root)
        }),
{
    let fixed = fixed_options(host, root, workdir);
    let shown = shown_binds(texts(host.present_paths@), 11);
    assert(fixed[shown.len() as int + 10] == "--bind"@);
    assert(fixed[shown.len() as int + 11] == root);
}

}
