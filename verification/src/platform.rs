//! What differs between operating systems.
use vstd::prelude::*;

use crate::config::{entry_of, find_entry, pairs};
use crate::project::{join_path, joined_path};
use crate::sandbox::paths::{is_absolute, starts_absolute, unified, unify};
use crate::search::texts;
use crate::text::{decimal, decimal_text, join2, join3, opt_view};

verus! {

/// A value that is there and not empty.
pub open spec fn given(value: Option<Seq<char>>) -> Option<Seq<char>> {
    match value {
        Some(text) if text.len() > 0 => Some(text),
        _ => None,
    }
}

fn nonempty(value: Option<String>) -> (r: Option<String>)
    ensures
        opt_view(r) == given(opt_view(value)),
{
    match value {
        Some(text) => if text.as_str().is_empty() {
            None
        } else {
            Some(text)
        },
        None => None,
    }
}

/// The home directory of a user: HOME and, on Windows, the profile, else drive
/// and path.
pub open spec fn home_of(
    home: Option<Seq<char>>,
    user_profile: Option<Seq<char>>,
    home_drive: Option<Seq<char>>,
    home_path: Option<Seq<char>>,
    windows: bool,
) -> Option<Seq<char>> {
    if given(home) is Some {
        given(home)
    } else if !windows {
        None
    } else if given(user_profile) is Some {
        given(user_profile)
    } else {
        match (given(home_drive), given(home_path)) {
            (Some(drive), Some(path)) => Some(drive + path),
            _ => None,
        }
    }
}

pub fn user_home_dir_from_values(
    home: Option<String>,
    user_profile: Option<String>,
    home_drive: Option<String>,
    home_path: Option<String>,
    windows: bool,
) -> (directory: Option<String>)
    ensures
        opt_view(directory) == home_of(
            opt_view(home),
            opt_view(user_profile),
            opt_view(home_drive),
            opt_view(home_path),
            windows,
        ),
{
    if let Some(home) = nonempty(home) {
        return Some(home);
    }
    if !windows {
        return None;
    }
    if let Some(profile) = nonempty(user_profile) {
        return Some(profile);
    }
    match (nonempty(home_drive), nonempty(home_path)) {
        (Some(drive), Some(path)) => Some(join2(drive.as_str(), path.as_str())),
        _ => None,
    }
}

pub open spec fn or_default(value: Option<Seq<char>>, default: Seq<char>) -> Seq<char> {
    match value {
        Some(text) => text,
        None => default,
    }
}

/// The environment that an upstream server is started with: little, and nothing
/// of what this process was given but what programs need to be found.
pub open spec fn upstream_environment(
    environment: Seq<(Seq<char>, Seq<char>)>,
    temp_dir: Seq<char>,
    windows: bool,
) -> Seq<(Seq<char>, Seq<char>)> {
    if windows {
        let root = or_default(given(entry_of(environment, "SystemRoot"@)), "C:\\Windows"@);
        let path = or_default(
            given(entry_of(environment, "PATH"@)),
            root + "\\System32;"@ + root + ";"@ + root + "\\System32\\WindowsPowerShell\\v1.0"@,
        );
        let first = seq![("PATH"@, path), ("SystemRoot"@, root), ("WINDIR"@, root)];
        let shell = match given(entry_of(environment, "ComSpec"@)) {
            Some(comspec) => seq![("ComSpec"@, comspec)],
            None => Seq::empty(),
        };
        first + shell + seq![("TEMP"@, temp_dir), ("TMP"@, temp_dir)]
    } else {
        seq![("PATH"@, "/usr/local/bin:/usr/bin:/bin"@), ("LANG"@, "C.UTF-8"@)]
    }
}

fn push_pair(list: &mut Vec<(String, String)>, name: &str, value: &str)
    ensures
        pairs(final(list)@) == pairs(old(list)@).push((name@, value@)),
{
    let ghost before = pairs(list@);
    list.push((name.to_owned(), value.to_owned()));
    proof {
        assert(pairs(list@) =~= before.push((name@, value@)));
    }
}

/// The variables that an upstream server is started with.
pub fn upstream_stdio_environment(
    environment: &Vec<(String, String)>,
    temp_dir: &str,
    windows: bool,
) -> (list: Vec<(String, String)>)
    ensures
        pairs(list@) == upstream_environment(pairs(environment@), temp_dir@, windows),
{
    let mut list: Vec<(String, String)> = Vec::new();
    proof {
        assert(pairs(list@) =~= Seq::empty());
    }
    if windows {
        let system_root = match nonempty(find_entry(environment, "SystemRoot")) {
            Some(root) => root,
            None => "C:\\Windows".to_owned(),
        };
        let root = system_root.as_str();
        let path = match nonempty(find_entry(environment, "PATH")) {
            Some(path) => path,
            None => {
                let mut path = join3(root, "\\System32;", root);
                path.append(";");
                path.append(root);
                path.append("\\System32\\WindowsPowerShell\\v1.0");
                path
            },
        };
        push_pair(&mut list, "PATH", path.as_str());
        push_pair(&mut list, "SystemRoot", root);
        push_pair(&mut list, "WINDIR", root);
        if let Some(comspec) = nonempty(find_entry(environment, "ComSpec")) {
            push_pair(&mut list, "ComSpec", comspec.as_str());
        }
        push_pair(&mut list, "TEMP", temp_dir);
        push_pair(&mut list, "TMP", temp_dir);
    } else {
        push_pair(&mut list, "PATH", "/usr/local/bin:/usr/bin:/bin");
        push_pair(&mut list, "LANG", "C.UTF-8");
    }
    proof {
        assert(pairs(list@) =~= upstream_environment(pairs(environment@), temp_dir@, windows));
    }
    list
}

/// No variable is passed on to an upstream server on Unix, whatever this
/// process was given.
pub proof fn upstream_environment_is_fixed_on_unix(
    a: Seq<(Seq<char>, Seq<char>)>,
    b: Seq<(Seq<char>, Seq<char>)>,
    temp_a: Seq<char>,
    temp_b: Seq<char>,
)
    ensures
        upstream_environment(a, temp_a, false) == upstream_environment(b, temp_b, false),
{
}

/// The directory of Windows, where it is given by an absolute path.
pub open spec fn system_directory(system_root: Option<Seq<char>>) -> Seq<char> {
    match given(system_root) {
        Some(root) if is_absolute(unified(root, '\\'), '\\') => root,
        _ => "C:\\Windows"@,
    }
}

/// The path of a program of Windows. It is never looked up in PATH.
pub open spec fn system_program(system_root: Option<Seq<char>>, name: Seq<char>) -> Seq<char> {
    joined_path(joined_path(system_directory(system_root), "System32"@, '\\'), name, '\\')
}

pub fn windows_system32_executable(system_root: Option<String>, name: &str) -> (path: String)
    ensures
        path@ == system_program(opt_view(system_root), name@),
{
    let root = match nonempty(system_root) {
        Some(root) => if starts_absolute(unify(root.as_str(), '\\').as_str(), '\\') {
            root
        } else {
            "C:\\Windows".to_owned()
        },
        None => "C:\\Windows".to_owned(),
    };
    let directory = join_path(root.as_str(), "System32", '\\');
    join_path(directory.as_str(), name, '\\')
}

/// The arguments with which taskkill ends a process and all that it started.
pub open spec fn kill_arguments(pid: u32, force: bool) -> Seq<Seq<char>> {
    let asked = seq!["/T"@, "/PID"@, decimal(pid as nat)];
    if force {
        asked.push("/F"@)
    } else {
        asked
    }
}

pub fn windows_taskkill_arguments(pid: u32, force: bool) -> (args: Vec<String>)
    ensures
        texts(args@) == kill_arguments(pid, force),
{
    let mut args: Vec<String> = Vec::new();
    args.push("/T".to_owned());
    args.push("/PID".to_owned());
    args.push(decimal_text(pid as u64));
    if force {
        args.push("/F".to_owned());
    }
    proof {
        assert(texts(args@) =~= kill_arguments(pid, force));
    }
    args
}

/// Processes are created without a window; those that may be interrupted on
/// their own lead a group.
pub fn windows_hidden_creation_flags(new_process_group: bool) -> (flags: u32)
    ensures
        flags == if new_process_group {
            0x0800_0200u32
        } else {
            0x0800_0000u32
        },
{
    if new_process_group {
        0x0800_0200
    } else {
        0x0800_0000
    }
}

/// The home of a user is HOME where it is filled, on every system. Else, on Windows alone,
/// it is the profile, else drive and path, where these are filled.
pub proof fn home_is_the_first_that_is_filled(
    home: Seq<char>,
    profile: Option<Seq<char>>,
    drive: Option<Seq<char>>,
    path: Option<Seq<char>>,
    windows: bool,
)
    ensures
        home.len() > 0 ==> home_of(Some(home), profile, drive, path, windows) == Some(home),
        home_of(Some(Seq::empty()), profile, drive, path, windows) == home_of(
            None,
            profile,
            drive,
            path,
            windows,
        ),
        home_of(None, profile, drive, path, false) is None,
        profile is Some && (profile->0).len() > 0 ==> home_of(None, profile, drive, path, true)
            == profile,
        (profile is None || (profile->0).len() == 0) && drive is Some && (drive->0).len() > 0
            && path is Some && (path->0).len() > 0 ==> home_of(None, profile, drive, path, true)
            == Some(drive->0 + path->0),
        (profile is None || (profile->0).len() == 0) && (drive is None || (drive->0).len() == 0
            || path is None || (path->0).len() == 0) ==> home_of(None, profile, drive, path, true)
            is None,
{
}

/// What an upstream server is started with. On Windows that is where programs and the
/// system are found and where temporary files go; elsewhere a fixed path and a language.
pub proof fn upstream_environment_is_small(
    environment: Seq<(Seq<char>, Seq<char>)>,
    temp_dir: Seq<char>,
)
    ensures
        upstream_environment(environment, temp_dir, false) == seq![
            ("PATH"@, "/usr/local/bin:/usr/bin:/bin"@),
            ("LANG"@, "C.UTF-8"@),
        ],
        ({
            let all = upstream_environment(environment, temp_dir, true);
            let n = all.len();
            let path = entry_of(environment, "PATH"@);
            let root = entry_of(environment, "SystemRoot"@);
            let shell = entry_of(environment, "ComSpec"@);
            &&& all[0].0 == "PATH"@ && all[1].0 == "SystemRoot"@ && all[2].0 == "WINDIR"@
            &&& path is Some && (path->0).len() > 0 ==> all[0].1 == path->0
            &&& root is Some && (root->0).len() > 0 ==> all[1].1 == root->0
            &&& root is None || (root->0).len() == 0 ==> all[1].1 == "C:\\Windows"@
            &&& all[2].1 == all[1].1
            &&& shell is Some && (shell->0).len() > 0 ==> n == 6 && all[3] == ("ComSpec"@, shell->0)
            &&& shell is None || (shell->0).len() == 0 ==> n == 5
            &&& all[n - 2] == ("TEMP"@, temp_dir) && all[n - 1] == ("TMP"@, temp_dir)
        }),
{
    assert(upstream_environment(environment, temp_dir, false) =~= seq![
        ("PATH"@, "/usr/local/bin:/usr/bin:/bin"@),
        ("LANG"@, "C.UTF-8"@),
    ]);
}

/// A program of Windows is in System32 of the directory of Windows, which is the default
/// one where none is given or where it is not an absolute path.
pub proof fn system_programs_are_in_their_directory(root: Seq<char>, name: Seq<char>)
    ensures
        system_program(None, name) == "C:\\Windows\\System32\\"@ + name,
        !is_absolute(unified(root, '\\'), '\\') ==> system_program(Some(root), name)
            == system_program(None, name),
        root.len() > 0 && is_absolute(unified(root, '\\'), '\\') && root.last() != '\\' && root.last()
            != '/' ==> system_program(Some(root), name) == root + "\\System32\\"@ + name,
{
    reveal_strlit("C:\\Windows\\System32\\");
    reveal_strlit("C:\\Windows");
    reveal_strlit("System32");
    reveal_strlit("\\System32\\");
    assert(system_program(None, name) =~= "C:\\Windows\\System32\\"@ + name);
    if root.len() > 0 && is_absolute(unified(root, '\\'), '\\') && root.last() != '\\' && root.last()
        != '/' {
        assert(system_program(Some(root), name) =~= root + "\\System32\\"@ + name);
    }
}

/// A process is ended with all that it started, by its number; by force only where that is
/// asked for.
pub proof fn process_is_named_by_its_number(pid: u32)
    ensures
        kill_arguments(pid, false) == seq!["/T"@, "/PID"@, decimal(pid as nat)],
        kill_arguments(pid, true) == seq!["/T"@, "/PID"@, decimal(pid as nat), "/F"@],
{
    assert(kill_arguments(pid, true) =~= seq!["/T"@, "/PID"@, decimal(pid as nat), "/F"@]);
}

}
