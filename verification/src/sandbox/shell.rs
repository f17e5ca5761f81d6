//! Shells, and how they are handed a command.
use vstd::prelude::*;
use vstd::utf8::{encode_utf8, is_char_boundary};

use crate::encoding::{base64_standard, encode_standard};
use crate::error::{error, error_view, AppError, ErrorView};
use crate::search::{has_char, texts};
use crate::text::{
    byte_len, from_chars, join3, lowered, opt_str_view, opt_view, to_chars, to_lowered, utf8_len,
};

verus! {

#[derive(Clone, Copy, Debug, PartialEq, Eq, Structural)]
pub enum ShellKind {
    Posix,
    PowerShell,
    Cmd,
}

pub open spec fn kind_name(kind: ShellKind) -> Seq<char> {
    match kind {
        ShellKind::Posix => "posix"@,
        ShellKind::PowerShell => "powershell"@,
        ShellKind::Cmd => "cmd"@,
    }
}

impl ShellKind {
    pub fn as_str(self) -> (name: &'static str)
        ensures
            name@ == kind_name(self),
    {
        match self {
            ShellKind::Posix => "posix",
            ShellKind::PowerShell => "powershell",
            ShellKind::Cmd => "cmd",
        }
    }
}

pub open spec fn separates(c: char) -> bool {
    c == '/' || c == '\\'
}

/// What stands behind the last separator.
pub open spec fn base_name(path: Seq<char>) -> Seq<char>
    decreases path.len(),
{
    if path.len() == 0 || separates(path.last()) {
        Seq::empty()
    } else {
        base_name(path.drop_last()).push(path.last())
    }
}

pub(crate) fn find_base_name(path: &str) -> (base: String)
    ensures
        base@ == base_name(path@),
{
    let chars = to_chars(path);
    let mut start: usize = chars.len();
    proof {
        assert(chars@.take(start as int) =~= path@);
        assert(base_name(path@) =~= base_name(chars@.take(start as int)) + chars@.skip(
            start as int,
        ));
    }
    while start > 0 && chars[start - 1] != '/' && chars[start - 1] != '\\'
        invariant
            start <= chars@.len(),
            chars@ == path@,
            base_name(path@) == base_name(chars@.take(start as int)) + chars@.skip(start as int),
        decreases start,
    {
        proof {
            let before = chars@.take(start as int);
            assert(before.drop_last() =~= chars@.take(start - 1));
            assert(base_name(before.drop_last()).push(before.last()) + chars@.skip(start as int)
                =~= base_name(chars@.take(start - 1)) + chars@.skip(start - 1));
        }
        start -= 1;
    }
    proof {
        assert(base_name(chars@.take(start as int)) =~= Seq::empty());
        assert(chars@.subrange(start as int, chars@.len() as int) =~= Seq::<char>::empty()
            + chars@.skip(start as int));
    }
    from_chars(&chars, start, chars.len())
}

/// A name without the ending of an executable.
pub open spec fn without_exe(name: Seq<char>) -> Seq<char> {
    if name.len() >= 4 && lowered(name.skip(name.len() - 4)) == ".exe"@ {
        name.take(name.len() - 4)
    } else {
        name
    }
}

/// What a shell is, by its name.
pub open spec fn kind_of(shell: Seq<char>) -> ShellKind {
    let name = lowered(without_exe(base_name(shell)));
    if name == "powershell"@ || name == "pwsh"@ {
        ShellKind::PowerShell
    } else if name == "cmd"@ {
        ShellKind::Cmd
    } else {
        ShellKind::Posix
    }
}

/// The last four bytes of the name are whole characters.
pub open spec fn ending_is_whole(name: Seq<char>) -> bool {
    utf8_len(name) >= 4 ==> is_char_boundary(encode_utf8(name), utf8_len(name) - 4)
}

/// Whether the ending of a shell's name can be told.
pub fn shell_ending_is_whole(shell: &str) -> (r: bool)
    ensures
        r == ending_is_whole(base_name(shell@)),
{
    let base = find_base_name(shell);
    let bytes = byte_len(base.as_str());
    bytes < 4 || base.as_str().is_char_boundary(bytes - 4)
}

pub fn shell_kind(shell: &str) -> (kind: ShellKind)
    requires
        ending_is_whole(base_name(shell@)),
    ensures
        kind == kind_of(shell@),
{
    let base = find_base_name(shell);
    let chars = to_chars(base.as_str());
    let mut name = base.clone();
    if chars.len() >= 4 {
        let ending = from_chars(&chars, chars.len() - 4, chars.len());
        proof {
            assert(ending@ =~= base@.skip(base@.len() - 4));
        }
        if to_lowered(ending.as_str()).as_str().eq(".exe") {
            name = from_chars(&chars, 0, chars.len() - 4);
            proof {
                assert(name@ =~= base@.take(base@.len() - 4));
            }
        }
    }
    let small = to_lowered(name.as_str());
    if small.as_str().eq("powershell") || small.as_str().eq("pwsh") {
        ShellKind::PowerShell
    } else if small.as_str().eq("cmd") {
        ShellKind::Cmd
    } else {
        ShellKind::Posix
    }
}

/// A text that can name a shell.
pub open spec fn valid_shell(shell: Seq<char>) -> bool {
    shell.len() > 0 && utf8_len(shell) <= 4096 && !shell.contains('\0') && !shell.contains('\n')
        && !shell.contains('\r')
}

pub fn valid_shell_executable(shell: &str) -> (r: bool)
    ensures
        r == valid_shell(shell@),
{
    !shell.is_empty() && byte_len(shell) <= 4096 && !has_char(shell, '\0') && !has_char(shell, '\n')
        && !has_char(shell, '\r')
}

pub open spec fn cmd_executable(shell: Seq<char>) -> bool {
    valid_shell(shell) && lowered(base_name(shell)) == "cmd.exe"@
}

pub fn is_cmd_executable(shell: &str) -> (r: bool)
    ensures
        r == cmd_executable(shell@),
{
    if !valid_shell_executable(shell) {
        return false;
    }
    to_lowered(find_base_name(shell).as_str()).as_str().eq("cmd.exe")
}

/// The program that a shell's name stands for on Windows: a bare name becomes
/// that of the program, a path stays.
pub open spec fn windows_program(shell: Seq<char>, kind: ShellKind, comspec: Option<Seq<char>>) -> Seq<
    char,
> {
    let small = lowered(shell);
    if shell.contains('/') || shell.contains('\\') || shell.contains(':') {
        shell
    } else if kind == ShellKind::Cmd {
        match comspec {
            Some(path) if cmd_executable(path) => path,
            _ => "cmd.exe"@,
        }
    } else if kind == ShellKind::PowerShell && (small == "powershell"@ || small
        == "powershell.exe"@) {
        "powershell.exe"@
    } else if kind == ShellKind::PowerShell && (small == "pwsh"@ || small == "pwsh.exe"@) {
        "pwsh.exe"@
    } else {
        shell
    }
}

pub fn windows_shell_executable(shell: &str, kind: ShellKind, comspec: Option<&str>) -> (program:
    String)
    ensures
        program@ == windows_program(shell@, kind, opt_str_view(comspec)),
{
    if has_char(shell, '/') || has_char(shell, '\\') || has_char(shell, ':') {
        return shell.to_owned();
    }
    let small = to_lowered(shell);
    match kind {
        ShellKind::Cmd => match comspec {
            Some(path) => if is_cmd_executable(path) {
                path.to_owned()
            } else {
                "cmd.exe".to_owned()
            },
            None => "cmd.exe".to_owned(),
        },
        ShellKind::PowerShell => {
            if small.as_str().eq("powershell") || small.as_str().eq("powershell.exe") {
                "powershell.exe".to_owned()
            } else if small.as_str().eq("pwsh") || small.as_str().eq("pwsh.exe") {
                "pwsh.exe".to_owned()
            } else {
                shell.to_owned()
            }
        },
        ShellKind::Posix => shell.to_owned(),
    }
}

/// What of the machine decides on shells.
pub struct ShellHost {
    pub windows: bool,
    /// The environment variable SHELL.
    pub shell: Option<String>,
    /// The environment variable ComSpec.
    pub comspec: Option<String>,
}

/// The shell that is taken where none is named.
pub open spec fn default_shell_of(host: ShellHost) -> Seq<char> {
    if host.windows {
        "powershell.exe"@
    } else {
        match opt_view(host.shell) {
            Some(shell) if shell.len() > 0 => shell,
            _ => "/bin/sh"@,
        }
    }
}

pub fn default_shell(host: &ShellHost) -> (shell: String)
    ensures
        shell@ == default_shell_of(*host),
{
    if host.windows {
        return "powershell.exe".to_owned();
    }
    match &host.shell {
        Some(shell) => if shell.as_str().is_empty() {
            "/bin/sh".to_owned()
        } else {
            shell.clone()
        },
        None => "/bin/sh".to_owned(),
    }
}

/// A command for PowerShell that ends with the command's own exit code: success
/// is told right behind the command, and a failed native command keeps its
/// code.
pub open spec fn script_of(command: Seq<char>) -> Seq<char> {
    "$global:LASTEXITCODE = $null\n"@ + command
        + "\n$codexbridge_success = $?\n$codexbridge_exit_code = $LASTEXITCODE\nif ($codexbridge_success) { exit 0 }\nif ($null -ne $codexbridge_exit_code) { exit $codexbridge_exit_code }\nexit 1"@
}

pub fn powershell_script(command_text: &str) -> (script: String)
    ensures
        script@ == script_of(command_text@),
{
    join3(
        "$global:LASTEXITCODE = $null\n",
        command_text,
        "\n$codexbridge_success = $?\n$codexbridge_exit_code = $LASTEXITCODE\nif ($codexbridge_success) { exit 0 }\nif ($null -ne $codexbridge_exit_code) { exit $codexbridge_exit_code }\nexit 1",
    )
}

/// A number below 65536 as two bytes, the least significant first.
pub open spec fn le16(n: int) -> Seq<u8> {
    seq![(n % 256) as u8, (n / 256 % 256) as u8]
}

/// A character in UTF-16: itself, or a pair of surrogates.
pub open spec fn utf16_char(c: char) -> Seq<u8> {
    let n = c as u32 as int;
    if n < 0x1_0000 {
        le16(n)
    } else {
        le16(0xd800 + (n - 0x1_0000) / 0x400) + le16(0xdc00 + (n - 0x1_0000) % 0x400)
    }
}

/// A text in UTF-16, the least significant bytes first.
pub open spec fn utf16le(text: Seq<char>) -> Seq<u8>
    decreases text.len(),
{
    if text.len() == 0 {
        Seq::empty()
    } else {
        utf16le(text.drop_last()) + utf16_char(text.last())
    }
}

fn push_le16(bytes: &mut Vec<u8>, n: u32)
    ensures
        final(bytes)@ == old(bytes)@ + le16(n as int),
{
    bytes.push((n % 256) as u8);
    bytes.push((n / 256 % 256) as u8);
    proof {
        assert(bytes@ =~= old(bytes)@ + le16(n as int));
    }
}

fn to_utf16le(text: &str) -> (bytes: Vec<u8>)
    ensures
        bytes@ == utf16le(text@),
{
    let chars = to_chars(text);
    let mut bytes: Vec<u8> = Vec::new();
    let mut i: usize = 0;
    while i < chars.len()
        invariant
            i <= chars@.len(),
            chars@ == text@,
            bytes@ == utf16le(text@.take(i as int)),
        decreases chars.len() - i,
    {
        proof {
            assert(text@.take(i + 1).drop_last() =~= text@.take(i as int));
        }
        let ghost before = bytes@;
        let n: u32 = chars[i] as u32;
        if n < 0x1_0000 {
            push_le16(&mut bytes, n);
        } else {
            proof {
                vstd::utf8::char_is_scalar(chars@[i as int]);
                assert(n <= 0x10_ffff);
            }
            push_le16(&mut bytes, 0xd800 + (n - 0x1_0000) / 0x400);
            push_le16(&mut bytes, 0xdc00 + (n - 0x1_0000) % 0x400);
            proof {
                let high = le16(0xd800 + (n - 0x1_0000) / 0x400);
                let low = le16(0xdc00 + (n - 0x1_0000) % 0x400);
                assert(before + high + low =~= before + (high + low));
            }
        }
        i += 1;
    }
    proof {
        assert(text@.take(i as int) =~= text@);
    }
    bytes
}

/// A command for PowerShell in the encoding that its option for encoded
/// commands takes.
pub fn powershell_encoded_command(command_text: &str) -> (text: String)
    ensures
        text@ == base64_standard(utf16le(script_of(command_text@))),
{
    encode_standard(&to_utf16le(powershell_script(command_text).as_str()))
}

/// The options that a shell takes a command behind. On Windows a PowerShell
/// that was asked for by name also has its streams set to text.
pub open spec fn shell_options(kind: ShellKind, windows: bool, named: bool) -> Seq<Seq<char>> {
    match kind {
        ShellKind::Posix => seq!["-c"@],
        ShellKind::Cmd => seq!["/d"@, "/s"@, "/c"@],
        ShellKind::PowerShell => if !windows {
            seq!["-NoLogo"@, "-NoProfile"@, "-Command"@]
        } else if named {
            seq![
                "-NoLogo"@,
                "-NoProfile"@,
                "-InputFormat"@,
                "Text"@,
                "-OutputFormat"@,
                "Text"@,
                "-NonInteractive"@,
                "-EncodedCommand"@,
            ]
        } else {
            seq!["-NoLogo"@, "-NoProfile"@, "-NonInteractive"@, "-EncodedCommand"@]
        },
    }
}

/// The command as a shell takes it.
pub open spec fn shell_payload(kind: ShellKind, windows: bool, command: Seq<char>) -> Seq<char> {
    if kind == ShellKind::PowerShell {
        if windows {
            base64_standard(utf16le(script_of(command)))
        } else {
            script_of(command)
        }
    } else {
        command
    }
}

fn list_options(kind: ShellKind, windows: bool, named: bool) -> (args: Vec<String>)
    ensures
        texts(args@) == shell_options(kind, windows, named),
{
    let mut args: Vec<String> = Vec::new();
    match kind {
        ShellKind::Posix => {
            args.push("-c".to_owned());
        },
        ShellKind::Cmd => {
            args.push("/d".to_owned());
            args.push("/s".to_owned());
            args.push("/c".to_owned());
        },
        ShellKind::PowerShell => {
            args.push("-NoLogo".to_owned());
            args.push("-NoProfile".to_owned());
            if !windows {
                args.push("-Command".to_owned());
            } else {
                if named {
                    args.push("-InputFormat".to_owned());
                    args.push("Text".to_owned());
                    args.push("-OutputFormat".to_owned());
                    args.push("Text".to_owned());
                }
                args.push("-NonInteractive".to_owned());
                args.push("-EncodedCommand".to_owned());
            }
        },
    }
    proof {
        assert(texts(args@) =~= shell_options(kind, windows, named));
    }
    args
}

/// A shell, the options before the command, and the command as the shell takes
/// it.
pub struct ShellCommand {
    pub shell: String,
    pub kind: ShellKind,
    pub args: Vec<String>,
    pub text: String,
}

pub struct ShellView {
    pub shell: Seq<char>,
    pub kind: ShellKind,
    pub args: Seq<Seq<char>>,
    pub text: Seq<char>,
}

impl View for ShellCommand {
    type V = ShellView;

    open spec fn view(&self) -> ShellView {
        ShellView {
            shell: self.shell@,
            kind: self.kind,
            args: texts(self.args@),
            text: self.text@,
        }
    }
}

/// The shell that is asked for by name.
pub open spec fn named_shell(explicit: Option<Seq<char>>) -> Option<Seq<char>> {
    match explicit {
        Some(shell) if shell.len() > 0 => Some(shell),
        _ => None,
    }
}

pub open spec fn chosen_shell(explicit: Option<Seq<char>>, host: ShellHost) -> Seq<char> {
    match named_shell(explicit) {
        Some(shell) => shell,
        None => default_shell_of(host),
    }
}

/// How a command is handed to a shell.
pub open spec fn shell_line(explicit: Option<Seq<char>>, command: Seq<char>, host: ShellHost) -> Result<
    ShellView,
    ErrorView,
> {
    let shell = chosen_shell(explicit, host);
    if !valid_shell(shell) {
        Err(error_view("INVALID_INPUT", "invalid shell executable"))
    } else {
        let kind = kind_of(shell);
        Ok(
            ShellView {
                shell: if host.windows {
                    windows_program(shell, kind, opt_view(host.comspec))
                } else {
                    shell
                },
                kind,
                args: shell_options(kind, host.windows, named_shell(explicit) is Some),
                text: shell_payload(kind, host.windows, command),
            },
        )
    }
}

/// The chosen shell is no name at all, or one whose ending can be told.
pub open spec fn shell_readable(explicit: Option<Seq<char>>, host: ShellHost) -> bool {
    let shell = chosen_shell(explicit, host);
    valid_shell(shell) ==> ending_is_whole(base_name(shell))
}

/// Whether the name of the chosen shell can be read.
pub fn is_shell_readable(explicit: Option<&str>, host: &ShellHost) -> (r: bool)
    ensures
        r == shell_readable(opt_str_view(explicit), *host),
{
    let shell = match explicit {
        Some(shell) => if shell.is_empty() {
            default_shell(host)
        } else {
            shell.to_owned()
        },
        None => default_shell(host),
    };
    !valid_shell_executable(shell.as_str()) || shell_ending_is_whole(shell.as_str())
}

/// How a command is handed to a shell.
pub fn shell_command(explicit: Option<&str>, command_text: &str, host: &ShellHost) -> (result: Result<
    ShellCommand,
    AppError,
>)
    requires
        shell_readable(opt_str_view(explicit), *host),
    ensures
        match result {
            Ok(line) => shell_line(opt_str_view(explicit), command_text@, *host) == Ok::<
                ShellView,
                ErrorView,
            >(line@),
            Err(e) => shell_line(opt_str_view(explicit), command_text@, *host) == Err::<
                ShellView,
                ErrorView,
            >(e@),
        },
{
    let named = match explicit {
        Some(shell) => if shell.is_empty() {
            None
        } else {
            Some(shell)
        },
        None => None,
    };
    let shell = match named {
        Some(shell) => shell.to_owned(),
        None => default_shell(host),
    };
    if !valid_shell_executable(shell.as_str()) {
        return Err(error("INVALID_INPUT", "invalid shell executable"));
    }
    let kind = shell_kind(shell.as_str());
    let program = if host.windows {
        windows_shell_executable(shell.as_str(), kind, crate::text::opt_str(&host.comspec))
    } else {
        shell
    };
    let args = list_options(kind, host.windows, named.is_some());
    let text = match kind {
        ShellKind::PowerShell => if host.windows {
            powershell_encoded_command(command_text)
        } else {
            powershell_script(command_text)
        },
        _ => command_text.to_owned(),
    };
    Ok(ShellCommand { shell: program, kind, args, text })
}

/// The shell that commands run in where none is named, what it is, and the
/// options before a command.
pub fn default_exec_shell(sandboxed: bool, host: &ShellHost) -> (r: (String, &'static str, Vec<
    String,
>))
    requires
        !sandboxed ==> ending_is_whole(base_name(default_shell_of(*host))),
    ensures
        ({
            let shell = if sandboxed {
                "/bin/sh"@
            } else {
                default_shell_of(*host)
            };
            &&& r.0@ == shell
            &&& r.1@ == kind_name(kind_of(shell))
            &&& texts(r.2@) == shell_options(kind_of(shell), host.windows, false)
        }),
{
    let shell = if sandboxed {
        "/bin/sh".to_owned()
    } else {
        default_shell(host)
    };
    proof {
        if sandboxed {
            lemma_ascii_ending_is_whole(shell@);
        }
    }
    let kind = shell_kind(shell.as_str());
    (shell, kind.as_str(), list_options(kind, host.windows, false))
}

/// In ASCII every byte is a whole character.
proof fn lemma_ascii_ending_is_whole(shell: Seq<char>)
    requires
        shell == "/bin/sh"@,
    ensures
        ending_is_whole(base_name(shell)),
{
    reveal_strlit("/bin/sh");
    reveal_with_fuel(base_name, 4);
    let s1 = shell.drop_last();
    let s2 = s1.drop_last();
    assert(base_name(s2) =~= Seq::empty());
    assert(base_name(shell) =~= seq!['s', 'h']);
    vstd::utf8::is_ascii_chars_encode_utf8(base_name(shell));
}

}
