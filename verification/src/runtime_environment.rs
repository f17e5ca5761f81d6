//! What an agent is told of the machine that it works on.
use vstd::prelude::*;

use crate::sandbox::podman::{
    advice, backend_name, effective_default_sandbox_backend, PodmanInvocation,
};
use crate::sandbox::shell::{
    base_name, default_exec_shell, default_shell_of, ending_is_whole, kind_name, kind_of,
    shell_options, ShellHost,
};
use crate::search::{contains, stands_at, texts};
use crate::text::join3;

verus! {

/// Facts about the machine. No path of a project and nothing of a conversation
/// is among them.
pub struct RuntimeEnvironment {
    pub os: &'static str,
    pub arch: &'static str,
    pub path_separator: char,
    pub executable_suffix: &'static str,
    pub shell: String,
    pub shell_kind: &'static str,
    pub shell_argv_prefix: Vec<String>,
    pub sandbox_backend: &'static str,
    pub podman_invocation: PodmanInvocation,
}

pub open spec fn shell_advice(kind: Seq<char>) -> Seq<char> {
    if kind == "powershell"@ {
        "Write PowerShell syntax, not POSIX shell syntax."@
    } else if kind == "cmd"@ {
        "Write cmd.exe syntax, not POSIX shell syntax."@
    } else {
        "Write POSIX shell syntax."@
    }
}

/// What an agent is told.
pub open spec fn agent_summary(facts: RuntimeEnvironment) -> Seq<char> {
    "Environment (identity-independent, secret-free): OS="@ + facts.os@ + ", architecture="@
        + facts.arch@ + ", OS path separator=`"@ + seq![facts.path_separator]
        + "`, executable suffix=`"@ + facts.executable_suffix@ + "`, exec shell=`"@ + facts.shell@
        + "` ("@ + facts.shell_kind@ + "), default exec backend="@ + facts.sandbox_backend@ + ". "@
        + shell_advice(facts.shell_kind@) + " "@ + advice(facts.podman_invocation)
        + " Structured project-tool paths always use `/` separators on every OS and remain relative to the active project; use the reported OS separator only inside shell commands and OS-native paths. Project paths are disclosed only after chatgpt_turn_init; individual commands such as Podman may use a different effective backend when runtime capability probing requires it."@
}

impl RuntimeEnvironment {
    /// Gather the facts, given those that only the machine knows.
    pub fn detect(
        os: &'static str,
        arch: &'static str,
        path_separator: char,
        executable_suffix: &'static str,
        sandbox_setting: &str,
        bwrap_usable: bool,
        podman_invocation: PodmanInvocation,
        host: &ShellHost,
    ) -> (facts: RuntimeEnvironment)
        requires
            backend_name(sandbox_setting@, bwrap_usable) == "native"@ ==> ending_is_whole(
                base_name(default_shell_of(*host)),
            ),
        ensures
            facts.os == os,
            facts.arch == arch,
            facts.path_separator == path_separator,
            facts.executable_suffix == executable_suffix,
            facts.sandbox_backend@ == backend_name(sandbox_setting@, bwrap_usable),
            facts.podman_invocation == podman_invocation,
            ({
                let shell = if facts.sandbox_backend@ == "bubblewrap"@ {
                    "/bin/sh"@
                } else {
                    default_shell_of(*host)
                };
                &&& facts.shell@ == shell
                &&& facts.shell_kind@ == kind_name(kind_of(shell))
                &&& texts(facts.shell_argv_prefix@) == shell_options(
                    kind_of(shell),
                    host.windows,
                    false,
                )
            }),
    {
        let sandbox_backend = effective_default_sandbox_backend(sandbox_setting, bwrap_usable);
        let sandboxed = sandbox_backend.eq("bubblewrap");
        proof {
            reveal_strlit("bubblewrap");
            reveal_strlit("native");
            assert("bubblewrap"@.len() != "native"@.len());
        }
        let (shell, shell_kind, shell_argv_prefix) = default_exec_shell(sandboxed, host);
        RuntimeEnvironment {
            os,
            arch,
            path_separator,
            executable_suffix,
            shell,
            shell_kind,
            shell_argv_prefix,
            sandbox_backend,
            podman_invocation,
        }
    }

    pub fn render_agent_summary(&self) -> (text: String)
        ensures
            text@ == agent_summary(*self),
    {
        let advice_on_shell = if self.shell_kind.eq("powershell") {
            "Write PowerShell syntax, not POSIX shell syntax."
        } else if self.shell_kind.eq("cmd") {
            "Write cmd.exe syntax, not POSIX shell syntax."
        } else {
            "Write POSIX shell syntax."
        };
        let mut separator = String::new();
        separator.push(self.path_separator);
        proof {
            assert(separator@ =~= seq![self.path_separator]);
        }
        let mut text = join3(
            "Environment (identity-independent, secret-free): OS=",
            self.os,
            ", architecture=",
        );
        text.append(self.arch);
        text.append(", OS path separator=`");
        text.append(separator.as_str());
        text.append("`, executable suffix=`");
        text.append(self.executable_suffix);
        text.append("`, exec shell=`");
        text.append(self.shell.as_str());
        text.append("` (");
        text.append(self.shell_kind);
        text.append("), default exec backend=");
        text.append(self.sandbox_backend);
        text.append(". ");
        text.append(advice_on_shell);
        text.append(" ");
        text.append(self.podman_invocation.agent_advice());
        text.append(
            " Structured project-tool paths always use `/` separators on every OS and remain relative to the active project; use the reported OS separator only inside shell commands and OS-native paths. Project paths are disclosed only after chatgpt_turn_init; individual commands such as Podman may use a different effective backend when runtime capability probing requires it.",
        );
        text
    }
}

/// What an agent is told holds each fact, behind what it is a fact about.
pub proof fn summary_tells_each_fact(facts: RuntimeEnvironment)
    ensures
        ({
            let told = agent_summary(facts);
            &&& contains(told, "Environment (identity-independent, secret-free): OS="@ + facts.os@)
            &&& contains(told, ", architecture="@ + facts.arch@)
            &&& contains(told, ", OS path separator=`"@ + seq![facts.path_separator])
            &&& contains(told, "`, executable suffix=`"@ + facts.executable_suffix@)
            &&& contains(told, "`, exec shell=`"@ + facts.shell@)
            &&& contains(told, "` ("@ + facts.shell_kind@)
            &&& contains(told, "), default exec backend="@ + facts.sandbox_backend@)
            &&& contains(told, ". "@ + shell_advice(facts.shell_kind@))
            &&& contains(told, " "@ + advice(facts.podman_invocation))
        }),
{
    let told0 = Seq::<char>::empty();
    let start = "Environment (identity-independent, secret-free): OS="@;
    let told1 = start + facts.os@;
    assert(told0 + start =~= start);
    lemma_told(told0, "Environment (identity-independent, secret-free): OS="@, facts.os@);
    let told2 = told1 + ", architecture="@ + facts.arch@;
    lemma_told(told1, ", architecture="@, facts.arch@);
    let told3 = told2 + ", OS path separator=`"@ + seq![facts.path_separator];
    lemma_told(told2, ", OS path separator=`"@, seq![facts.path_separator]);
    let told4 = told3 + "`, executable suffix=`"@ + facts.executable_suffix@;
    lemma_told(told3, "`, executable suffix=`"@, facts.executable_suffix@);
    let told5 = told4 + "`, exec shell=`"@ + facts.shell@;
    lemma_told(told4, "`, exec shell=`"@, facts.shell@);
    let told6 = told5 + "` ("@ + facts.shell_kind@;
    lemma_told(told5, "` ("@, facts.shell_kind@);
    let told7 = told6 + "), default exec backend="@ + facts.sandbox_backend@;
    lemma_told(told6, "), default exec backend="@, facts.sandbox_backend@);
    let told8 = told7 + ". "@ + shell_advice(facts.shell_kind@);
    lemma_told(told7, ". "@, shell_advice(facts.shell_kind@));
    let told9 = told8 + " "@ + advice(facts.podman_invocation);
    lemma_told(told8, " "@, advice(facts.podman_invocation));
    let last =
        " Structured project-tool paths always use `/` separators on every OS and remain relative to the active project; use the reported OS separator only inside shell commands and OS-native paths. Project paths are disclosed only after chatgpt_turn_init; individual commands such as Podman may use a different effective backend when runtime capability probing requires it."@;
    lemma_still_told(told9, last);
    assert(agent_summary(facts) == told9 + last);
}

proof fn lemma_still_told(front: Seq<char>, more: Seq<char>)
    ensures
        forall|part: Seq<char>| #[trigger] contains(front, part) ==> contains(front + more, part),
{
    assert forall|part: Seq<char>| #[trigger] contains(front, part) implies contains(
        front + more,
        part,
    ) by {
        let at = choose|at: int| #[trigger] stands_at(front, part, at);
        assert((front + more).subrange(at, at + part.len()) =~= front.subrange(
            at,
            at + part.len(),
        ));
        assert(stands_at(front + more, part, at));
    }
}

proof fn lemma_told(front: Seq<char>, label: Seq<char>, fact: Seq<char>)
    ensures
        contains(front + label + fact, label + fact),
        forall|part: Seq<char>| #[trigger]
            contains(front, part) ==> contains(front + label + fact, part),
{
    let whole = front + label + fact;
    let at = front.len() as int;
    assert(whole.subrange(at, at + (label + fact).len()) =~= label + fact);
    assert(stands_at(whole, label + fact, at));
    lemma_still_told(front, label + fact);
    assert(front + (label + fact) =~= whole);
}

/// Each kind of shell has its own syntax.
pub proof fn syntax_follows_the_shell()
    ensures
        shell_advice("powershell"@) == "Write PowerShell syntax, not POSIX shell syntax."@,
        shell_advice("cmd"@) == "Write cmd.exe syntax, not POSIX shell syntax."@,
        shell_advice("posix"@) == "Write POSIX shell syntax."@,
{
    reveal_strlit("powershell");
    reveal_strlit("cmd");
    reveal_strlit("posix");
    assert("powershell"@.len() == 10 && "cmd"@.len() == 3 && "posix"@.len() == 5);
}

}
