//! Shell integration.
//!
//! A hook cannot confine the shell it runs in: Landlock restricts a process
//! for its lifetime, and by the time a shell can run anything it already has
//! the authority it was given. What a hook can do is notice that a directory
//! has a policy, say so, and start a confined shell when asked. What to say is
//! decided here; the emitted snippets are shims that print it.

use vstd::prelude::*;

use crate::path::{render, starts_with_spec, PathBuf, PathView};
use crate::trust::{reason_spec, Rejected, RejectedView};
use crate::text::{chars_of, push_str, string_of};

verus! {

/// A shell the integration has been exercised on.
#[derive(Debug, Clone, Copy, PartialEq, Eq)]
pub enum Shell {
    /// fish.
    Fish,
    /// bash.
    Bash,
}

/// What the hook should say, if anything.
#[derive(Debug, Clone, PartialEq, Eq)]
pub enum Notice {
    /// Nothing to report.
    Silent,
    /// A policy here is ready to be used, so entering a shell would apply it.
    /// This is the only state an asking hook offers to act on.
    Ready(String),
    /// Something worth saying, with nothing to offer.
    Info(String),
}

pub enum NoticeView {
    Silent,
    Ready(Seq<char>),
    Info(Seq<char>),
}

impl View for Notice {
    type V = NoticeView;

    open spec fn view(&self) -> NoticeView {
        match self {
            Notice::Silent => NoticeView::Silent,
            Notice::Ready(m) => NoticeView::Ready(m@),
            Notice::Info(m) => NoticeView::Info(m@),
        }
    }
}

pub open spec fn porcelain_spec(n: NoticeView) -> Seq<char> {
    match n {
        NoticeView::Silent => seq![],
        NoticeView::Ready(m) => "ready\t"@ + m,
        NoticeView::Info(m) => "info\t"@ + m,
    }
}

impl Notice {
    /// The machine-readable form the snippets consume: a state, a tab, and
    /// the message; nothing when there is nothing to say.
    pub fn porcelain(&self) -> (r: String)
        ensures
            r@ == porcelain_spec(self@),
    {
        let mut out: Vec<char> = Vec::new();
        match self {
            Notice::Silent => {},
            Notice::Ready(m) => {
                push_str(&mut out, "ready\t");
                push_str(&mut out, m.as_str());
            },
            Notice::Info(m) => {
                push_str(&mut out, "info\t");
                push_str(&mut out, m.as_str());
            },
        }
        let r = string_of(&out);
        assert(r@ =~= porcelain_spec(self@));
        r
    }

    /// The message on its own.
    pub fn message(&self) -> (r: Option<&str>)
        ensures
            match self@ {
                NoticeView::Silent => r is None,
                NoticeView::Ready(m) => r matches Some(s) && s@ == m,
                NoticeView::Info(m) => r matches Some(s) && s@ == m,
            },
    {
        match self {
            Notice::Silent => None,
            Notice::Ready(m) => Some(m.as_str()),
            Notice::Info(m) => Some(m.as_str()),
        }
    }
}

/// A config path written the way the user would type it from `cwd`: `./`
/// and the rest when it lies under `cwd`, in full otherwise.
pub open spec fn relative_spec(config: PathView, cwd: PathView) -> Seq<char> {
    if starts_with_spec(config, cwd) {
        "./"@ + render(PathView {
            absolute: false,
            parts: config.parts.subrange(cwd.parts.len() as int, config.parts.len() as int),
        })
    } else {
        render(config)
    }
}

/// A config path written the way the user would type it from `cwd`.
pub fn display_relative(config: &PathBuf, cwd: &PathBuf) -> (r: String)
    ensures
        r@ == relative_spec(config@, cwd@),
{
    if config.starts_with(cwd) {
        let mut parts: Vec<String> = Vec::new();
        let mut i: usize = cwd.parts.len();
        while i < config.parts.len()
            invariant
                cwd@.parts.len() <= i <= config@.parts.len(),
                parts.deep_view() == config@.parts.subrange(cwd@.parts.len() as int, i as int),
            decreases config@.parts.len() - i,
        {
            let ghost before = parts.deep_view();
            let part = config.parts[i].clone();
            parts.push(part);
            assert(parts.deep_view() =~= before.push(config@.parts[i as int]));
            assert(parts.deep_view() =~= config@.parts.subrange(cwd@.parts.len() as int, i + 1));
            i = i + 1;
        }
        let rel = PathBuf { absolute: false, parts };
        let mut out = chars_of("./");
        push_str(&mut out, rel.display().as_str());
        let r = string_of(&out);
        assert(r@ =~= relative_spec(config@, cwd@));
        r
    } else {
        config.display()
    }
}

pub open spec fn ready_message() -> Seq<char> {
    "bailey: this directory has a policy; `bailey shell` works under it"@
}

/// What the hook says about the directory just entered, from what the
/// caller saw: the working directory (if it could be read), whether this
/// shell is already confined and to which directory, whether the directory
/// holds a `bailey.toml`, and what the trust store says of it.
pub open spec fn notice_spec(
    cwd: Option<PathView>,
    inside_sandbox: bool,
    sandbox_dir: Option<PathView>,
    config_is_file: bool,
    verdict: Option<RejectedView>,
) -> NoticeView {
    match cwd {
        None => NoticeView::Silent,
        Some(c) => if inside_sandbox {
            match sandbox_dir {
                None => NoticeView::Silent,
                Some(d) => if starts_with_spec(c, d) {
                    NoticeView::Silent
                } else {
                    NoticeView::Info(
                        "bailey: this shell is confined to "@ + render(d)
                            + ", so the policy does not cover the directory you are now in"@,
                    )
                },
            }
        } else if !config_is_file {
            NoticeView::Silent
        } else {
            let config = crate::path::join_spec(c, crate::path::parse_spec("bailey.toml"@));
            match verdict {
                None => NoticeView::Ready(ready_message()),
                Some(RejectedView::Untrusted) => NoticeView::Info(
                    "bailey: this directory has a policy you have not accepted; review it, then: bailey trust "@
                        + relative_spec(config, c),
                ),
                Some(RejectedView::Changed) => NoticeView::Info(
                    "bailey: this directory's policy changed since you accepted it; review it, then: bailey trust "@
                        + relative_spec(config, c),
                ),
                Some(other) => NoticeView::Info("bailey: this directory has a policy that will not apply: "@ + reason_spec(other)),
            }
        },
    }
}

/// The hook says a directory is ready only where the caller is not already
/// confined, the directory holds a policy file, and the trust store accepts
/// it; inside a sandbox it says nothing while the shell stays beneath the
/// sandbox's directory; and a directory without a policy file is never
/// announced to an unconfined shell.
pub proof fn law_ready_only_for_an_accepted_policy(
    cwd: Option<PathView>,
    inside_sandbox: bool,
    sandbox_dir: Option<PathView>,
    config_is_file: bool,
    verdict: Option<RejectedView>,
)
    ensures
        notice_spec(cwd, inside_sandbox, sandbox_dir, config_is_file, verdict) is Ready ==> cwd is Some
            && !inside_sandbox && config_is_file && verdict is None,
        inside_sandbox && (cwd matches Some(c) && sandbox_dir matches Some(d) && starts_with_spec(c, d))
            ==> notice_spec(cwd, inside_sandbox, sandbox_dir, config_is_file, verdict) == NoticeView::Silent,
        !inside_sandbox && !config_is_file ==> notice_spec(cwd, inside_sandbox, sandbox_dir, config_is_file, verdict)
            == NoticeView::Silent,
{
}

/// What the hook says about the directory just entered.
pub fn notice(
    cwd: &Option<PathBuf>,
    inside_sandbox: bool,
    sandbox_dir: &Option<PathBuf>,
    config_is_file: bool,
    verdict: &Option<Rejected>,
) -> (r: Notice)
    ensures
        r@ == notice_spec(
            crate::merge::opt_path_view(*cwd),
            inside_sandbox,
            crate::merge::opt_path_view(*sandbox_dir),
            config_is_file,
            crate::trust::opt_rejected_view(*verdict),
        ),
{
    let c = match cwd {
        None => {
            return Notice::Silent;
        },
        Some(c) => c,
    };
    if inside_sandbox {
        return match sandbox_dir {
            None => Notice::Silent,
            Some(d) => {
                if c.starts_with(d) {
                    Notice::Silent
                } else {
                    let mut out = chars_of("bailey: this shell is confined to ");
                    push_str(&mut out, d.display().as_str());
                    push_str(&mut out, ", so the policy does not cover the directory you are now in");
                    let m = string_of(&out);
                    assert(m@ =~= "bailey: this shell is confined to "@ + render(d@)
                        + ", so the policy does not cover the directory you are now in"@);
                    Notice::Info(m)
                }
            },
        };
    }
    if !config_is_file {
        return Notice::Silent;
    }
    let config = c.join(&PathBuf::parse("bailey.toml"));
    match verdict {
        None => Notice::Ready(crate::text::owned("bailey: this directory has a policy; `bailey shell` works under it")),
        Some(Rejected::Untrusted) => {
            let mut out = chars_of(
                "bailey: this directory has a policy you have not accepted; review it, then: bailey trust ",
            );
            push_str(&mut out, display_relative(&config, c).as_str());
            let m = string_of(&out);
            assert(m@ =~= "bailey: this directory has a policy you have not accepted; review it, then: bailey trust "@
                + relative_spec(config@, c@));
            Notice::Info(m)
        },
        Some(Rejected::Changed) => {
            let mut out = chars_of(
                "bailey: this directory's policy changed since you accepted it; review it, then: bailey trust ",
            );
            push_str(&mut out, display_relative(&config, c).as_str());
            let m = string_of(&out);
            assert(m@ =~= "bailey: this directory's policy changed since you accepted it; review it, then: bailey trust "@
                + relative_spec(config@, c@));
            Notice::Info(m)
        },
        Some(other) => {
            let mut out = chars_of("bailey: this directory has a policy that will not apply: ");
            push_str(&mut out, other.reason().as_str());
            let m = string_of(&out);
            assert(m@ =~= "bailey: this directory has a policy that will not apply: "@ + reason_spec(other@));
            Notice::Info(m)
        },
    }
}

/// The fish shim: on each change of directory it asks bailey what to say,
/// prints it, and offers a confined shell only when asked to.
pub const FISH_HOOK: &'static str = "function __bailey_hook --on-variable PWD --description 'bailey: notice a policy in the directory just entered'
    status --is-interactive; or return
    set -l line (command bailey hook status --porcelain 2>/dev/null)
    test -n \"$line\"; or return
    set -l parts (string split -m 1 \\t -- $line)
    echo $parts[2] >&2
    if test \"$parts[1]\" = ready; and set -q __bailey_hook_ask
        read -l -P 'bailey: start a confined shell here? [y/N] ' answer
        if test \"$answer\" = y -o \"$answer\" = Y
            command bailey shell
        end
    end
end
";

/// The bash shim, run from `PROMPT_COMMAND` whenever the directory changed.
pub const BASH_HOOK: &'static str = "__bailey_hook() {
    [ \"$PWD\" = \"${__bailey_hook_last:-}\" ] && return
    __bailey_hook_last=$PWD
    local line state message answer
    line=$(command bailey hook status --porcelain 2>/dev/null) || return
    [ -n \"$line\" ] || return
    state=${line%%$'\\t'*}
    message=${line#*$'\\t'}
    printf '%s\\n' \"$message\" >&2
    if [ \"$state\" = ready ] && [ -n \"${__bailey_hook_ask:-}\" ]; then
        read -r -p 'bailey: start a confined shell here? [y/N] ' answer
        case $answer in y|Y) command bailey shell ;; esac
    fi
}
case \";${PROMPT_COMMAND:-};\" in
    *\";__bailey_hook;\"*) ;;
    *) PROMPT_COMMAND=\"__bailey_hook${PROMPT_COMMAND:+;$PROMPT_COMMAND}\" ;;
esac
";

pub open spec fn wrapper_intro() -> Seq<char> {
    "\n# Programs your own profiles claim with `applies_to`. `command <name>`\n# still reaches the program itself.\n"@
}

pub open spec fn fish_wrapper(name: Seq<char>) -> Seq<char> {
    "function "@ + name + " -d \"bailey: claimed by one of your profiles\"\n    command bailey run "@ + name + " $argv\nend\n"@
}

pub open spec fn bash_wrapper(name: Seq<char>) -> Seq<char> {
    name + "() { command bailey run "@ + name + " \"$@\"; }\n"@
}

/// The wrappers for `names`, each made by `wrap`.
pub open spec fn wrappers(names: Seq<Seq<char>>, wrap: spec_fn(Seq<char>) -> Seq<char>) -> Seq<char>
    decreases names.len(),
{
    if names.len() == 0 { seq![] } else { wrappers(names.drop_last(), wrap) + wrap(names.last()) }
}

/// The integration code for `shell`. `ask` turns the notice into an offer to
/// enter a confined shell, and `wrap` adds a function per program in
/// `claimed`, the names the user's own profiles claim. Both are opt-in.
pub open spec fn snippet_spec(shell: Shell, ask: bool, wrap: bool, claimed: Seq<Seq<char>>) -> Seq<char> {
    match shell {
        Shell::Fish => (if ask { "set -g __bailey_hook_ask 1\n"@ } else { seq![] }) + FISH_HOOK@
            + (if wrap { wrapper_intro() + wrappers(claimed, |n: Seq<char>| fish_wrapper(n)) } else { seq![] }),
        Shell::Bash => (if ask { "__bailey_hook_ask=1\n"@ } else { seq![] }) + BASH_HOOK@
            + (if wrap { wrapper_intro() + wrappers(claimed, |n: Seq<char>| bash_wrapper(n)) } else { seq![] }),
    }
}

/// The integration code for `shell`.
pub fn snippet(shell: Shell, ask: bool, wrap: bool, claimed: &Vec<String>) -> (r: String)
    ensures
        r@ == snippet_spec(shell, ask, wrap, crate::merge::strs(claimed@)),
{
    let ghost names = crate::merge::strs(claimed@);
    let mut out: Vec<char> = Vec::new();
    match shell {
        Shell::Fish => {
            if ask {
                push_str(&mut out, "set -g __bailey_hook_ask 1\n");
            }
            push_str(&mut out, FISH_HOOK);
        },
        Shell::Bash => {
            if ask {
                push_str(&mut out, "__bailey_hook_ask=1\n");
            }
            push_str(&mut out, BASH_HOOK);
        },
    }
    if wrap {
        push_str(&mut out, "\n# Programs your own profiles claim with `applies_to`. `command <name>`\n# still reaches the program itself.\n");
        let ghost start = out@;
        let mut i: usize = 0;
        assert(names.subrange(0, 0) =~= Seq::<Seq<char>>::empty());
        while i < claimed.len()
            invariant
                i <= claimed@.len(),
                names == crate::merge::strs(claimed@),
                out@ == start + match shell {
                    Shell::Fish => wrappers(names.subrange(0, i as int), |n: Seq<char>| fish_wrapper(n)),
                    Shell::Bash => wrappers(names.subrange(0, i as int), |n: Seq<char>| bash_wrapper(n)),
                },
            decreases claimed@.len() - i,
        {
            let name = claimed[i].as_str();
            let ghost now = names.subrange(0, i + 1);
            assert(now.drop_last() =~= names.subrange(0, i as int));
            assert(now.last() == claimed@[i as int]@);
            match shell {
                Shell::Fish => {
                    push_str(&mut out, "function ");
                    push_str(&mut out, name);
                    push_str(&mut out, " -d \"bailey: claimed by one of your profiles\"\n    command bailey run ");
                    push_str(&mut out, name);
                    push_str(&mut out, " $argv\nend\n");
                },
                Shell::Bash => {
                    push_str(&mut out, name);
                    push_str(&mut out, "() { command bailey run ");
                    push_str(&mut out, name);
                    push_str(&mut out, " \"$@\"; }\n");
                },
            }
            i = i + 1;
            assert(out@ =~= start + match shell {
                Shell::Fish => wrappers(names.subrange(0, i as int), |n: Seq<char>| fish_wrapper(n)),
                Shell::Bash => wrappers(names.subrange(0, i as int), |n: Seq<char>| bash_wrapper(n)),
            });
        }
        assert(names.subrange(0, claimed@.len() as int) =~= names);
    }
    let r = string_of(&out);
    assert(r@ =~= snippet_spec(shell, ask, wrap, names));
    r
}

} // verus!
