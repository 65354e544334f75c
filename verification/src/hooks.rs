//! Lifecycle hooks: shell commands run at defined points of a sandbox run.
//!
//! A failing `pre-launch` command aborts the run; `post-exit` and
//! `on-violation` commands are run for their effect and report their failure.
//!
//! Starting a command is the caller's part: it hands in a runner that runs one
//! command line under `sh -c` with the given extra environment, and returns
//! the exit code (`-1` for a command ended by a signal) or why the command
//! could not be started. Which commands run, in which order, with which
//! environment, and what a failure means is decided here.

use vstd::prelude::*;

use crate::text::{owned, push_signed, push_str, signed_decimal, string_of};

verus! {

/// Commands run at defined points of a sandbox run.
#[derive(Debug, Clone, PartialEq, Eq)]
pub struct Hooks {
    /// Commands run before the target starts. A failure aborts the run.
    pub pre_launch: Vec<String>,
    /// Commands run after the target terminates.
    pub post_exit: Vec<String>,
    /// Commands run when an access is denied or flagged.
    pub on_violation: Vec<String>,
}

/// An error produced while running a hook command.
#[derive(Debug, Clone)]
pub enum HookError {
    /// The hook command could not be started.
    Spawn {
        /// The command that could not be started.
        command: String,
        /// Why it could not be started.
        reason: String,
    },
    /// The hook command ran but exited with a non-zero status.
    Failed {
        /// The command that failed.
        command: String,
        /// The reported exit code (`-1` if it was ended by a signal).
        code: i32,
    },
}

/// A hook error as plain values.
pub enum HookErrorView {
    Spawn { command: Seq<char>, reason: Seq<char> },
    Failed { command: Seq<char>, code: i32 },
}

impl View for HookError {
    type V = HookErrorView;

    open spec fn view(&self) -> HookErrorView {
        match self {
            HookError::Spawn { command, reason } => HookErrorView::Spawn { command: command@, reason: reason@ },
            HookError::Failed { command, code } => HookErrorView::Failed { command: command@, code: *code },
        }
    }
}

/// A hook error as it is reported.
pub open spec fn hook_error_text(e: HookErrorView) -> Seq<char> {
    match e {
        HookErrorView::Spawn { command, reason } => "failed to spawn hook `"@ + command + "`: "@ + reason,
        HookErrorView::Failed { command, code } => "hook `"@ + command + "` exited with status "@ + signed_decimal(code as int),
    }
}

impl HookError {
    /// The error as it is reported.
    pub fn message(&self) -> (r: String)
        ensures
            r@ == hook_error_text(self@),
    {
        let mut out: Vec<char> = Vec::new();
        match self {
            HookError::Spawn { command, reason } => {
                push_str(&mut out, "failed to spawn hook `");
                push_str(&mut out, command.as_str());
                push_str(&mut out, "`: ");
                push_str(&mut out, reason.as_str());
            },
            HookError::Failed { command, code } => {
                push_str(&mut out, "hook `");
                push_str(&mut out, command.as_str());
                push_str(&mut out, "` exited with status ");
                push_signed(&mut out, *code);
            },
        }
        string_of(&out)
    }
}

/// What a run of hooks came to, as plain values.
pub open spec fn outcome_view(r: Result<(), HookError>) -> Result<(), HookErrorView> {
    match r {
        Ok(()) => Ok(()),
        Err(e) => Err(e@),
    }
}

/// The environment `e` holds exactly the given pairs, in order.
pub open spec fn env_is(e: Vec<(String, String)>, pairs: Seq<(Seq<char>, Seq<char>)>) -> bool {
    &&& e@.len() == pairs.len()
    &&& forall|i: int| 0 <= i < pairs.len() ==> (#[trigger] e@[i]).0@ == pairs[i].0 && e@[i].1@ == pairs[i].1
}

/// `outs` are outcomes the runner may give for the first `outs.len()`
/// commands, each run with `env`.
pub open spec fn ran<F: Fn(&String, &Vec<(String, String)>) -> Result<i32, String>>(
    run: F,
    commands: Seq<String>,
    env: Vec<(String, String)>,
    outs: Seq<Result<i32, String>>,
) -> bool {
    &&& outs.len() <= commands.len()
    &&& forall|i: int| 0 <= i < outs.len() ==> call_ensures(run, (&commands[i], &env), #[trigger] outs[i])
}

/// A command succeeded: it started and exited with status zero.
pub open spec fn succeeded(o: Result<i32, String>) -> bool {
    o == Ok::<i32, String>(0)
}

/// The commands were run in order until the first that did not succeed, or to
/// the end when all did.
pub open spec fn stopped_at_failure(n: nat, outs: Seq<Result<i32, String>>) -> bool {
    &&& forall|i: int| 0 <= i < outs.len() - 1 ==> succeeded(#[trigger] outs[i])
    &&& (outs.len() == n && (n == 0 || succeeded(outs.last()))) || (outs.len() > 0 && !succeeded(outs.last()))
}

/// What a run of `commands` that came to `outs` reports: nothing when every
/// command succeeded, else the first failure.
pub open spec fn verdict(commands: Seq<String>, outs: Seq<Result<i32, String>>) -> Result<(), HookErrorView> {
    if outs.len() > 0 && !succeeded(outs.last()) {
        let command = commands[outs.len() - 1]@;
        match outs.last() {
            Ok(code) => Err(HookErrorView::Failed { command, code }),
            Err(reason) => Err(HookErrorView::Spawn { command, reason: reason@ }),
        }
    } else {
        Ok(())
    }
}

/// A run of hooks reports success exactly when every command ran and exited
/// with status zero; otherwise it reports the first command that did not,
/// and no command after it was run.
pub proof fn law_hooks_stop_at_the_first_failure(commands: Seq<String>, outs: Seq<Result<i32, String>>)
    requires
        outs.len() <= commands.len(),
        stopped_at_failure(commands.len(), outs),
    ensures
        verdict(commands, outs) is Ok <==> (outs.len() == commands.len()
            && forall|i: int| 0 <= i < outs.len() ==> succeeded(#[trigger] outs[i])),
        verdict(commands, outs) is Err ==> {
            &&& outs.len() > 0
            &&& !succeeded(outs.last())
            &&& forall|i: int| 0 <= i < outs.len() - 1 ==> succeeded(#[trigger] outs[i])
            &&& match verdict(commands, outs) {
                Err(HookErrorView::Failed { command, .. }) => command == commands[outs.len() - 1]@,
                Err(HookErrorView::Spawn { command, .. }) => command == commands[outs.len() - 1]@,
                _ => true,
            }
        },
{
    if verdict(commands, outs) is Ok && outs.len() > 0 {
        assert forall|i: int| 0 <= i < outs.len() implies succeeded(#[trigger] outs[i]) by {
            if i < outs.len() - 1 {
            } else {
                assert(outs[i] == outs.last());
            }
        }
    }
    if outs.len() == commands.len() && outs.len() > 0 && forall|i: int| 0 <= i < outs.len() ==> succeeded(#[trigger] outs[i]) {
        assert(succeeded(outs[outs.len() - 1]));
    }
}

/// Runs `commands` in order with `env` through `run`, stopping at the first
/// that does not succeed.
fn run_all<F: Fn(&String, &Vec<(String, String)>) -> Result<i32, String>>(
    commands: &Vec<String>,
    env: &Vec<(String, String)>,
    run: &F,
) -> (r: Result<(), HookError>)
    requires
        forall|c: &String, e: &Vec<(String, String)>| call_requires(*run, (c, e)),
    ensures
        exists|outs: Seq<Result<i32, String>>|
            {
                &&& ran(*run, commands@, *env, outs)
                &&& stopped_at_failure(commands@.len(), outs)
                &&& outcome_view(r) == verdict(commands@, outs)
            },
{
    let ghost mut outs: Seq<Result<i32, String>> = Seq::empty();
    let mut i: usize = 0;
    while i < commands.len()
        invariant
            forall|c: &String, e: &Vec<(String, String)>| call_requires(*run, (c, e)),
            i <= commands@.len(),
            outs.len() == i,
            ran(*run, commands@, *env, outs),
            forall|j: int| 0 <= j < outs.len() ==> succeeded(#[trigger] outs[j]),
        decreases commands@.len() - i,
    {
        let o = run(&commands[i], env);
        proof {
            outs = outs.push(o);
            assert(outs[i as int] == o);
        }
        match o {
            Ok(code) => {
                if code != 0 {
                    let r = Err(HookError::Failed { command: commands[i].clone(), code });
                    assert(ran(*run, commands@, *env, outs));
                    assert(stopped_at_failure(commands@.len(), outs));
                    assert(outcome_view(r) == verdict(commands@, outs));
                    return r;
                }
            },
            Err(reason) => {
                let r = Err(HookError::Spawn { command: commands[i].clone(), reason });
                assert(ran(*run, commands@, *env, outs));
                assert(stopped_at_failure(commands@.len(), outs));
                assert(outcome_view(r) == verdict(commands@, outs));
                return r;
            },
        }
        i = i + 1;
    }
    assert(stopped_at_failure(commands@.len(), outs));
    assert(outcome_view(Ok(())) == verdict(commands@, outs));
    Ok(())
}

/// The environment variable that carries the target's exit code.
pub open spec fn exit_code_env(exit_code: i32) -> Seq<(Seq<char>, Seq<char>)> {
    seq![("BAILEY_EXIT_CODE"@, signed_decimal(exit_code as int))]
}

/// The environment variable that carries a violation's description.
pub open spec fn violation_env(description: Seq<char>) -> Seq<(Seq<char>, Seq<char>)> {
    seq![("BAILEY_VIOLATION"@, description)]
}

impl Hooks {
    /// No commands at all.
    pub fn none() -> (r: Hooks)
        ensures
            r.pre_launch@.len() == 0,
            r.post_exit@.len() == 0,
            r.on_violation@.len() == 0,
    {
        Hooks { pre_launch: Vec::new(), post_exit: Vec::new(), on_violation: Vec::new() }
    }

    /// Runs the `pre-launch` commands in order, with no extra environment,
    /// stopping at the first failure.
    pub fn run_pre_launch<F: Fn(&String, &Vec<(String, String)>) -> Result<i32, String>>(&self, run: &F) -> (r: Result<(), HookError>)
        requires
            forall|c: &String, e: &Vec<(String, String)>| call_requires(*run, (c, e)),
        ensures
            exists|env: Vec<(String, String)>, outs: Seq<Result<i32, String>>|
                {
                    &&& env_is(env, Seq::empty())
                    &&& ran(*run, self.pre_launch@, env, outs)
                    &&& stopped_at_failure(self.pre_launch@.len(), outs)
                    &&& outcome_view(r) == verdict(self.pre_launch@, outs)
                },
    {
        let env: Vec<(String, String)> = Vec::new();
        assert(env_is(env, Seq::empty()));
        run_all(&self.pre_launch, &env, run)
    }

    /// Runs the `post-exit` commands in order, each with the target's exit
    /// code in `BAILEY_EXIT_CODE`, stopping at the first failure.
    pub fn run_post_exit<F: Fn(&String, &Vec<(String, String)>) -> Result<i32, String>>(&self, exit_code: i32, run: &F) -> (r: Result<(), HookError>)
        requires
            forall|c: &String, e: &Vec<(String, String)>| call_requires(*run, (c, e)),
        ensures
            exists|env: Vec<(String, String)>, outs: Seq<Result<i32, String>>|
                {
                    &&& env_is(env, exit_code_env(exit_code))
                    &&& ran(*run, self.post_exit@, env, outs)
                    &&& stopped_at_failure(self.post_exit@.len(), outs)
                    &&& outcome_view(r) == verdict(self.post_exit@, outs)
                },
    {
        let mut value: Vec<char> = Vec::new();
        push_signed(&mut value, exit_code);
        let mut env: Vec<(String, String)> = Vec::new();
        env.push((owned("BAILEY_EXIT_CODE"), string_of(&value)));
        assert(env_is(env, exit_code_env(exit_code)));
        run_all(&self.post_exit, &env, run)
    }

    /// Runs the `on-violation` commands in order, each with the description
    /// of the violation in `BAILEY_VIOLATION`, stopping at the first failure.
    pub fn run_on_violation<F: Fn(&String, &Vec<(String, String)>) -> Result<i32, String>>(&self, description: &str, run: &F) -> (r: Result<(), HookError>)
        requires
            forall|c: &String, e: &Vec<(String, String)>| call_requires(*run, (c, e)),
        ensures
            exists|env: Vec<(String, String)>, outs: Seq<Result<i32, String>>|
                {
                    &&& env_is(env, violation_env(description@))
                    &&& ran(*run, self.on_violation@, env, outs)
                    &&& stopped_at_failure(self.on_violation@.len(), outs)
                    &&& outcome_view(r) == verdict(self.on_violation@, outs)
                },
    {
        let mut env: Vec<(String, String)> = Vec::new();
        env.push((owned("BAILEY_VIOLATION"), owned(description)));
        assert(env_is(env, violation_env(description@)));
        run_all(&self.on_violation, &env, run)
    }
}

} // verus!
