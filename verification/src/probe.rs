//! Runtime kernel capability detection.
//!
//! The probe reports which sandboxing features the running kernel offers, and
//! what each missing one costs, so that a user can find out what a run will
//! enforce before running anything. Asking the kernel is the caller's; what
//! the answers mean is decided here.

use vstd::prelude::*;

use crate::merge::strs;
use crate::config::{var_spec, vars_view, HostEnv};
use crate::path::{join_spec, parse_spec, render, PathBuf, PathView};
use crate::policy::paths_view;
use crate::resolve::{target_candidates, target_candidates_spec};
use crate::text::{decimal, push_decimal, push_str, string_of};

verus! {

/// Landlock ABI level at which network rules became available.
pub const ABI_NETWORK: u32 = 4;
/// Landlock ABI level at which scoping became available.
pub const ABI_SCOPE: u32 = 6;
/// Landlock ABI level at which the kernel logs denials.
pub const ABI_LOGGING: u32 = 7;

/// The first byte the audit helper writes once its programs are attached.
pub const HELLO: u8 = 1;

/// Whether the privileged audit helper is usable.
#[derive(Debug, Clone, PartialEq, Eq)]
pub enum HelperStatus {
    /// The helper loaded its programs, so audit will work.
    Ready(PathBuf),
    /// The helper was found but could not load, almost always for missing
    /// capabilities.
    NotPermitted(PathBuf),
    /// No helper binary was found.
    Missing,
}

/// Sandboxing-relevant features detected on the running kernel.
#[derive(Debug, Clone, PartialEq, Eq)]
pub struct Capabilities {
    /// Landlock ABI level the kernel supports, or `None` when Landlock is
    /// unavailable.
    pub landlock_abi: Option<u32>,
    /// Whether unprivileged user namespaces can be created here.
    pub unprivileged_userns: bool,
    /// Whether kernel BTF is available, which the audit programs need.
    pub btf: bool,
    /// Whether a cgroup can be created for a run, which resource limits need.
    pub cgroup_delegated: bool,
    /// Whether bailey could read the kernel's denial records, which violation
    /// hooks would need.
    pub denial_log_readable: bool,
    /// Whether the audit helper is present and permitted.
    pub helper: HelperStatus,
}

pub open spec fn at_least(abi: Option<u32>, level: u32) -> bool {
    match abi {
        Some(a) => a >= level,
        None => false,
    }
}

impl Capabilities {
    /// Whether Landlock can enforce network policy.
    pub fn landlock_network(&self) -> (r: bool)
        ensures
            r == at_least(self.landlock_abi, ABI_NETWORK),
    {
        match self.landlock_abi {
            Some(a) => a >= ABI_NETWORK,
            None => false,
        }
    }

    /// Whether Landlock can scope the target away from abstract sockets and
    /// signals.
    pub fn landlock_scope(&self) -> (r: bool)
        ensures
            r == at_least(self.landlock_abi, ABI_SCOPE),
    {
        match self.landlock_abi {
            Some(a) => a >= ABI_SCOPE,
            None => false,
        }
    }

    /// Whether the kernel records Landlock denials at all.
    pub fn landlock_logs_denials(&self) -> (r: bool)
        ensures
            r == at_least(self.landlock_abi, ABI_LOGGING),
    {
        match self.landlock_abi {
            Some(a) => a >= ABI_LOGGING,
            None => false,
        }
    }

    /// Whether `on_violation` hooks can fire: the kernel has to record
    /// denials and bailey has to be able to read them.
    pub fn violation_hooks_possible(&self) -> (r: bool)
        ensures
            r == (at_least(self.landlock_abi, ABI_LOGGING) && self.denial_log_readable),
    {
        self.landlock_logs_denials() && self.denial_log_readable
    }
}

/// The Landlock ABI a version query returned: the level when it is positive,
/// none when the kernel refused.
pub open spec fn abi_spec(version: i64) -> Option<u32> {
    if version > 0 && version <= u32::MAX { Some(version as u32) } else { None }
}

/// The Landlock ABI a version query returned.
pub fn landlock_abi(version: i64) -> (r: Option<u32>)
    ensures
        r == abi_spec(version),
{
    if version > 0 && version <= 0xFFFF_FFFF { Some(version as u32) } else { None }
}

/// Whether `on_violation` hooks could ever fire on this host, given its
/// answer to the Landlock version query and whether its kernel log opened.
pub fn violation_signal_available(version: i64, kmsg_readable: bool) -> (r: bool)
    ensures
        r == (at_least(abi_spec(version), ABI_LOGGING) && kmsg_readable),
{
    match landlock_abi(version) {
        Some(a) => a >= ABI_LOGGING && kmsg_readable,
        None => false,
    }
}

/// What the probe saw of the host.
pub struct Readings {
    /// The Landlock version query's return value.
    pub landlock_version: i64,
    /// Whether a user namespace could be created.
    pub unprivileged_userns: bool,
    /// Whether `/sys/kernel/btf/vmlinux` exists.
    pub btf: bool,
    /// Whether a probe cgroup could be created.
    pub cgroup_delegated: bool,
    /// Whether `/dev/kmsg` opened.
    pub kmsg_readable: bool,
    /// The audit helper's status, when it was asked.
    pub helper: Option<HelperStatus>,
}

/// The capabilities the readings show. The helper counts as missing when it
/// was not asked.
pub fn probe(readings: Readings) -> (c: Capabilities)
    ensures
        c.landlock_abi == abi_spec(readings.landlock_version),
        c.unprivileged_userns == readings.unprivileged_userns,
        c.btf == readings.btf,
        c.cgroup_delegated == readings.cgroup_delegated,
        c.denial_log_readable == readings.kmsg_readable,
        c.helper == match readings.helper {
            Some(h) => h,
            None => HelperStatus::Missing,
        },
{
    Capabilities {
        landlock_abi: landlock_abi(readings.landlock_version),
        unprivileged_userns: readings.unprivileged_userns,
        btf: readings.btf,
        cgroup_delegated: readings.cgroup_delegated,
        denial_log_readable: readings.kmsg_readable,
        helper: match readings.helper {
            Some(h) => h,
            None => HelperStatus::Missing,
        },
    }
}

/// What the helper's greeting says about it: ready when it wrote the hello
/// byte, found but not permitted otherwise.
pub fn helper_verdict(path: PathBuf, greeted: bool, first: u8) -> (r: HelperStatus)
    ensures
        r == (if greeted && first == HELLO { HelperStatus::Ready(path) } else { HelperStatus::NotPermitted(path) }),
{
    if greeted && first == HELLO {
        HelperStatus::Ready(path)
    } else {
        HelperStatus::NotPermitted(path)
    }
}

/// Each capability needs the ABI level before it: logging implies scoping,
/// which implies network rules.
pub proof fn law_abi_levels_nest(abi: Option<u32>)
    ensures
        at_least(abi, ABI_LOGGING) ==> at_least(abi, ABI_SCOPE),
        at_least(abi, ABI_SCOPE) ==> at_least(abi, ABI_NETWORK),
{
}

/// The name the audit helper is installed under.
pub const HELPER_NAME: &'static str = "bailey-bpf-helper";

/// Where the audit helper is looked for, in order: the path
/// `BAILEY_BPF_HELPER` names, then beside bailey's own executable (whose
/// directory is `exe_dir`), then each directory of `PATH`.
pub open spec fn helper_candidates_spec(env: HostEnv, exe_dir: Option<PathView>) -> Seq<PathView> {
    (match var_spec(vars_view(env.vars@), "BAILEY_BPF_HELPER"@) {
        Some(v) => seq![parse_spec(v)],
        None => seq![],
    }) + (match exe_dir {
        Some(d) => seq![join_spec(d, parse_spec(HELPER_NAME@))],
        None => seq![],
    }) + target_candidates_spec(HELPER_NAME@, env)
}

/// Where the audit helper is looked for, in order; the first that is a file
/// is the helper.
pub fn helper_candidates(env: &HostEnv, exe_dir: Option<PathBuf>) -> (r: Vec<PathBuf>)
    ensures
        paths_view(r@) == helper_candidates_spec(
            *env,
            match exe_dir {
                Some(d) => Some(d@),
                None => None,
            },
        ),
{
    proof {
        reveal_strlit("bailey-bpf-helper");
    }
    let mut r: Vec<PathBuf> = Vec::new();
    match env.var("BAILEY_BPF_HELPER") {
        Some(v) => {
            r.push(PathBuf::parse(v.as_str()));
        },
        None => {},
    }
    let ghost first = paths_view(r@);
    match &exe_dir {
        Some(d) => {
            r.push(d.join(&PathBuf::parse(HELPER_NAME)));
        },
        None => {},
    }
    let ghost second = paths_view(r@);
    let rest = target_candidates(HELPER_NAME, env);
    let mut i: usize = 0;
    while i < rest.len()
        invariant
            i <= rest@.len(),
            paths_view(r@) == second + paths_view(rest@).subrange(0, i as int),
        decreases rest@.len() - i,
    {
        let ghost before = paths_view(r@);
        r.push(rest[i].duplicate());
        assert(paths_view(rest@).subrange(0, i + 1) =~= paths_view(rest@).subrange(0, i as int).push(rest@[i as int]@));
        assert(paths_view(r@) =~= before.push(rest@[i as int]@));
        i = i + 1;
    }
    assert(paths_view(rest@).subrange(0, rest@.len() as int) =~= paths_view(rest@));
    assert(paths_view(r@) =~= helper_candidates_spec(
        *env,
        match exe_dir {
            Some(d) => Some(d@),
            None => None,
        },
    ));
    r
}

pub open spec fn yes_no_text(b: bool) -> Seq<char> {
    if b { "yes"@ } else { "no"@ }
}

/// What the report says of Landlock.
pub open spec fn landlock_lines(c: Capabilities) -> Seq<Seq<char>> {
    match c.landlock_abi {
        Some(abi) => seq!["  landlock: ABI "@ + decimal(abi as nat)]
            + (if !at_least(c.landlock_abi, ABI_NETWORK) {
            seq!["    network policy is NOT enforced (needs ABI 4, Linux 6.7)"@]
        } else {
            seq![]
        }) + (if !at_least(c.landlock_abi, ABI_SCOPE) {
            seq!["    abstract sockets and signals are NOT scoped (needs ABI 6, Linux 6.12)"@]
        } else {
            seq![]
        }),
        None => seq!["  landlock: unavailable"@, "    filesystem and network policy will NOT be enforced"@],
    }
}

/// What the report says of user namespaces and cgroups.
pub open spec fn namespace_lines(c: Capabilities) -> Seq<Seq<char>> {
    seq!["  user namespaces: "@ + yes_no_text(c.unprivileged_userns)] + (if !c.unprivileged_userns {
        seq![
            "    `--isolate` will fall back to Landlock and seccomp"@,
            "    denied egress will cover TCP only, not UDP or DNS"@,
            "    a nested `deny` cannot be enforced"@,
        ]
    } else {
        seq![]
    }) + seq!["  cgroup delegation: "@ + yes_no_text(c.cgroup_delegated)] + (if !c.cgroup_delegated {
        seq![
            "    resource limits will be skipped"@,
            "    a run needs a cgroup it may create children in, with the memory, pids"@,
            "    and cpu controllers delegated; set BAILEY_CGROUP_ROOT to name one"@,
        ]
    } else {
        seq![]
    })
}

/// What the report says of what auditing needs.
pub open spec fn audit_lines(c: Capabilities) -> Seq<Seq<char>> {
    seq!["audit:"@, "  kernel BTF: "@ + yes_no_text(c.btf)] + (if !c.btf {
        seq!["    `bailey audit` needs it to load the eBPF programs"@]
    } else {
        seq![]
    }) + match c.helper {
        HelperStatus::Ready(p) => seq!["  helper: ready ("@ + render(p@) + ")"@],
        HelperStatus::NotPermitted(p) => seq![
            "  helper: found but cannot load ("@ + render(p@) + ")"@,
            "    grant it capabilities: setcap cap_bpf,cap_perfmon+ep "@ + render(p@),
        ],
        HelperStatus::Missing => seq![
            "  helper: not found"@,
            "    `bailey audit` will not run; build it with -p bailey-bpf-helper"@,
        ],
    }
}

/// Whether anything bailey uses is missing on the host.
pub open spec fn degraded(c: Capabilities) -> bool {
    ||| !at_least(c.landlock_abi, ABI_SCOPE)
    ||| !c.unprivileged_userns
    ||| !c.cgroup_delegated
    ||| !c.btf
    ||| !(c.helper is Ready)
}

/// The host report: each mechanism, and what a missing one costs.
pub open spec fn doctor_spec(c: Capabilities) -> Seq<Seq<char>> {
    seq!["kernel:"@] + landlock_lines(c) + namespace_lines(c) + audit_lines(c) + (if !degraded(c) {
        seq!["\nEverything bailey uses is available on this host."@]
    } else {
        seq![]
    })
}

fn push_line(lines: &mut Vec<String>, line: Vec<char>)
    ensures
        strs(final(lines)@) == strs(old(lines)@).push(line@),
{
    let ghost before = strs(lines@);
    lines.push(string_of(&line));
    assert(strs(lines@) =~= before.push(line@));
}

fn line1(lines: &mut Vec<String>, a: &str)
    ensures
        strs(final(lines)@) == strs(old(lines)@).push(a@),
{
    let mut out: Vec<char> = Vec::new();
    push_str(&mut out, a);
    assert(out@ =~= a@);
    push_line(lines, out);
}

fn line2(lines: &mut Vec<String>, a: &str, b: &str)
    ensures
        strs(final(lines)@) == strs(old(lines)@).push(a@ + b@),
{
    let mut out: Vec<char> = Vec::new();
    push_str(&mut out, a);
    push_str(&mut out, b);
    assert(out@ =~= a@ + b@);
    push_line(lines, out);
}

fn line3(lines: &mut Vec<String>, a: &str, b: &str, c: &str)
    ensures
        strs(final(lines)@) == strs(old(lines)@).push(a@ + b@ + c@),
{
    let mut out: Vec<char> = Vec::new();
    push_str(&mut out, a);
    push_str(&mut out, b);
    push_str(&mut out, c);
    assert(out@ =~= a@ + b@ + c@);
    push_line(lines, out);
}

fn yes_no(b: bool) -> (r: &'static str)
    ensures
        r@ == yes_no_text(b),
{
    if b { "yes" } else { "no" }
}

fn landlock_part(lines: &mut Vec<String>, c: &Capabilities)
    ensures
        strs(final(lines)@) == strs(old(lines)@) + landlock_lines(*c),
{
    let ghost start = strs(lines@);
    match c.landlock_abi {
        Some(abi) => {
            let mut l: Vec<char> = Vec::new();
            push_str(&mut l, "  landlock: ABI ");
            push_decimal(&mut l, abi as u64);
            push_line(lines, l);
            if !c.landlock_network() {
                line1(lines, "    network policy is NOT enforced (needs ABI 4, Linux 6.7)");
            }
            if !c.landlock_scope() {
                line1(lines, "    abstract sockets and signals are NOT scoped (needs ABI 6, Linux 6.12)");
            }
        },
        None => {
            line1(lines, "  landlock: unavailable");
            line1(lines, "    filesystem and network policy will NOT be enforced");
        },
    }
    assert(strs(lines@) =~= start + landlock_lines(*c));
}

fn namespace_part(lines: &mut Vec<String>, c: &Capabilities)
    ensures
        strs(final(lines)@) == strs(old(lines)@) + namespace_lines(*c),
{
    let ghost start = strs(lines@);
    line2(lines, "  user namespaces: ", yes_no(c.unprivileged_userns));
    if !c.unprivileged_userns {
        line1(lines, "    `--isolate` will fall back to Landlock and seccomp");
        line1(lines, "    denied egress will cover TCP only, not UDP or DNS");
        line1(lines, "    a nested `deny` cannot be enforced");
    }
    line2(lines, "  cgroup delegation: ", yes_no(c.cgroup_delegated));
    if !c.cgroup_delegated {
        line1(lines, "    resource limits will be skipped");
        line1(lines, "    a run needs a cgroup it may create children in, with the memory, pids");
        line1(lines, "    and cpu controllers delegated; set BAILEY_CGROUP_ROOT to name one");
    }
    assert(strs(lines@) =~= start + namespace_lines(*c));
}

fn audit_part(lines: &mut Vec<String>, c: &Capabilities)
    ensures
        strs(final(lines)@) == strs(old(lines)@) + audit_lines(*c),
{
    let ghost start = strs(lines@);
    line1(lines, "audit:");
    line2(lines, "  kernel BTF: ", yes_no(c.btf));
    if !c.btf {
        line1(lines, "    `bailey audit` needs it to load the eBPF programs");
    }
    match &c.helper {
        HelperStatus::Ready(p) => {
            let shown = p.display();
            line3(lines, "  helper: ready (", shown.as_str(), ")");
        },
        HelperStatus::NotPermitted(p) => {
            let shown = p.display();
            line3(lines, "  helper: found but cannot load (", shown.as_str(), ")");
            line2(lines, "    grant it capabilities: setcap cap_bpf,cap_perfmon+ep ", shown.as_str());
        },
        HelperStatus::Missing => {
            line1(lines, "  helper: not found");
            line1(lines, "    `bailey audit` will not run; build it with -p bailey-bpf-helper");
        },
    }
    assert(strs(lines@) =~= start + audit_lines(*c));
}

/// The host report: each mechanism, and what a missing one costs.
pub fn doctor_report(c: &Capabilities) -> (r: Vec<String>)
    ensures
        strs(r@) == doctor_spec(*c),
{
    let mut lines: Vec<String> = Vec::new();
    line1(&mut lines, "kernel:");
    landlock_part(&mut lines, c);
    namespace_part(&mut lines, c);
    audit_part(&mut lines, c);
    let ghost before = strs(lines@);
    let healthy = c.landlock_scope() && c.unprivileged_userns && c.cgroup_delegated && c.btf && match &c.helper {
        HelperStatus::Ready(_) => true,
        _ => false,
    };
    if healthy {
        line1(&mut lines, "\nEverything bailey uses is available on this host.");
    }
    assert(strs(lines@) =~= seq!["kernel:"@] + landlock_lines(*c) + namespace_lines(*c) + audit_lines(*c) + (if !degraded(*c) {
        seq!["\nEverything bailey uses is available on this host."@]
    } else {
        seq![]
    }));
    lines
}

/// Whether a report line answers "no".
pub open spec fn answers_no(l: Seq<char>) -> bool {
    l.len() >= 4 && l.subrange(l.len() - 4, l.len() as int) == ": no"@
}

/// Whether a report line explains the line above it.
pub open spec fn indented(l: Seq<char>) -> bool {
    l.len() >= 4 && l.subrange(0, 4) == "    "@
}

/// Every "no" in `lines` is followed by a line that says what it costs.
pub open spec fn gaps_explained(lines: Seq<Seq<char>>) -> bool {
    forall|i: int| 0 <= i < lines.len() && #[trigger] answers_no(lines[i]) ==> i + 1 < lines.len() && indented(lines[i + 1])
}

proof fn lemma_explained_concat(a: Seq<Seq<char>>, b: Seq<Seq<char>>)
    requires
        gaps_explained(a),
        gaps_explained(b),
    ensures
        gaps_explained(a + b),
{
    assert forall|i: int| 0 <= i < (a + b).len() && #[trigger] answers_no((a + b)[i]) implies i + 1 < (a + b).len()
        && indented((a + b)[i + 1]) by {
        if i < a.len() {
            assert((a + b)[i] == a[i]);
            assert((a + b)[i + 1] == a[i + 1]);
        } else {
            assert((a + b)[i] == b[i - a.len()]);
            assert((a + b)[i + 1] == b[i + 1 - a.len()]);
        }
    }
}

/// A line whose last character is not `o` answers nothing.
proof fn lemma_not_no(l: Seq<char>)
    requires
        l.len() > 0,
        l.last() != 'o',
    ensures
        !answers_no(l),
{
    reveal_strlit(": no");
    if answers_no(l) {
        assert(l.subrange(l.len() - 4, l.len() as int)[3] == l.last());
    }
}

proof fn lemma_closing(a: Seq<char>, b: Seq<char>, c: Seq<char>)
    requires
        c.len() > 0,
        c.last() != 'o',
    ensures
        !answers_no(a + b + c),
{
    assert((a + b + c).last() == c.last());
    lemma_not_no(a + b + c);
}

proof fn lemma_decimal_last(n: nat)
    ensures
        decimal(n).len() > 0,
        decimal(n).last() != 'o',
    decreases n,
{
    if n >= 10 {
        lemma_decimal_last(n / 10);
    }
}

proof fn lemma_landlock_explained(c: Capabilities)
    ensures
        gaps_explained(landlock_lines(c)),
{
    reveal_strlit("  landlock: ABI ");
    reveal_strlit("    network policy is NOT enforced (needs ABI 4, Linux 6.7)");
    reveal_strlit("    abstract sockets and signals are NOT scoped (needs ABI 6, Linux 6.12)");
    reveal_strlit("  landlock: unavailable");
    reveal_strlit("    filesystem and network policy will NOT be enforced");
    let ls = landlock_lines(c);
    assert forall|i: int| 0 <= i < ls.len() implies !answers_no(#[trigger] ls[i]) by {
        match c.landlock_abi {
            Some(abi) => {
                if i == 0 {
                    lemma_decimal_last(abi as nat);
                    assert(ls[0] == "  landlock: ABI "@ + decimal(abi as nat));
                    assert(ls[0].last() == decimal(abi as nat).last());
                }
                lemma_not_no(ls[i]);
            },
            None => {
                lemma_not_no(ls[i]);
            },
        }
    }
}

proof fn lemma_namespace_explained(c: Capabilities)
    ensures
        gaps_explained(namespace_lines(c)),
{
    reveal_strlit("  user namespaces: ");
    reveal_strlit("  cgroup delegation: ");
    reveal_strlit("yes");
    reveal_strlit("no");
    reveal_strlit(": no");
    reveal_strlit("    ");
    reveal_strlit("    `--isolate` will fall back to Landlock and seccomp");
    reveal_strlit("    denied egress will cover TCP only, not UDP or DNS");
    reveal_strlit("    a nested `deny` cannot be enforced");
    reveal_strlit("    resource limits will be skipped");
    reveal_strlit("    a run needs a cgroup it may create children in, with the memory, pids");
    reveal_strlit("    and cpu controllers delegated; set BAILEY_CGROUP_ROOT to name one");
    let userns: Seq<Seq<char>> = seq!["  user namespaces: "@ + yes_no_text(c.unprivileged_userns)] + (if !c.unprivileged_userns {
        seq![
            "    `--isolate` will fall back to Landlock and seccomp"@,
            "    denied egress will cover TCP only, not UDP or DNS"@,
            "    a nested `deny` cannot be enforced"@,
        ]
    } else {
        seq![]
    });
    let cgroup: Seq<Seq<char>> = seq!["  cgroup delegation: "@ + yes_no_text(c.cgroup_delegated)] + (if !c.cgroup_delegated {
        seq![
            "    resource limits will be skipped"@,
            "    a run needs a cgroup it may create children in, with the memory, pids"@,
            "    and cpu controllers delegated; set BAILEY_CGROUP_ROOT to name one"@,
        ]
    } else {
        seq![]
    });
    assert(namespace_lines(c) =~= userns + cgroup);
    assert forall|i: int| 0 <= i < userns.len() && #[trigger] answers_no(userns[i]) implies i + 1 < userns.len()
        && indented(userns[i + 1]) by {
        if i > 0 {
            lemma_not_no(userns[i]);
        } else if c.unprivileged_userns {
            assert(userns[0].last() == 's');
            lemma_not_no(userns[0]);
        } else {
            assert(userns[1] == "    `--isolate` will fall back to Landlock and seccomp"@);
            assert(userns[1].subrange(0, 4) =~= "    "@);
        }
    }
    assert forall|i: int| 0 <= i < cgroup.len() && #[trigger] answers_no(cgroup[i]) implies i + 1 < cgroup.len()
        && indented(cgroup[i + 1]) by {
        if i > 0 {
            lemma_not_no(cgroup[i]);
        } else if c.cgroup_delegated {
            assert(cgroup[0].last() == 's');
            lemma_not_no(cgroup[0]);
        } else {
            assert(cgroup[1] == "    resource limits will be skipped"@);
            assert(cgroup[1].subrange(0, 4) =~= "    "@);
        }
    }
    lemma_explained_concat(userns, cgroup);
}

proof fn lemma_audit_explained(c: Capabilities)
    requires
        c.helper matches HelperStatus::NotPermitted(p) ==> !answers_no(render(p@)),
    ensures
        gaps_explained(audit_lines(c)),
{
    reveal_strlit("audit:");
    reveal_strlit("  kernel BTF: ");
    reveal_strlit("yes");
    reveal_strlit("no");
    reveal_strlit(": no");
    reveal_strlit("    ");
    reveal_strlit("    `bailey audit` needs it to load the eBPF programs");
    reveal_strlit("  helper: ready (");
    reveal_strlit(")");
    reveal_strlit("  helper: found but cannot load (");
    reveal_strlit("    grant it capabilities: setcap cap_bpf,cap_perfmon+ep ");
    reveal_strlit("  helper: not found");
    reveal_strlit("    `bailey audit` will not run; build it with -p bailey-bpf-helper");
    let btf: Seq<Seq<char>> = seq!["audit:"@, "  kernel BTF: "@ + yes_no_text(c.btf)] + (if !c.btf {
        seq!["    `bailey audit` needs it to load the eBPF programs"@]
    } else {
        seq![]
    });
    let helper: Seq<Seq<char>> = match c.helper {
        HelperStatus::Ready(p) => seq!["  helper: ready ("@ + render(p@) + ")"@],
        HelperStatus::NotPermitted(p) => seq![
            "  helper: found but cannot load ("@ + render(p@) + ")"@,
            "    grant it capabilities: setcap cap_bpf,cap_perfmon+ep "@ + render(p@),
        ],
        HelperStatus::Missing => seq![
            "  helper: not found"@,
            "    `bailey audit` will not run; build it with -p bailey-bpf-helper"@,
        ],
    };
    assert(audit_lines(c) =~= btf + helper);
    assert forall|i: int| 0 <= i < btf.len() && #[trigger] answers_no(btf[i]) implies i + 1 < btf.len()
        && indented(btf[i + 1]) by {
        if i != 1 {
            lemma_not_no(btf[i]);
        } else if c.btf {
            assert(btf[1].last() == 's');
            lemma_not_no(btf[1]);
        } else {
            assert(btf[2] == "    `bailey audit` needs it to load the eBPF programs"@);
            assert(btf[2].subrange(0, 4) =~= "    "@);
        }
    }
    assert forall|i: int| 0 <= i < helper.len() implies !answers_no(#[trigger] helper[i]) by {
        match c.helper {
            HelperStatus::Ready(p) => {
                lemma_closing("  helper: ready ("@, render(p@), ")"@);
            },
            HelperStatus::NotPermitted(p) => {
                if i == 0 {
                    lemma_closing("  helper: found but cannot load ("@, render(p@), ")"@);
                } else {
                    let l = "    grant it capabilities: setcap cap_bpf,cap_perfmon+ep "@ + render(p@);
                    if render(p@).len() >= 4 {
                        assert(l.subrange(l.len() - 4, l.len() as int) =~= render(p@).subrange(
                            render(p@).len() - 4,
                            render(p@).len() as int,
                        ));
                    } else {
                        if answers_no(l) {
                            let k = render(p@).len() as int;
                            let t = l.subrange(l.len() - 4, l.len() as int);
                            assert(t[0] == l[l.len() - 4]);
                            assert(l[l.len() - 4] == "    grant it capabilities: setcap cap_bpf,cap_perfmon+ep "@[l.len() - 4]);
                            assert(t[1] == ' ');
                            assert(false);
                        }
                    }
                }
            },
            HelperStatus::Missing => {
                lemma_not_no(helper[i]);
            },
        }
    }
    lemma_explained_concat(btf, helper);
}

/// The host report follows every "no" with what that gap costs a run: no
/// missing feature is reported without its consequence. (A helper at a path
/// that itself ends in ": no" would end the report with a line that only
/// looks like an answer.)
pub proof fn law_doctor_explains_every_gap(c: Capabilities)
    requires
        c.helper matches HelperStatus::NotPermitted(p) ==> !answers_no(render(p@)),
    ensures
        gaps_explained(doctor_spec(c)),
{
    reveal_strlit("kernel:");
    reveal_strlit("\nEverything bailey uses is available on this host.");
    let head: Seq<Seq<char>> = seq!["kernel:"@];
    assert(head[0].last() == ':');
    lemma_not_no(head[0]);
    lemma_landlock_explained(c);
    lemma_namespace_explained(c);
    lemma_audit_explained(c);
    let tail: Seq<Seq<char>> = if !degraded(c) {
        seq!["\nEverything bailey uses is available on this host."@]
    } else {
        seq![]
    };
    if !degraded(c) {
        lemma_not_no(tail[0]);
    }
    lemma_explained_concat(head, landlock_lines(c));
    lemma_explained_concat(head + landlock_lines(c), namespace_lines(c));
    lemma_explained_concat(head + landlock_lines(c) + namespace_lines(c), audit_lines(c));
    lemma_explained_concat(head + landlock_lines(c) + namespace_lines(c) + audit_lines(c), tail);
}

} // verus!
