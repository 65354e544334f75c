//! The audit backend's decisions.
//!
//! An audit runs the target while recording what it touches. The target runs
//! confined: audit is the mode people reach for when they do not yet know
//! what a program does, which makes it exactly the wrong mode to run unknown
//! code with full authority. The policy is widened to an envelope that lets a
//! well-behaved program work, and the envelope is reported before the run.

use vstd::prelude::*;

use crate::config::HostEnv;
use crate::enforce::{EnforceBackend, Summary, Target};
use crate::path::{parent_spec, PathBuf, PathView};
use crate::policy::{FsRule, Policy};
use crate::event::{AccessKind, ResourceView};
use crate::reconcile::{granted_spec, read_access};
use crate::resolve::{absolute, absolute_spec};
use crate::world::{derive_spec, World};

verus! {

/// Permissive-but-recording audit backend.
#[derive(Debug, Clone, Copy)]
pub struct AuditBackend {
    /// Run the target with no confinement at all. An explicit opt-out for
    /// software the user already trusts.
    pub unconfined: bool,
    /// Reconstruct the target's world with namespaces during the audit.
    pub isolate: bool,
}

/// The directory of the target program, when its absolute path can be had
/// and has one.
pub open spec fn program_dir(program: PathView, env: HostEnv) -> Option<PathView> {
    if !program.absolute && program.parts.len() == 0 {
        None
    } else {
        let a = absolute_spec(program, env);
        if a.absolute { parent_spec(a) } else { None }
    }
}

/// The warning of an audit without confinement.
pub open spec fn unconfined_warning() -> Seq<char> {
    "bailey: warning: auditing without confinement; the target runs with your full authority"@
}

/// What the report of the envelope says: widened, or unchanged.
pub open spec fn envelope_note_spec(widened: bool) -> Seq<char> {
    if widened {
        "bailey: audit envelope: policy plus read on the target's own directory"@
    } else {
        "bailey: audit envelope: the resolved policy, unchanged"@
    }
}

impl AuditBackend {
    /// The enforcement an audit runs under: the target is stopped before it
    /// executes so observation can be put in place first, no layer summary
    /// buries the findings, and the run always gets a cgroup, since scoping
    /// observation to one is race-free.
    pub fn enforcer(&self) -> (r: EnforceBackend)
        ensures
            r.isolate == self.isolate,
            r.stop_before_exec,
            r.summary == Summary::Quiet,
            r.always_cgroup,
    {
        EnforceBackend { isolate: self.isolate, stop_before_exec: true, summary: Summary::Quiet, always_cgroup: true }
    }

    /// The warning of an audit without confinement, when it is one.
    pub fn warning(&self) -> (r: Option<&'static str>)
        ensures
            r is Some <==> self.unconfined,
            r matches Some(m) ==> m@ == unconfined_warning(),
    {
        if self.unconfined {
            Some("bailey: warning: auditing without confinement; the target runs with your full authority")
        } else {
            None
        }
    }
}

/// Widens `policy` enough for a target to run while being observed: read
/// access to the target's own directory, which is what a program most often
/// needs and most often lacks before its profile exists. Network policy is
/// untouched, so an attempt to reach the network is recorded rather than
/// served. Also says whether the policy was widened.
pub fn envelope(policy: Policy, target: &Target, env: &HostEnv) -> (r: (Policy, bool))
    ensures
        r.0.denied == policy.denied,
        r.0.read_only == policy.read_only,
        r.0.network == policy.network,
        r.0.devices == policy.devices,
        r.0.resources == policy.resources,
        r.0.env == policy.env,
        r.0.home == policy.home,
        r.1 == program_dir(target.program@, *env) is Some,
        match program_dir(target.program@, *env) {
            Some(d) => r.0.filesystem@.len() == policy.filesystem@.len() + 1
                && r.0.filesystem@.subrange(0, policy.filesystem@.len() as int) == policy.filesystem@
                && r.0.filesystem@.last().path@ == d
                && r.0.filesystem@.last().access == read_access()
                && r.0.filesystem@.last().at is None,
            None => r.0.filesystem@ == policy.filesystem@,
        },
{
    let mut e = policy;
    if !target.program.absolute && target.program.parts.len() == 0 {
        return (e, false);
    }
    let a = absolute(&target.program, env);
    if !a.absolute {
        return (e, false);
    }
    match a.parent() {
        Some(dir) => {
            let ghost before = e.filesystem@;
            e.filesystem.push(FsRule { path: dir, access: crate::policy::Access::read_only(), at: None });
            assert(e.filesystem@.subrange(0, before.len() as int) =~= before);
            (e, true)
        },
        None => (e, false),
    }
}

/// What the report of the envelope says.
pub fn envelope_note(widened: bool) -> (r: &'static str)
    ensures
        r@ == envelope_note_spec(widened),
{
    if widened {
        "bailey: audit envelope: policy plus read on the target's own directory"
    } else {
        "bailey: audit envelope: the resolved policy, unchanged"
    }
}

/// The storage the sandbox hands a target on its own, which no config
/// names: the private home, when there is one, and the terminal the run is
/// attached to, when it has one.
pub open spec fn own_storage(policy: Policy, target: PathView, env: HostEnv, terminal: Option<PathView>) -> Seq<PathView> {
    (match derive_spec(target, policy, false, env).0 { Some(h) => seq![h], None => seq![] })
        + match terminal { Some(t) => seq![t], None => seq![] }
}

/// The policy as it stood at run time, including what the sandbox provides
/// on its own: read and write on the private home and on the terminal. A
/// plain reconciliation would report a program reading its own settings, or
/// writing to its own terminal, as ungranted; and a generated profile would
/// name this session's terminal, which is a different one tomorrow.
pub fn policy_with_own_storage(policy: Policy, target: &PathBuf, env: &HostEnv, terminal: Option<PathBuf>) -> (r: Policy)
    ensures
        r.denied == policy.denied,
        r.read_only == policy.read_only,
        r.network == policy.network,
        r.devices == policy.devices,
        r.resources == policy.resources,
        r.env == policy.env,
        r.home == policy.home,
        r.filesystem@.subrange(0, policy.filesystem@.len() as int) == policy.filesystem@,
        r.filesystem@.len() == policy.filesystem@.len() + own_storage(
            policy,
            target@,
            *env,
            match terminal { Some(t) => Some(t@), None => None },
        ).len(),
        forall|i: int| policy.filesystem@.len() <= i < r.filesystem@.len() ==> {
            &&& (#[trigger] r.filesystem@[i]).path@ == own_storage(
                policy,
                target@,
                *env,
                match terminal { Some(t) => Some(t@), None => None },
            )[i - policy.filesystem@.len()]
            &&& r.filesystem@[i].access == (crate::policy::Access { read: true, write: true, execute: false })
            &&& r.filesystem@[i].at is None
        },
{
    let ghost own = own_storage(policy, target@, *env, match &terminal { Some(t) => Some(t@), None => None });
    let ghost n = policy.filesystem@.len();
    let ghost old_fs = policy.filesystem@;
    let world = World::derive(target, &policy, false, env, terminal);
    let mut effective = policy;
    let rw = crate::policy::Access::read_only().union(crate::policy::Access::write_only());
    match &world.home_host {
        Some(h) => {
            effective.filesystem.push(FsRule { path: h.duplicate(), access: rw, at: None });
        },
        None => {},
    }
    match &world.terminal {
        Some(t) => {
            effective.filesystem.push(FsRule { path: t.duplicate(), access: rw, at: None });
        },
        None => {},
    }
    assert(effective.filesystem@.subrange(0, n as int) =~= old_fs);
    effective
}

/// Adding filesystem grants to a policy, as the audit envelope and the
/// run's own storage do, only widens it: every access the policy granted is
/// still granted, since denials, network and devices stay as they were.
pub proof fn law_added_grants_only_widen(p: Policy, q: Policy, kind: AccessKind, resource: ResourceView)
    requires
        q.denied == p.denied,
        q.network == p.network,
        q.devices == p.devices,
        p.filesystem@.is_prefix_of(q.filesystem@),
        granted_spec(kind, resource, p),
    ensures
        granted_spec(kind, resource, q),
{
    reveal(granted_spec);
    match resource {
        ResourceView::Path(x) => {
            let a = match kind {
                AccessKind::Read => read_access(),
                AccessKind::Write => crate::reconcile::write_access(),
                _ => crate::reconcile::execute_access(),
            };
            if exists|i: int| 0 <= i < p.filesystem@.len() && crate::policy::contains_spec((#[trigger] p.filesystem@[i]).access, a)
                && crate::path::starts_with_spec(x, p.filesystem@[i].path@) {
                let i = choose|i: int| 0 <= i < p.filesystem@.len() && crate::policy::contains_spec((#[trigger] p.filesystem@[i]).access, a)
                    && crate::path::starts_with_spec(x, p.filesystem@[i].path@);
                assert(q.filesystem@[i] == p.filesystem@[i]);
            }
        },
        _ => {},
    }
}

/// The audit envelope adds read access only: an envelope that adds nothing
/// but read grants allows no write, execute or network access the policy
/// did not, so such attempts are recorded rather than served.
pub proof fn law_read_envelope_grants_no_more_than_read(p: Policy, q: Policy, kind: AccessKind, resource: ResourceView)
    requires
        q.denied == p.denied,
        q.network == p.network,
        q.devices == p.devices,
        p.filesystem@.is_prefix_of(q.filesystem@),
        forall|i: int| p.filesystem@.len() <= i < q.filesystem@.len() ==> (#[trigger] q.filesystem@[i]).access == read_access(),
        kind != AccessKind::Read,
        granted_spec(kind, resource, q),
    ensures
        granted_spec(kind, resource, p),
{
    reveal(granted_spec);
    match resource {
        ResourceView::Path(x) => {
            let a = match kind {
                AccessKind::Write => crate::reconcile::write_access(),
                _ => crate::reconcile::execute_access(),
            };
            if exists|i: int| 0 <= i < q.filesystem@.len() && crate::policy::contains_spec((#[trigger] q.filesystem@[i]).access, a)
                && crate::path::starts_with_spec(x, q.filesystem@[i].path@) {
                let i = choose|i: int| 0 <= i < q.filesystem@.len() && crate::policy::contains_spec((#[trigger] q.filesystem@[i]).access, a)
                    && crate::path::starts_with_spec(x, q.filesystem@[i].path@);
                if i >= p.filesystem@.len() {
                    assert(q.filesystem@[i].access == read_access());
                    if kind == AccessKind::Write || kind == AccessKind::Execute {
                        assert(false);
                    }
                }
                assert(q.filesystem@[i] == p.filesystem@[i]);
            }
        },
        _ => {},
    }
}

} // verus!
