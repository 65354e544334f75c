//! The mechanism-independent sandbox policy.
//!
//! A [`Policy`] expresses the intent of a sandbox: which filesystem paths,
//! network destinations and devices a target may reach, which environment it
//! is handed, and what resource limits apply. Anything not granted is denied.

use vstd::prelude::*;

use crate::path::{starts_with_spec, PathBuf, PathView};
use crate::strmap::StrMap;

verus! {

/// Access rights on a path hierarchy or device node.
#[derive(Debug, Clone, Copy, PartialEq, Eq)]
pub struct Access {
    /// Permission to read.
    pub read: bool,
    /// Permission to write.
    pub write: bool,
    /// Permission to execute.
    pub execute: bool,
}

impl Access {
    /// No rights.
    pub fn empty() -> (r: Access)
        ensures
            !r.read && !r.write && !r.execute,
    {
        Access { read: false, write: false, execute: false }
    }

    /// Read only.
    pub fn read_only() -> (r: Access)
        ensures
            r.read && !r.write && !r.execute,
    {
        Access { read: true, write: false, execute: false }
    }

    /// Write only.
    pub fn write_only() -> (r: Access)
        ensures
            !r.read && r.write && !r.execute,
    {
        Access { read: false, write: true, execute: false }
    }

    /// Execute only.
    pub fn execute_only() -> (r: Access)
        ensures
            !r.read && !r.write && r.execute,
    {
        Access { read: false, write: false, execute: true }
    }

    /// The rights of both.
    pub fn union(self, other: Access) -> (r: Access)
        ensures
            r == union_spec(self, other),
    {
        Access {
            read: self.read || other.read,
            write: self.write || other.write,
            execute: self.execute || other.execute,
        }
    }

    /// Whether every right in `other` is also in `self`.
    pub fn contains(self, other: Access) -> (r: bool)
        ensures
            r == contains_spec(self, other),
    {
        (self.read || !other.read) && (self.write || !other.write) && (self.execute || !other.execute)
    }

    /// Whether there are no rights at all.
    pub fn is_empty(self) -> (r: bool)
        ensures
            r == (!self.read && !self.write && !self.execute),
    {
        !self.read && !self.write && !self.execute
    }
}

pub open spec fn union_spec(a: Access, b: Access) -> Access {
    Access { read: a.read || b.read, write: a.write || b.write, execute: a.execute || b.execute }
}

pub open spec fn contains_spec(a: Access, b: Access) -> bool {
    (a.read || !b.read) && (a.write || !b.write) && (a.execute || !b.execute)
}

pub open spec fn no_access() -> Access {
    Access { read: false, write: false, execute: false }
}

/// A filesystem grant: a path hierarchy and the rights on it.
#[derive(Debug, Clone, PartialEq, Eq)]
pub struct FsRule {
    /// The hierarchy the grant applies to.
    pub path: PathBuf,
    /// The rights granted on it.
    pub access: Access,
    /// Where the hierarchy appears inside the sandbox, when it is placed
    /// somewhere other than its own path.
    pub at: Option<PathBuf>,
}

/// Outbound network intent.
#[derive(Debug, Clone, PartialEq, Eq)]
pub enum Egress {
    /// Deny all outbound connections.
    DenyAll,
    /// Allow all outbound connections.
    AllowAll,
    /// Allow only the listed destinations.
    Allow(Vec<EgressRule>),
}

/// A permitted egress destination.
#[derive(Debug, Clone, PartialEq, Eq)]
pub struct EgressRule {
    /// Destination hostname or CIDR block.
    pub host: String,
    /// Destination port, or `None` for any port.
    pub port: Option<u16>,
}

/// Outbound network intent as a value: each allowed destination as its host
/// and port.
pub enum EgressView {
    DenyAll,
    AllowAll,
    Allow(Seq<(Seq<char>, Option<u16>)>),
}

pub open spec fn rules_view(rules: Seq<EgressRule>) -> Seq<(Seq<char>, Option<u16>)> {
    rules.map_values(|r: EgressRule| (r.host@, r.port))
}

impl View for Egress {
    type V = EgressView;

    open spec fn view(&self) -> EgressView {
        match self {
            Egress::DenyAll => EgressView::DenyAll,
            Egress::AllowAll => EgressView::AllowAll,
            Egress::Allow(rules) => EgressView::Allow(rules_view(rules@)),
        }
    }
}

/// Network access intent.
#[derive(Debug, Clone, PartialEq, Eq)]
pub struct NetworkPolicy {
    /// Outbound connection policy.
    pub egress: Egress,
    /// TCP ports the target may bind.
    pub bind_ports: Vec<u16>,
}

impl NetworkPolicy {
    /// No egress and no bound ports.
    pub fn deny_all() -> (r: NetworkPolicy)
        ensures
            r.egress == Egress::DenyAll,
            r.bind_ports@ == Seq::<u16>::empty(),
    {
        NetworkPolicy { egress: Egress::DenyAll, bind_ports: Vec::new() }
    }
}

/// A device grant, typically a node under `/dev`.
#[derive(Debug, Clone, PartialEq, Eq)]
pub struct DeviceRule {
    /// Path to the device node.
    pub path: PathBuf,
    /// Rights granted on the device.
    pub access: Access,
}

/// Resource limits applied through cgroups and the private mounts.
#[derive(Debug, Clone, Copy, PartialEq, Eq)]
pub struct ResourceLimits {
    /// Maximum resident memory in bytes.
    pub memory_bytes: Option<u64>,
    /// Maximum number of processes and threads.
    pub pids_max: Option<u64>,
    /// CPU quota as a percentage of one core.
    pub cpu_percent: Option<u32>,
    /// Size of the private `/tmp`, in bytes.
    pub tmp_bytes: Option<u64>,
    /// Size of the private `/dev/shm`, in bytes.
    pub shm_bytes: Option<u64>,
}

impl ResourceLimits {
    /// No limits.
    pub fn none() -> (r: ResourceLimits)
        ensures
            r == no_limits(),
    {
        ResourceLimits {
            memory_bytes: None,
            pids_max: None,
            cpu_percent: None,
            tmp_bytes: None,
            shm_bytes: None,
        }
    }

    /// Whether no limit is set.
    pub fn is_none(&self) -> (r: bool)
        ensures
            r == (*self == no_limits()),
    {
        self.memory_bytes.is_none() && self.pids_max.is_none() && self.cpu_percent.is_none()
            && self.tmp_bytes.is_none() && self.shm_bytes.is_none()
    }
}

pub open spec fn no_limits() -> ResourceLimits {
    ResourceLimits {
        memory_bytes: None,
        pids_max: None,
        cpu_percent: None,
        tmp_bytes: None,
        shm_bytes: None,
    }
}

/// Whether `pattern` names `name`: exactly, or, for a pattern ending in `*`,
/// by the prefix before the star.
pub open spec fn name_matches(pattern: Seq<char>, name: Seq<char>) -> bool {
    if pattern.len() > 0 && pattern.last() == '*' {
        let prefix = pattern.drop_last();
        prefix.len() <= name.len() && name.subrange(0, prefix.len() as int) == prefix
    } else {
        pattern == name
    }
}

/// Whether some pattern in `patterns` names `name`.
pub open spec fn any_matches(patterns: Seq<Seq<char>>, name: Seq<char>) -> bool {
    exists|i: int| 0 <= i < patterns.len() && name_matches(#[trigger] patterns[i], name)
}

/// Whether `pattern` names `name`.
pub fn pattern_matches(pattern: &String, name: &String) -> (r: bool)
    ensures
        r == name_matches(pattern@, name@),
{
    let p = crate::text::chars_of(pattern.as_str());
    let n = crate::text::chars_of(name.as_str());
    if p.len() > 0 && p[p.len() - 1] == '*' {
        let k = p.len() - 1;
        if k > n.len() {
            return false;
        }
        let mut i: usize = 0;
        while i < k
            invariant
                k == p.len() - 1,
                k <= n.len(),
                p@ == pattern@,
                n@ == name@,
                i <= k,
                forall|j: int| 0 <= j < i ==> n@[j] == p@[j],
            decreases k - i,
        {
            if n[i] != p[i] {
                assert(n@.subrange(0, k as int)[i as int] != p@.drop_last()[i as int]);
                return false;
            }
            i = i + 1;
        }
        assert(n@.subrange(0, k as int) =~= p@.drop_last());
        true
    } else {
        *pattern == *name
    }
}

/// Whether some pattern in `patterns` names `name`.
pub fn any_pattern_matches(patterns: &Vec<String>, name: &String) -> (r: bool)
    ensures
        r == any_matches(patterns.deep_view(), name@),
{
    let mut i: usize = 0;
    while i < patterns.len()
        invariant
            i <= patterns.len(),
            forall|j: int| 0 <= j < i ==> !name_matches(#[trigger] patterns.deep_view()[j], name@),
        decreases patterns.len() - i,
    {
        if pattern_matches(&patterns[i], name) {
            assert(name_matches(patterns.deep_view()[i as int], name@));
            return true;
        }
        i = i + 1;
    }
    false
}

/// The environment a target is handed, beyond the base set.
#[derive(Debug, Clone, PartialEq, Eq)]
pub struct EnvPolicy {
    /// Caller variables passed through, by name or by `PREFIX*`.
    pub pass: Vec<String>,
    /// Variables removed from the environment, by name or by `PREFIX*`.
    pub deny: Vec<String>,
    /// Variables set to a value, by name.
    pub set: StrMap<String>,
}

impl EnvPolicy {
    /// Nothing passed, denied or set.
    pub fn empty() -> (r: EnvPolicy)
        ensures
            r.wf(),
            r.pass@.len() == 0,
            r.deny@.len() == 0,
            r.set.map() == Map::<Seq<char>, String>::empty(),
    {
        EnvPolicy { pass: Vec::new(), deny: Vec::new(), set: StrMap::new() }
    }

    pub open spec fn wf(&self) -> bool {
        self.set.wf()
    }

    /// Whether a caller variable called `name` is passed through.
    pub fn passes(&self, name: &String) -> (r: bool)
        ensures
            r == any_matches(self.pass.deep_view(), name@),
    {
        any_pattern_matches(&self.pass, name)
    }

    /// Whether a variable called `name` is removed.
    pub fn denies(&self, name: &String) -> (r: bool)
        ensures
            r == any_matches(self.deny.deep_view(), name@),
    {
        any_pattern_matches(&self.deny, name)
    }
}

/// A fully resolved, deny-by-default sandbox policy.
#[derive(Debug, Clone, PartialEq, Eq)]
pub struct Policy {
    /// Filesystem grants, sorted by path.
    pub filesystem: Vec<FsRule>,
    /// Paths denied outright, sorted by path. A denial is total: nothing
    /// beneath it is reachable, even under a grant of a containing directory.
    pub denied: Vec<PathBuf>,
    /// Paths kept read-only even where a grant makes their parent writable,
    /// sorted by path.
    pub read_only: Vec<PathBuf>,
    /// Network access policy.
    pub network: NetworkPolicy,
    /// Device grants, sorted by path.
    pub devices: Vec<DeviceRule>,
    /// Resource limits.
    pub resources: ResourceLimits,
    /// The environment handed to the target.
    pub env: EnvPolicy,
    /// Where the target's private home lives, when the config names it.
    pub home: Option<PathBuf>,
}

/// The elements of `s` for which `pred` holds, in order.
pub open spec fn keep<A>(s: Seq<A>, pred: spec_fn(A) -> bool) -> Seq<A>
    decreases s.len(),
{
    if s.len() == 0 {
        seq![]
    } else if pred(s.last()) {
        keep(s.drop_last(), pred).push(s.last())
    } else {
        keep(s.drop_last(), pred)
    }
}

/// The grant paths of a policy, as values.
pub open spec fn grant_paths(rules: Seq<FsRule>) -> Seq<PathView> {
    rules.map_values(|r: FsRule| r.path@)
}

/// Whether `d` lies strictly beneath some grant.
pub open spec fn beneath_a_grant(rules: Seq<FsRule>, d: PathView) -> bool {
    exists|i: int| 0 <= i < rules.len() && starts_with_spec(d, #[trigger] rules[i].path@)
        && d != rules[i].path@
}

/// Whether `p` lies at or beneath some writable grant.
pub open spec fn within_a_writable_grant(rules: Seq<FsRule>, p: PathView) -> bool {
    exists|i: int| 0 <= i < rules.len() && (#[trigger] rules[i]).access.write
        && starts_with_spec(p, rules[i].path@)
}

pub open spec fn paths_view(v: Seq<PathBuf>) -> Seq<PathView> {
    v.map_values(|p: PathBuf| p@)
}

impl Policy {
    /// An empty policy: nothing granted, egress denied.
    pub fn empty() -> (r: Policy)
        ensures
            r.wf(),
            r.filesystem@.len() == 0,
            r.denied@.len() == 0,
            r.read_only@.len() == 0,
            r.devices@.len() == 0,
            r.network.egress == Egress::DenyAll,
            r.network.bind_ports@.len() == 0,
            r.resources == no_limits(),
            r.env.pass@.len() == 0,
            r.env.deny@.len() == 0,
            r.env.set.map() == Map::<Seq<char>, String>::empty(),
            r.home.is_none(),
    {
        Policy {
            filesystem: Vec::new(),
            denied: Vec::new(),
            read_only: Vec::new(),
            network: NetworkPolicy::deny_all(),
            devices: Vec::new(),
            resources: ResourceLimits::none(),
            env: EnvPolicy::empty(),
            home: None,
        }
    }

    pub open spec fn wf(&self) -> bool {
        self.env.wf()
    }

    /// Denials beneath a grant that still covers them.
    ///
    /// Landlock rules can only add access, and access resolution walks up
    /// from the accessed path, so these need the isolation layer, which covers
    /// them over.
    pub fn nested_denials(&self) -> (r: Vec<PathBuf>)
        ensures
            paths_view(r@) == keep(
                paths_view(self.denied@),
                |d: PathView| beneath_a_grant(self.filesystem@, d),
            ),
    {
        let ghost pred = |d: PathView| beneath_a_grant(self.filesystem@, d);
        let mut r: Vec<PathBuf> = Vec::new();
        let mut i: usize = 0;
        while i < self.denied.len()
            invariant
                i <= self.denied.len(),
                pred == (|d: PathView| beneath_a_grant(self.filesystem@, d)),
                paths_view(r@) == keep(paths_view(self.denied@).subrange(0, i as int), pred),
            decreases self.denied.len() - i,
        {
            let d = &self.denied[i];
            let ghost s = paths_view(self.denied@).subrange(0, i + 1);
            assert(s.drop_last() =~= paths_view(self.denied@).subrange(0, i as int));
            assert(s.last() == d@);
            let mut j: usize = 0;
            let mut hit = false;
            while j < self.filesystem.len()
                invariant
                    j <= self.filesystem.len(),
                    hit == exists|k: int| 0 <= k < j && starts_with_spec(d@, #[trigger] self.filesystem@[k].path@)
                        && d@ != self.filesystem@[k].path@,
                decreases self.filesystem.len() - j,
            {
                let rule = &self.filesystem[j];
                if d.starts_with(&rule.path) && !d.same(&rule.path) {
                    hit = true;
                }
                j = j + 1;
            }
            assert(hit == pred(d@));
            let ghost before = paths_view(r@);
            if hit {
                r.push(d.duplicate());
                assert(paths_view(r@) =~= before.push(d@));
            } else {
                assert(paths_view(r@) =~= before);
            }
            i = i + 1;
        }
        assert(paths_view(self.denied@).subrange(0, self.denied.len() as int) =~= paths_view(self.denied@));
        r
    }

    /// Read-only paths inside a writable grant, which only the isolation
    /// layer can keep read-only.
    pub fn nested_read_only(&self) -> (r: Vec<PathBuf>)
        ensures
            paths_view(r@) == keep(
                paths_view(self.read_only@),
                |p: PathView| within_a_writable_grant(self.filesystem@, p),
            ),
    {
        let ghost pred = |p: PathView| within_a_writable_grant(self.filesystem@, p);
        let mut r: Vec<PathBuf> = Vec::new();
        let mut i: usize = 0;
        while i < self.read_only.len()
            invariant
                i <= self.read_only.len(),
                pred == (|p: PathView| within_a_writable_grant(self.filesystem@, p)),
                paths_view(r@) == keep(paths_view(self.read_only@).subrange(0, i as int), pred),
            decreases self.read_only.len() - i,
        {
            let p = &self.read_only[i];
            let ghost s = paths_view(self.read_only@).subrange(0, i + 1);
            assert(s.drop_last() =~= paths_view(self.read_only@).subrange(0, i as int));
            assert(s.last() == p@);
            let mut j: usize = 0;
            let mut hit = false;
            while j < self.filesystem.len()
                invariant
                    j <= self.filesystem.len(),
                    hit == exists|k: int| 0 <= k < j && (#[trigger] self.filesystem@[k]).access.write
                        && starts_with_spec(p@, self.filesystem@[k].path@),
                decreases self.filesystem.len() - j,
            {
                let rule = &self.filesystem[j];
                if rule.access.write && p.starts_with(&rule.path) {
                    hit = true;
                }
                j = j + 1;
            }
            assert(hit == pred(p@));
            let ghost before = paths_view(r@);
            if hit {
                r.push(p.duplicate());
                assert(paths_view(r@) =~= before.push(p@));
            } else {
                assert(paths_view(r@) =~= before);
            }
            i = i + 1;
        }
        assert(paths_view(self.read_only@).subrange(0, self.read_only.len() as int) =~= paths_view(self.read_only@));
        r
    }
}

} // verus!
