//! What namespace isolation rebuilds.
//!
//! Under isolation the target runs in fresh user, mount and PID namespaces
//! with a root rebuilt from the policy's granted paths, so an ungranted path
//! is absent rather than merely denied. The plan of that root (what is bound
//! in, what is covered over, what is kept read-only) is decided here from the
//! policy and from what the host has at each path; the mounts are made by the
//! caller.

use vstd::prelude::*;

use crate::network::NetworkMode;
use crate::path::{parse_spec, path_lt, starts_with_spec, PathBuf, PathView};
use crate::pathmap::{has_key, PathMap};
use crate::policy::{paths_view, Policy};
use crate::text::{decimal, push_decimal, push_str, string_of};
use crate::world::World;

verus! {

/// A path to bind into the reconstructed root.
#[derive(Debug, Clone)]
pub struct BindMount {
    /// Source path on the host.
    pub source: PathBuf,
    /// Where it appears in the reconstructed root.
    pub at: PathBuf,
    /// Whether the source is a directory (otherwise a file mountpoint is made).
    pub is_dir: bool,
}

/// A symlink to recreate inside the reconstructed root, rather than follow.
#[derive(Debug, Clone, PartialEq, Eq)]
pub struct SymLink {
    /// Where the link goes in the new root.
    pub at: PathBuf,
    /// What it points at, exactly as the host has it.
    pub to: PathBuf,
}

/// A path to cover over inside the reconstructed root: how a denial is
/// enforced beneath a granted parent.
#[derive(Debug, Clone)]
pub struct Conceal {
    /// Absolute path to cover, as it appears in the new root.
    pub path: PathBuf,
    /// Whether the path is a directory.
    pub is_dir: bool,
}

/// The set of paths to reconstruct in the target's root.
#[derive(Debug, Clone)]
pub struct IsolationPlan {
    /// Paths to bind into the new root.
    pub binds: Vec<BindMount>,
    /// Symlinks to recreate rather than follow.
    pub links: Vec<SymLink>,
    /// Paths to cover over after binding.
    pub conceal: Vec<Conceal>,
    /// Paths to re-mount read-only after binding.
    pub read_only: Vec<PathBuf>,
    /// Whether to also take the target out of the host's network namespace.
    pub network: bool,
    /// The private home: where it lives on the host, and where it appears
    /// inside.
    pub home: Option<(PathBuf, PathBuf)>,
    /// Whether to give the target a private `/tmp`.
    pub private_tmp: bool,
    /// Size of the private `/tmp`, in bytes.
    pub tmp_bytes: u64,
    /// Whether to give the target a private `/dev/shm`.
    pub private_shm: bool,
    /// Size of the private `/dev/shm`, in bytes.
    pub shm_bytes: u64,
    /// Directory to start the target in, once the new root is in place.
    pub cwd: PathBuf,
    /// Host directory the new root is staged in.
    pub staging: PathBuf,
}

/// Size of the private `/tmp` when the policy does not set one: 64 MiB.
pub const DEFAULT_TMP_BYTES: u64 = 67108864;

/// Size of the private `/dev/shm` when the policy does not set one: 256 MiB.
/// Graphics and audio stacks keep buffers there.
pub const DEFAULT_SHM_BYTES: u64 = 268435456;

/// The paths a policy grants, filesystem then devices.
pub open spec fn granted_paths(policy: Policy) -> Seq<PathView> {
    policy.filesystem@.map_values(|r: crate::policy::FsRule| r.path@)
        + policy.devices@.map_values(|r: crate::policy::DeviceRule| r.path@)
}

/// Whether `p` lies at or beneath one of `denied`.
pub open spec fn denied_by(denied: Seq<PathView>, p: PathView) -> bool {
    exists|i: int| 0 <= i < denied.len() && starts_with_spec(p, #[trigger] denied[i])
}

/// Whether a granted path may be bound: it is not under `/proc`, which is
/// mounted fresh, and no denial covers it.
pub open spec fn bindable(policy: Policy, p: PathView) -> bool {
    !starts_with_spec(p, parse_spec("/proc"@)) && !denied_by(paths_view(policy.denied@), p)
}

/// The paths considered for binding.
pub open spec fn wanted(policy: Policy) -> Set<PathView> {
    Set::new(|p: PathView| granted_paths(policy).contains(p) && bindable(policy, p))
}

/// Whether `c` strictly increases in path order.
pub open spec fn sorted_paths(c: Seq<PathView>) -> bool {
    forall|i: int, j: int| 0 <= i < j < c.len() ==> path_lt(#[trigger] c[i], #[trigger] c[j])
}

/// Whether `p` lies at or beneath one of `roots`.
pub open spec fn under_any(roots: Seq<PathView>, p: PathView) -> bool {
    exists|i: int| 0 <= i < roots.len() && starts_with_spec(p, #[trigger] roots[i])
}

/// Walking the candidates in order: a path beneath a directory already bound
/// comes along with it; a path the host does not have is skipped; the rest
/// are bound, and a bound directory covers what lies beneath it. `kinds` maps
/// each path the host has to whether it is a directory. The result is the
/// binds (source and whether it is a directory) and the directories bound.
pub open spec fn bind_walk(c: Seq<PathView>, kinds: Map<PathView, bool>) -> (Seq<(PathView, bool)>, Seq<PathView>)
    decreases c.len(),
{
    if c.len() == 0 {
        (seq![], seq![])
    } else {
        let (b, r) = bind_walk(c.drop_last(), kinds);
        let p = c.last();
        if under_any(r, p) || !kinds.contains_key(p) {
            (b, r)
        } else {
            (b.push((p, kinds[p])), if kinds[p] { r.push(p) } else { r })
        }
    }
}

/// Whether `p` lies at or beneath the source of one of `binds`.
pub open spec fn under_a_bind(binds: Seq<(PathView, bool)>, p: PathView) -> bool {
    exists|i: int| 0 <= i < binds.len() && starts_with_spec(p, (#[trigger] binds[i]).0)
}

/// The denials to cover over: those that arrive with a bind and that the host
/// has, in the policy's order, each with whether it is a directory.
pub open spec fn conceal_spec(denied: Seq<PathView>, binds: Seq<(PathView, bool)>, kinds: Map<PathView, bool>) -> Seq<(PathView, bool)>
    decreases denied.len(),
{
    if denied.len() == 0 {
        seq![]
    } else {
        let rest = conceal_spec(denied.drop_last(), binds, kinds);
        let d = denied.last();
        if under_a_bind(binds, d) && kinds.contains_key(d) {
            rest.push((d, kinds[d]))
        } else {
            rest
        }
    }
}

/// The staging directory of the run with process id `pid`.
pub open spec fn staging_spec(pid: u32) -> PathView {
    parse_spec("/tmp/.bailey-root."@ + decimal(pid as nat))
}

/// The binds of a plan as plain values: source and whether it is a directory.
pub open spec fn binds_view(v: Seq<BindMount>) -> Seq<(PathView, bool)> {
    v.map_values(|b: BindMount| (b.source@, b.is_dir))
}

/// The covered paths of a plan as plain values.
pub open spec fn conceal_view(v: Seq<Conceal>) -> Seq<(PathView, bool)> {
    v.map_values(|c: Conceal| (c.path@, c.is_dir))
}

/// Whether `plan` is the isolation plan for `policy` under network mode
/// `mode`, in `world`, on a host whose paths are `kinds`, for the run with
/// process id `pid`. The candidates `c` are the bindable granted paths,
/// sorted, each once.
pub open spec fn plan_from(
    plan: IsolationPlan,
    c: Seq<PathView>,
    policy: Policy,
    mode: NetworkMode,
    world: World,
    kinds: Map<PathView, bool>,
    pid: u32,
) -> bool {
    let (binds, _roots) = bind_walk(c, kinds);
    &&& sorted_paths(c)
    &&& c.to_set() == wanted(policy)
    &&& binds_view(plan.binds@) == binds
    &&& forall|i: int| 0 <= i < plan.binds@.len() ==> (#[trigger] plan.binds@[i]).at@ == plan.binds@[i].source@
    &&& plan.links@.len() == 0
    &&& conceal_view(plan.conceal@) == conceal_spec(paths_view(policy.denied@), binds, kinds)
    &&& paths_view(plan.read_only@) == paths_view(policy.read_only@)
    &&& plan.network == (mode == NetworkMode::Isolated)
    &&& match (plan.home, world.home_host) {
        (Some((host, inside)), Some(h)) => host@ == h@ && inside@ == world.home_inside@,
        (None, None) => true,
        _ => false,
    }
    &&& plan.private_tmp == world.private_tmp
    &&& plan.tmp_bytes == match policy.resources.tmp_bytes { Some(b) => b, None => DEFAULT_TMP_BYTES }
    &&& plan.private_shm == world.private_shm
    &&& plan.shm_bytes == match policy.resources.shm_bytes { Some(b) => b, None => DEFAULT_SHM_BYTES }
    &&& plan.cwd@ == world.cwd@
    &&& plan.staging@ == staging_spec(pid)
}

/// Whether `p` lies at or beneath one of `denied`.
pub(crate) fn is_denied(denied: &Vec<PathBuf>, p: &PathBuf) -> (r: bool)
    ensures
        r == denied_by(paths_view(denied@), p@),
{
    let mut i: usize = 0;
    while i < denied.len()
        invariant
            i <= denied@.len(),
            forall|j: int| 0 <= j < i ==> !starts_with_spec(p@, #[trigger] paths_view(denied@)[j]),
        decreases denied@.len() - i,
    {
        if p.starts_with(&denied[i]) {
            assert(starts_with_spec(p@, paths_view(denied@)[i as int]));
            return true;
        }
        i = i + 1;
    }
    false
}

/// Whether a granted path may be bound.
fn is_bindable(policy: &Policy, p: &PathBuf) -> (r: bool)
    ensures
        r == bindable(*policy, p@),
{
    let proc_dir = PathBuf::parse("/proc");
    !p.starts_with(&proc_dir) && !is_denied(&policy.denied, p)
}

/// The bindable granted paths, sorted, each once.
fn candidates(policy: &Policy) -> (r: Vec<PathBuf>)
    ensures
        sorted_paths(paths_view(r@)),
        paths_view(r@).to_set() == wanted(*policy),
{
    let ghost g = granted_paths(*policy);
    let ghost nf = policy.filesystem@.len();
    let mut set: PathMap<bool> = PathMap::new();
    let mut i: usize = 0;
    while i < policy.filesystem.len()
        invariant
            g == granted_paths(*policy),
            nf == policy.filesystem@.len(),
            i <= nf,
            set.wf(),
            forall|p: PathView| #[trigger] set.map().contains_key(p) <==> (g.subrange(0, i as int).contains(p) && bindable(*policy, p)),
        decreases nf - i,
    {
        let p = &policy.filesystem[i].path;
        assert(g[i as int] == p@);
        let ghost before = set.map();
        let ghost prefix = g.subrange(0, i as int);
        if is_bindable(policy, p) {
            set.insert(p.duplicate(), true);
        }
        i = i + 1;
        assert(g.subrange(0, i as int) =~= prefix.push(p@));
        assert forall|q: PathView| #[trigger] set.map().contains_key(q) <==> (g.subrange(0, i as int).contains(q) && bindable(*policy, q)) by {
            assert(before.contains_key(q) <==> (prefix.contains(q) && bindable(*policy, q)));
            vstd::seq_lib::lemma_seq_contains_after_push(prefix, p@, q);
        }
    }
    let mut j: usize = 0;
    while j < policy.devices.len()
        invariant
            g == granted_paths(*policy),
            nf == policy.filesystem@.len(),
            g.len() == nf + policy.devices@.len(),
            j <= policy.devices@.len(),
            set.wf(),
            forall|p: PathView| #[trigger] set.map().contains_key(p) <==> (g.subrange(0, nf + j).contains(p) && bindable(*policy, p)),
        decreases policy.devices@.len() - j,
    {
        let p = &policy.devices[j].path;
        assert(g[nf + j] == p@);
        let ghost before = set.map();
        let ghost prefix = g.subrange(0, nf + j);
        if is_bindable(policy, p) {
            set.insert(p.duplicate(), true);
        }
        j = j + 1;
        assert(g.subrange(0, nf + j) =~= prefix.push(p@));
        assert forall|q: PathView| #[trigger] set.map().contains_key(q) <==> (g.subrange(0, nf + j).contains(q) && bindable(*policy, q)) by {
            assert(before.contains_key(q) <==> (prefix.contains(q) && bindable(*policy, q)));
            vstd::seq_lib::lemma_seq_contains_after_push(prefix, p@, q);
        }
    }
    assert(g.subrange(0, g.len() as int) =~= g);
    let r = set.keys();
    proof {
        set.lemma_wf();
        let s = set.seq();
        let v = paths_view(r@);
        assert(v.len() == s.len());
        assert forall|a: int, b: int| 0 <= a < b < v.len() implies path_lt(#[trigger] v[a], #[trigger] v[b]) by {
            assert(v[a] == s[a].0 && v[b] == s[b].0);
        }
        assert forall|p: PathView| v.to_set().contains(p) <==> wanted(*policy).contains(p) by {
            if v.to_set().contains(p) {
                let k = choose|k: int| 0 <= k < v.len() && v[k] == p;
                assert(s[k].0 == p);
                assert(has_key(s, p));
                assert(set.map().contains_key(p));
            }
            if wanted(*policy).contains(p) {
                assert(set.map().contains_key(p));
                assert(has_key(s, p));
                let k = choose|k: int| 0 <= k < s.len() && #[trigger] s[k].0 == p;
                assert(v[k] == p);
                assert(v.contains(p));
            }
        }
        assert(v.to_set() =~= wanted(*policy));
    }
    r
}

/// Whether `p` lies at or beneath one of `roots`.
fn is_under_any(roots: &Vec<PathBuf>, p: &PathBuf) -> (r: bool)
    ensures
        r == under_any(paths_view(roots@), p@),
{
    let mut i: usize = 0;
    while i < roots.len()
        invariant
            i <= roots@.len(),
            forall|j: int| 0 <= j < i ==> !starts_with_spec(p@, #[trigger] paths_view(roots@)[j]),
        decreases roots@.len() - i,
    {
        if p.starts_with(&roots[i]) {
            assert(starts_with_spec(p@, paths_view(roots@)[i as int]));
            return true;
        }
        i = i + 1;
    }
    false
}

/// Whether `p` lies at or beneath the source of one of `binds`.
fn is_under_a_bind(binds: &Vec<BindMount>, p: &PathBuf) -> (r: bool)
    ensures
        r == under_a_bind(binds_view(binds@), p@),
{
    let mut i: usize = 0;
    while i < binds.len()
        invariant
            i <= binds@.len(),
            forall|j: int| 0 <= j < i ==> !starts_with_spec(p@, (#[trigger] binds_view(binds@)[j]).0),
        decreases binds@.len() - i,
    {
        if p.starts_with(&binds[i].source) {
            assert(starts_with_spec(p@, binds_view(binds@)[i as int].0));
            return true;
        }
        i = i + 1;
    }
    false
}

/// The binds for the candidates `c`, and the directories among them.
fn bind_all(c: &Vec<PathBuf>, kinds: &PathMap<bool>) -> (r: (Vec<BindMount>, Vec<PathBuf>))
    requires
        kinds.wf(),
    ensures
        (binds_view(r.0@), paths_view(r.1@)) == bind_walk(paths_view(c@), kinds.map()),
        forall|i: int| 0 <= i < r.0@.len() ==> (#[trigger] r.0@[i]).at@ == r.0@[i].source@,
{
    let ghost cv = paths_view(c@);
    let mut binds: Vec<BindMount> = Vec::new();
    let mut roots: Vec<PathBuf> = Vec::new();
    let mut i: usize = 0;
    assert(cv.subrange(0, 0) =~= Seq::<PathView>::empty());
    assert(binds_view(binds@) =~= Seq::<(PathView, bool)>::empty());
    assert(paths_view(roots@) =~= Seq::<PathView>::empty());
    while i < c.len()
        invariant
            cv == paths_view(c@),
            i <= c@.len(),
            kinds.wf(),
            (binds_view(binds@), paths_view(roots@)) == bind_walk(cv.subrange(0, i as int), kinds.map()),
            forall|k: int| 0 <= k < binds@.len() ==> (#[trigger] binds@[k]).at@ == binds@[k].source@,
        decreases c@.len() - i,
    {
        let p = &c[i];
        let ghost prefix = cv.subrange(0, i as int);
        assert(cv.subrange(0, i + 1).drop_last() =~= prefix);
        assert(cv.subrange(0, i + 1).last() == p@);
        if !is_under_any(&roots, p) {
            match kinds.get(p) {
                Some(is_dir) => {
                    let d = *is_dir;
                    let ghost before_b = binds@;
                    let ghost before_r = roots@;
                    binds.push(BindMount { source: p.duplicate(), at: p.duplicate(), is_dir: d });
                    assert(binds_view(binds@) =~= binds_view(before_b).push((p@, d)));
                    if d {
                        roots.push(p.duplicate());
                        assert(paths_view(roots@) =~= paths_view(before_r).push(p@));
                    }
                },
                None => {},
            }
        }
        i = i + 1;
    }
    assert(cv.subrange(0, c@.len() as int) =~= cv);
    (binds, roots)
}

/// The denials to cover over.
fn conceal_all(denied: &Vec<PathBuf>, binds: &Vec<BindMount>, kinds: &PathMap<bool>) -> (r: Vec<Conceal>)
    requires
        kinds.wf(),
    ensures
        conceal_view(r@) == conceal_spec(paths_view(denied@), binds_view(binds@), kinds.map()),
{
    let ghost dv = paths_view(denied@);
    let mut out: Vec<Conceal> = Vec::new();
    let mut i: usize = 0;
    assert(conceal_view(out@) =~= Seq::<(PathView, bool)>::empty());
    while i < denied.len()
        invariant
            dv == paths_view(denied@),
            i <= denied@.len(),
            kinds.wf(),
            conceal_view(out@) == conceal_spec(dv.subrange(0, i as int), binds_view(binds@), kinds.map()),
        decreases denied@.len() - i,
    {
        let d = &denied[i];
        assert(dv.subrange(0, i + 1).drop_last() =~= dv.subrange(0, i as int));
        assert(dv.subrange(0, i + 1).last() == d@);
        if is_under_a_bind(binds, d) {
            match kinds.get(d) {
                Some(is_dir) => {
                    let ghost before = out@;
                    out.push(Conceal { path: d.duplicate(), is_dir: *is_dir });
                    assert(conceal_view(out@) =~= conceal_view(before).push((d@, *is_dir)));
                },
                None => {},
            }
        }
        i = i + 1;
    }
    assert(dv.subrange(0, denied@.len() as int) =~= dv);
    out
}

/// A copy of a list of paths.
fn copy_paths(v: &Vec<PathBuf>) -> (r: Vec<PathBuf>)
    ensures
        paths_view(r@) == paths_view(v@),
{
    let mut r: Vec<PathBuf> = Vec::new();
    let mut i: usize = 0;
    while i < v.len()
        invariant
            i <= v@.len(),
            paths_view(r@) == paths_view(v@).subrange(0, i as int),
        decreases v@.len() - i,
    {
        let ghost prev = r@;
        let x = v[i].duplicate();
        r.push(x);
        assert(paths_view(r@) =~= paths_view(prev).push(x@));
        i = i + 1;
        assert(paths_view(r@) =~= paths_view(v@).subrange(0, i as int));
    }
    assert(paths_view(v@).subrange(0, v@.len() as int) =~= paths_view(v@));
    r
}

/// The staging directory of the run with process id `pid`.
fn staging_dir(pid: u32) -> (r: PathBuf)
    ensures
        r@ == staging_spec(pid),
{
    let mut out: Vec<char> = Vec::new();
    push_str(&mut out, "/tmp/.bailey-root.");
    push_decimal(&mut out, pid as u64);
    let text = string_of(&out);
    PathBuf::parse(text.as_str())
}

/// Builds the bind-mount and concealment set for isolation from the policy.
///
/// A granted path under `/proc` is left out, since a fresh `/proc` is mounted
/// in the new PID namespace, and so is a granted path a denial covers: a
/// denied path is never bound. A path beneath a directory already bound comes
/// along with it. Where a denial sits beneath a bound path, it arrives with
/// its parent and is covered over instead, which is what makes a nested
/// denial enforceable: Landlock rules can only add access. `kinds` holds, for
/// each path the host has, whether it is a directory; `pid` is the process id
/// the staging directory is named after.
pub fn build_isolation_plan(policy: &Policy, mode: NetworkMode, world: &World, kinds: &PathMap<bool>, pid: u32) -> (r: IsolationPlan)
    requires
        kinds.wf(),
    ensures
        exists|c: Seq<PathView>| plan_from(r, c, *policy, mode, *world, kinds.map(), pid),
{
    let c = candidates(policy);
    let (binds, _roots) = bind_all(&c, kinds);
    let conceal = conceal_all(&policy.denied, &binds, kinds);
    let read_only = copy_paths(&policy.read_only);
    let home = match &world.home_host {
        Some(host) => Some((host.duplicate(), world.home_inside.duplicate())),
        None => None,
    };
    let tmp_bytes = match policy.resources.tmp_bytes {
        Some(b) => b,
        None => DEFAULT_TMP_BYTES,
    };
    let shm_bytes = match policy.resources.shm_bytes {
        Some(b) => b,
        None => DEFAULT_SHM_BYTES,
    };
    let plan = IsolationPlan {
        binds,
        links: Vec::new(),
        conceal,
        read_only,
        network: mode == NetworkMode::Isolated,
        home,
        private_tmp: world.private_tmp,
        tmp_bytes,
        private_shm: world.private_shm,
        shm_bytes,
        cwd: world.cwd.duplicate(),
        staging: staging_dir(pid),
    };
    assert(plan_from(plan, paths_view(c@), *policy, mode, *world, kinds.map(), pid));
    plan
}

/// The paths the plan for `policy` asks the host about: each granted path
/// and each denial.
pub fn paths_to_examine(policy: &Policy) -> (r: Vec<PathBuf>)
    ensures
        paths_view(r@) == granted_paths(*policy) + paths_view(policy.denied@),
{
    let mut r: Vec<PathBuf> = Vec::new();
    let ghost want = granted_paths(*policy) + paths_view(policy.denied@);
    let ghost nf = policy.filesystem@.len();
    let ghost nd = policy.devices@.len();
    let mut i: usize = 0;
    while i < policy.filesystem.len()
        invariant
            want == granted_paths(*policy) + paths_view(policy.denied@),
            nf == policy.filesystem@.len(),
            i <= nf,
            paths_view(r@) == want.subrange(0, i as int),
        decreases nf - i,
    {
        let ghost prev = r@;
        let x = policy.filesystem[i].path.duplicate();
        r.push(x);
        assert(paths_view(r@) =~= paths_view(prev).push(x@));
        assert(want[i as int] == x@);
        i = i + 1;
        assert(paths_view(r@) =~= want.subrange(0, i as int));
    }
    let mut j: usize = 0;
    while j < policy.devices.len()
        invariant
            want == granted_paths(*policy) + paths_view(policy.denied@),
            nf == policy.filesystem@.len(),
            nd == policy.devices@.len(),
            j <= nd,
            paths_view(r@) == want.subrange(0, nf + j),
        decreases nd - j,
    {
        let ghost prev = r@;
        let x = policy.devices[j].path.duplicate();
        r.push(x);
        assert(paths_view(r@) =~= paths_view(prev).push(x@));
        assert(want[nf + j] == x@);
        j = j + 1;
        assert(paths_view(r@) =~= want.subrange(0, nf + j));
    }
    let mut k: usize = 0;
    while k < policy.denied.len()
        invariant
            want == granted_paths(*policy) + paths_view(policy.denied@),
            nf == policy.filesystem@.len(),
            nd == policy.devices@.len(),
            k <= policy.denied@.len(),
            paths_view(r@) == want.subrange(0, nf + nd + k),
        decreases policy.denied@.len() - k,
    {
        let ghost prev = r@;
        let x = policy.denied[k].duplicate();
        r.push(x);
        assert(paths_view(r@) =~= paths_view(prev).push(x@));
        assert(want[nf + nd + k] == x@);
        k = k + 1;
        assert(paths_view(r@) =~= want.subrange(0, nf + nd + k));
    }
    assert(want.subrange(0, want.len() as int) =~= want);
    r
}

proof fn lemma_binds_are_candidates(c: Seq<PathView>, kinds: Map<PathView, bool>, i: int)
    requires
        0 <= i < bind_walk(c, kinds).0.len(),
    ensures
        c.contains(bind_walk(c, kinds).0[i].0),
        kinds.contains_key(bind_walk(c, kinds).0[i].0),
    decreases c.len(),
{
    let t = c.drop_last();
    let (b, r) = bind_walk(t, kinds);
    let p = c.last();
    if under_any(r, p) || !kinds.contains_key(p) {
        lemma_binds_are_candidates(t, kinds, i);
        vstd::seq_lib::lemma_seq_contains_after_push(t, p, b[i].0);
        assert(t.push(p) =~= c);
    } else if i < b.len() {
        lemma_binds_are_candidates(t, kinds, i);
        vstd::seq_lib::lemma_seq_contains_after_push(t, p, b[i].0);
        assert(t.push(p) =~= c);
    } else {
        assert(c[c.len() - 1] == p);
    }
}

proof fn lemma_concealed_are_denials(denied: Seq<PathView>, binds: Seq<(PathView, bool)>, kinds: Map<PathView, bool>, i: int)
    requires
        0 <= i < conceal_spec(denied, binds, kinds).len(),
    ensures
        denied.contains(conceal_spec(denied, binds, kinds)[i].0),
        under_a_bind(binds, conceal_spec(denied, binds, kinds)[i].0),
    decreases denied.len(),
{
    let t = denied.drop_last();
    let rest = conceal_spec(t, binds, kinds);
    let d = denied.last();
    assert(t.push(d) =~= denied);
    if i < rest.len() {
        lemma_concealed_are_denials(t, binds, kinds, i);
        vstd::seq_lib::lemma_seq_contains_after_push(t, d, rest[i].0);
    } else {
        assert(denied[denied.len() - 1] == d);
    }
}

/// A denied path is never bound into the reconstructed root, nor a path
/// under `/proc`; only granted paths the host has are bound. A path that is
/// covered over is a denial that arrived beneath a bind.
pub proof fn law_denied_paths_are_never_bound(
    plan: IsolationPlan,
    c: Seq<PathView>,
    policy: Policy,
    mode: NetworkMode,
    world: World,
    kinds: Map<PathView, bool>,
    pid: u32,
)
    requires
        plan_from(plan, c, policy, mode, world, kinds, pid),
    ensures
        forall|i: int| 0 <= i < plan.binds@.len() ==> {
            let p = (#[trigger] plan.binds@[i]).source@;
            &&& !denied_by(paths_view(policy.denied@), p)
            &&& !starts_with_spec(p, parse_spec("/proc"@))
            &&& granted_paths(policy).contains(p)
            &&& kinds.contains_key(p)
        },
        forall|i: int| 0 <= i < plan.conceal@.len() ==> {
            let d = (#[trigger] plan.conceal@[i]).path@;
            &&& paths_view(policy.denied@).contains(d)
            &&& under_a_bind(binds_view(plan.binds@), d)
        },
{
    let (binds, _roots) = bind_walk(c, kinds);
    assert forall|i: int| 0 <= i < plan.binds@.len() implies {
        let p = (#[trigger] plan.binds@[i]).source@;
        &&& !denied_by(paths_view(policy.denied@), p)
        &&& !starts_with_spec(p, parse_spec("/proc"@))
        &&& granted_paths(policy).contains(p)
        &&& kinds.contains_key(p)
    } by {
        assert(binds_view(plan.binds@)[i] == binds[i]);
        lemma_binds_are_candidates(c, kinds, i);
        assert(c.to_set().contains(binds[i].0));
        assert(wanted(policy).contains(binds[i].0));
    }
    assert forall|i: int| 0 <= i < plan.conceal@.len() implies {
        let d = (#[trigger] plan.conceal@[i]).path@;
        &&& paths_view(policy.denied@).contains(d)
        &&& under_a_bind(binds_view(plan.binds@), d)
    } by {
        assert(conceal_view(plan.conceal@)[i] == conceal_spec(paths_view(policy.denied@), binds, kinds)[i]);
        lemma_concealed_are_denials(paths_view(policy.denied@), binds, kinds, i);
    }
}

/// Whether what already sits where a link goes may be replaced by the
/// link: another link, or an empty file left as the mountpoint of an earlier
/// run. Anything else is left alone, and the link is not made.
pub fn replaceable_at_link(is_symlink: bool, is_file: bool, len: u64) -> (r: bool)
    ensures
        r == (is_symlink || (is_file && len == 0)),
{
    is_symlink || (is_file && len == 0)
}

} // verus!
