//! Merging config layers into one policy.
//!
//! Layers apply in order, each over what the ones before it left. Filesystem
//! and device grants accumulate, and access on one path is the union of what
//! each layer granted it. A `filesystem.deny` entry retracts a grant of the
//! same path and records a denial; a grant in a later layer lifts a denial
//! from an earlier one; `filesystem.reset` clears grants, denials and
//! read-only paths accumulated so far. One layer may not both grant and deny
//! a path. Scalar settings from a later layer override earlier ones.

use vstd::prelude::*;

use crate::config::{
    expand_value, expand_value_spec, parse_access, parse_access_spec, resolve_path,
    resolve_spec, HostEnv,
};
use crate::hooks::Hooks;
use crate::path::{lemma_path_lt_irreflexive, path_lt, render, PathBuf, PathView};
use crate::pathmap::{has_key, lemma_map_of_index, lists, map_of, PathMap};
use crate::policy::{
    keep, paths_view, no_access, union_spec, Access, DeviceRule, Egress, EgressRule, EgressView, EnvPolicy,
    FsRule, NetworkPolicy, Policy, ResourceLimits,
};
use crate::schema::{RawDevice, RawEnv, RawFs, RawLayer, RawNetwork, RawResources};
use crate::size::{parse_size, parse_size_spec};
use crate::strmap::StrMap;
use crate::text::{chars_of, contains_string, owned, push_str, string_of};

verus! {

/// An error from reading, parsing or merging configuration.
#[derive(Debug)]
pub enum ConfigError {
    /// A config file could not be read.
    Read {
        /// Path that could not be read.
        path: PathBuf,
        /// What the system reported.
        reason: String,
    },
    /// A config file is not a valid config document.
    Parse {
        /// Path that failed to parse.
        path: PathBuf,
        /// What was wrong with it.
        reason: String,
    },
    /// A config file contained an invalid value.
    Invalid {
        /// Path that contained the invalid value.
        path: PathBuf,
        /// Human-readable reason.
        reason: String,
    },
    /// A single layer both granted and denied the same path.
    Conflict {
        /// Path of the offending layer.
        path: PathBuf,
        /// The resource the directives disagree on.
        target: String,
        /// Human-readable reason.
        reason: String,
    },
}

/// A config error as a value.
pub enum ConfigErrorView {
    Read { path: PathView, reason: Seq<char> },
    Parse { path: PathView, reason: Seq<char> },
    Invalid { path: PathView, reason: Seq<char> },
    Conflict { path: PathView, target: Seq<char>, reason: Seq<char> },
}

impl View for ConfigError {
    type V = ConfigErrorView;

    open spec fn view(&self) -> ConfigErrorView {
        match self {
            ConfigError::Read { path, reason } => ConfigErrorView::Read { path: path@, reason: reason@ },
            ConfigError::Parse { path, reason } => ConfigErrorView::Parse { path: path@, reason: reason@ },
            ConfigError::Invalid { path, reason } => ConfigErrorView::Invalid { path: path@, reason: reason@ },
            ConfigError::Conflict { path, target, reason } => ConfigErrorView::Conflict {
                path: path@,
                target: target@,
                reason: reason@,
            },
        }
    }
}

/// The text an error is reported with.
pub open spec fn config_message(e: ConfigErrorView) -> Seq<char> {
    match e {
        ConfigErrorView::Read { path, reason } => "failed to read config `"@ + render(path) + "`: "@ + reason,
        ConfigErrorView::Parse { path, reason } => "failed to parse config `"@ + render(path) + "`: "@ + reason,
        ConfigErrorView::Invalid { path, reason } => "invalid config `"@ + render(path) + "`: "@ + reason,
        ConfigErrorView::Conflict { path, target, reason } => "conflicting directives in `"@ + render(path)
            + "` for `"@ + target + "`: "@ + reason,
    }
}

impl ConfigError {
    /// The text the error is reported with.
    pub fn message(&self) -> (r: String)
        ensures
            r@ == config_message(self@),
    {
        let mut out: Vec<char> = Vec::new();
        match self {
            ConfigError::Read { path, reason } => {
                push_str(&mut out, "failed to read config `");
                push_str(&mut out, path.display().as_str());
                push_str(&mut out, "`: ");
                push_str(&mut out, reason.as_str());
            },
            ConfigError::Parse { path, reason } => {
                push_str(&mut out, "failed to parse config `");
                push_str(&mut out, path.display().as_str());
                push_str(&mut out, "`: ");
                push_str(&mut out, reason.as_str());
            },
            ConfigError::Invalid { path, reason } => {
                push_str(&mut out, "invalid config `");
                push_str(&mut out, path.display().as_str());
                push_str(&mut out, "`: ");
                push_str(&mut out, reason.as_str());
            },
            ConfigError::Conflict { path, target, reason } => {
                push_str(&mut out, "conflicting directives in `");
                push_str(&mut out, path.display().as_str());
                push_str(&mut out, "` for `");
                push_str(&mut out, target.as_str());
                push_str(&mut out, "`: ");
                push_str(&mut out, reason.as_str());
            },
        }
        let r = string_of(&out);
        assert(r@ =~= config_message(self@));
        r
    }
}

/// A parsed config layer, with the path it came from (or a label) and the
/// directory its relative paths resolve against.
pub struct Layer {
    pub path: PathBuf,
    pub base: PathBuf,
    pub raw: RawLayer,
}

/// Everything the layers so far have said, as values.
pub struct AccView {
    pub filesystem: Map<PathView, Access>,
    pub denied: Set<PathView>,
    pub read_only: Set<PathView>,
    pub egress: Option<EgressView>,
    pub bind_ports: Seq<u16>,
    pub devices: Map<PathView, Access>,
    pub resources: ResourceLimits,
    pub pre_launch: Seq<Seq<char>>,
    pub post_exit: Seq<Seq<char>>,
    pub pass: Seq<Seq<char>>,
    pub deny: Seq<Seq<char>>,
    pub set: Map<Seq<char>, Seq<char>>,
    pub home: Option<PathView>,
    /// The layers whose `hooks.on_violation` was ignored.
    pub ignored: Seq<PathView>,
}

/// Nothing said yet.
pub open spec fn acc_empty() -> AccView {
    AccView {
        filesystem: Map::empty(),
        denied: Set::empty(),
        read_only: Set::empty(),
        egress: None,
        bind_ports: seq![],
        devices: Map::empty(),
        resources: ResourceLimits {
            memory_bytes: None,
            pids_max: None,
            cpu_percent: None,
            tmp_bytes: None,
            shm_bytes: None,
        },
        pre_launch: seq![],
        post_exit: seq![],
        pass: seq![],
        deny: seq![],
        set: Map::empty(),
        home: None,
        ignored: seq![],
    }
}

pub open spec fn strs(v: Seq<String>) -> Seq<Seq<char>> {
    v.map_values(|s: String| s@)
}

/// The paths a list of config entries names.
pub open spec fn resolved(raws: Seq<String>, base: PathView, env: HostEnv) -> Seq<PathView> {
    raws.map_values(|r: String| resolve_spec(r@, base, env))
}

/// The access `m` holds for `p`, none if it holds nothing.
pub open spec fn access_in(m: Map<PathView, Access>, p: PathView) -> Access {
    if m.contains_key(p) { m[p] } else { no_access() }
}

/// `s` followed by each element of `t` not already present, in order.
pub open spec fn append_new<T>(s: Seq<T>, t: Seq<T>) -> Seq<T>
    decreases t.len(),
{
    if t.len() == 0 {
        s
    } else {
        let r = append_new(s, t.drop_last());
        if r.contains(t.last()) { r } else { r.push(t.last()) }
    }
}

/// The grants one layer makes: each path named under `read`, `write` or
/// `execute`, with the rights of every list that names it.
pub open spec fn layer_grants(fs: RawFs, base: PathView, env: HostEnv) -> Map<PathView, Access> {
    let r = resolved(fs.read@, base, env);
    let w = resolved(fs.write@, base, env);
    let x = resolved(fs.execute@, base, env);
    Map::new(
        |p: PathView| r.contains(p) || w.contains(p) || x.contains(p),
        |p: PathView| Access { read: r.contains(p), write: w.contains(p), execute: x.contains(p) },
    )
}

/// Whether deny entry `i` names a path the same layer grants.
pub open spec fn is_conflict(fs: RawFs, base: PathView, env: HostEnv, i: int) -> bool {
    0 <= i < fs.deny.len() && layer_grants(fs, base, env).contains_key(resolved(fs.deny@, base, env)[i])
}

pub open spec fn first_conflict(fs: RawFs, base: PathView, env: HostEnv, i: int) -> bool {
    is_conflict(fs, base, env, i) && forall|j: int| 0 <= j < i ==> !is_conflict(fs, base, env, j)
}

pub open spec fn conflict_reason() -> Seq<char> {
    "path is both granted and denied in the same layer"@
}

/// The conflict a layer's filesystem section holds, if any: the first deny
/// entry that names a path the layer grants.
pub open spec fn fs_error(layer: Layer, env: HostEnv) -> Option<ConfigErrorView> {
    let fs = layer.raw.filesystem;
    if exists|i: int| first_conflict(fs, layer.base@, env, i) {
        let i = choose|i: int| first_conflict(fs, layer.base@, env, i);
        Some(ConfigErrorView::Conflict {
            path: layer.path@,
            target: render(resolved(fs.deny@, layer.base@, env)[i]),
            reason: conflict_reason(),
        })
    } else {
        None
    }
}

/// The filesystem state after a layer without a conflict.
pub open spec fn fs_after(acc: AccView, fs: RawFs, base: PathView, env: HostEnv) -> AccView {
    let g = layer_grants(fs, base, env);
    let d = resolved(fs.deny@, base, env);
    let ro = resolved(fs.read_only@, base, env);
    let fs0 = if fs.reset { Map::<PathView, Access>::empty() } else { acc.filesystem };
    let denied0 = if fs.reset { Set::<PathView>::empty() } else { acc.denied };
    let ro0 = if fs.reset { Set::<PathView>::empty() } else { acc.read_only };
    AccView {
        filesystem: Map::new(
            |p: PathView| (fs0.contains_key(p) || g.contains_key(p)) && !d.contains(p),
            |p: PathView| union_spec(access_in(fs0, p), access_in(g, p)),
        ),
        denied: Set::new(|p: PathView| (denied0.contains(p) && !g.contains_key(p)) || d.contains(p)),
        read_only: Set::new(|p: PathView| ro0.contains(p) || ro.contains(p)),
        ..acc
    }
}

pub open spec fn portless(n: RawNetwork, i: int) -> bool {
    0 <= i < n.egress_allow.len() && n.egress_allow@[i].port is None
}

pub open spec fn first_portless(n: RawNetwork, i: int) -> bool {
    portless(n, i) && forall|j: int| 0 <= j < i ==> !portless(n, j)
}

pub open spec fn portless_reason(host: Seq<char>) -> Seq<char> {
    "egress_allow entry for host `"@ + host
        + "` has no port; outbound rules are matched by TCP port, so a port is required"@
}

/// The egress a network section asks for. A destination without a port is
/// refused rather than dropped: rules match on TCP port, so dropping it would
/// turn "allow this destination" into a full deny.
pub open spec fn egress_spec(n: RawNetwork, path: PathView) -> Result<EgressView, ConfigErrorView> {
    if n.egress_allow.len() > 0 {
        if exists|i: int| first_portless(n, i) {
            let i = choose|i: int| first_portless(n, i);
            Err(ConfigErrorView::Invalid { path, reason: portless_reason(n.egress_allow@[i].host@) })
        } else {
            Ok(EgressView::Allow(n.egress_allow@.map_values(|r: crate::schema::RawEgressRule| (r.host@, r.port))))
        }
    } else if n.egress matches Some(e) && e@ == "allow"@ {
        Ok(EgressView::AllowAll)
    } else {
        Ok(EgressView::DenyAll)
    }
}

/// The network state after a layer.
pub open spec fn network_after(acc: AccView, layer: Layer) -> Result<AccView, ConfigErrorView> {
    match layer.raw.network {
        None => Ok(acc),
        Some(n) => {
            let ports = append_new(acc.bind_ports, n.bind_ports@);
            if n.egress.is_some() || n.egress_allow.len() > 0 {
                match egress_spec(n, layer.path@) {
                    Err(e) => Err(e),
                    Ok(eg) => Ok(AccView { egress: Some(eg), bind_ports: ports, ..acc }),
                }
            } else {
                Ok(AccView { bind_ports: ports, ..acc })
            }
        },
    }
}

pub open spec fn bad_device(ds: Seq<RawDevice>, i: int) -> bool {
    0 <= i < ds.len() && parse_access_spec(ds[i].access@) is Err
}

pub open spec fn first_bad_device(ds: Seq<RawDevice>, i: int) -> bool {
    bad_device(ds, i) && forall|j: int| 0 <= j < i ==> !bad_device(ds, j)
}

/// The rights device entry `d` grants.
pub open spec fn device_access(d: RawDevice) -> Access {
    match parse_access_spec(d.access@) {
        Ok(a) => a,
        Err(_) => no_access(),
    }
}

/// Whether device entry `i` names `p`.
pub open spec fn names_device(ds: Seq<RawDevice>, base: PathView, env: HostEnv, i: int, p: PathView) -> bool {
    0 <= i < ds.len() && resolve_spec(ds[i].path@, base, env) == p
}

/// The device grants after a layer whose entries all parse.
pub open spec fn devices_granted(m: Map<PathView, Access>, ds: Seq<RawDevice>, base: PathView, env: HostEnv) -> Map<PathView, Access> {
    Map::new(
        |p: PathView| m.contains_key(p) || exists|i: int| names_device(ds, base, env, i, p),
        |p: PathView| Access {
            read: access_in(m, p).read || exists|i: int| names_device(ds, base, env, i, p) && device_access(ds[i]).read,
            write: access_in(m, p).write || exists|i: int| names_device(ds, base, env, i, p) && device_access(ds[i]).write,
            execute: access_in(m, p).execute || exists|i: int| names_device(ds, base, env, i, p) && device_access(ds[i]).execute,
        },
    )
}

/// The device state after a layer.
pub open spec fn devices_after(acc: AccView, layer: Layer, env: HostEnv) -> Result<AccView, ConfigErrorView> {
    let ds = layer.raw.device@;
    if exists|i: int| first_bad_device(ds, i) {
        let i = choose|i: int| first_bad_device(ds, i);
        Err(ConfigErrorView::Invalid { path: layer.path@, reason: parse_access_spec(ds[i].access@)->Err_0 })
    } else {
        Ok(AccView { devices: devices_granted(acc.devices, ds, layer.base@, env), ..acc })
    }
}

/// A size setting after a layer: unchanged, the new byte count, or why the
/// text is not a size.
pub open spec fn size_setting(old: Option<u64>, text: Option<String>) -> Result<Option<u64>, Seq<char>> {
    match text {
        None => Ok(old),
        Some(t) => match parse_size_spec(t@) {
            Ok(n) => Ok(Some(n)),
            Err(e) => Err(e),
        },
    }
}

/// The resource limits after a layer's resources section.
pub open spec fn limits_after(old: ResourceLimits, r: RawResources) -> Result<ResourceLimits, Seq<char>> {
    match size_setting(old.memory_bytes, r.memory) {
        Err(e) => Err(e),
        Ok(memory) => match size_setting(old.tmp_bytes, r.tmp_size) {
            Err(e) => Err(e),
            Ok(tmp) => match size_setting(old.shm_bytes, r.shm_size) {
                Err(e) => Err(e),
                Ok(shm) => Ok(ResourceLimits {
                    memory_bytes: memory,
                    pids_max: if r.pids_max.is_some() { r.pids_max } else { old.pids_max },
                    cpu_percent: if r.cpu_percent.is_some() { r.cpu_percent } else { old.cpu_percent },
                    tmp_bytes: tmp,
                    shm_bytes: shm,
                }),
            },
        },
    }
}

pub open spec fn resources_after(acc: AccView, layer: Layer) -> Result<AccView, ConfigErrorView> {
    match layer.raw.resources {
        None => Ok(acc),
        Some(r) => match limits_after(acc.resources, r) {
            Err(reason) => Err(ConfigErrorView::Invalid { path: layer.path@, reason }),
            Ok(limits) => Ok(AccView { resources: limits, ..acc }),
        },
    }
}

/// `m` with each pair of `pairs` set in turn, its value expanded.
pub open spec fn set_all(m: Map<Seq<char>, Seq<char>>, pairs: Seq<(String, String)>, env: HostEnv) -> Map<Seq<char>, Seq<char>>
    decreases pairs.len(),
{
    if pairs.len() == 0 {
        m
    } else {
        set_all(m, pairs.drop_last(), env).insert(pairs.last().0@, expand_value_spec(pairs.last().1@, env))
    }
}

/// The environment policy after a layer's env section.
pub open spec fn env_after(acc: AccView, e: RawEnv, env: HostEnv) -> AccView {
    let pass0 = if e.reset { Seq::<Seq<char>>::empty() } else { acc.pass };
    let deny0 = if e.reset { Seq::<Seq<char>>::empty() } else { acc.deny };
    let set0 = if e.reset { Map::<Seq<char>, Seq<char>>::empty() } else { acc.set };
    let dn = strs(e.deny@);
    let set1 = set_all(set0, e.set@, env);
    AccView {
        pass: keep(append_new(pass0, strs(e.pass@)), |p: Seq<char>| !dn.contains(p)),
        deny: append_new(deny0, dn),
        set: Map::new(|k: Seq<char>| set1.contains_key(k) && !dn.contains(k), |k: Seq<char>| set1[k]),
        ..acc
    }
}

/// Home and hooks after a layer.
pub open spec fn rest_after(acc: AccView, layer: Layer, env: HostEnv) -> AccView {
    let a1 = match layer.raw.env {
        None => acc,
        Some(e) => env_after(acc, e, env),
    };
    let a2 = match layer.raw.home {
        None => a1,
        Some(h) => AccView { home: Some(resolve_spec(h@, layer.base@, env)), ..a1 },
    };
    match layer.raw.hooks {
        None => a2,
        Some(h) => AccView {
            pre_launch: a2.pre_launch + strs(h.pre_launch@),
            post_exit: a2.post_exit + strs(h.post_exit@),
            ignored: if h.on_violation.len() > 0 { a2.ignored.push(layer.path@) } else { a2.ignored },
            ..a2
        },
    }
}

/// What applying a layer over `acc` yields.
pub open spec fn apply_spec(acc: AccView, layer: Layer, env: HostEnv) -> Result<AccView, ConfigErrorView> {
    match fs_error(layer, env) {
        Some(e) => Err(e),
        None => {
            let a1 = fs_after(acc, layer.raw.filesystem, layer.base@, env);
            match network_after(a1, layer) {
                Err(e) => Err(e),
                Ok(a2) => match devices_after(a2, layer, env) {
                    Err(e) => Err(e),
                    Ok(a3) => match resources_after(a3, layer) {
                        Err(e) => Err(e),
                        Ok(a4) => Ok(rest_after(a4, layer, env)),
                    },
                },
            }
        },
    }
}

/// Whether applying a layer fails, and with which error, does not depend
/// on what the layers before it said.
pub proof fn lemma_apply_error_independent(a: AccView, b: AccView, layer: Layer, env: HostEnv)
    ensures
        (apply_spec(a, layer, env) is Err) == (apply_spec(b, layer, env) is Err),
        apply_spec(a, layer, env) is Err ==> apply_spec(a, layer, env) == apply_spec(b, layer, env),
{
    let a1 = fs_after(a, layer.raw.filesystem, layer.base@, env);
    let b1 = fs_after(b, layer.raw.filesystem, layer.base@, env);
    match (network_after(a1, layer), network_after(b1, layer)) {
        (Ok(a2), Ok(b2)) => {
            match (devices_after(a2, layer, env), devices_after(b2, layer, env)) {
                (Ok(a3), Ok(b3)) => {
                    match layer.raw.resources {
                        Some(r) => {
                            lemma_limits_error_independent(a3.resources, b3.resources, r);
                        },
                        None => {},
                    }
                },
                _ => {},
            }
        },
        _ => {},
    }
}

proof fn lemma_limits_error_independent(x: ResourceLimits, y: ResourceLimits, r: RawResources)
    ensures
        (limits_after(x, r) is Err) == (limits_after(y, r) is Err),
        limits_after(x, r) is Err ==> limits_after(x, r) == limits_after(y, r),
{
}

/// What applying `layers` in order over `acc` yields.
pub open spec fn merge_spec(acc: AccView, layers: Seq<Layer>, env: HostEnv) -> Result<AccView, ConfigErrorView>
    decreases layers.len(),
{
    if layers.len() == 0 {
        Ok(acc)
    } else {
        match merge_spec(acc, layers.drop_last(), env) {
            Err(e) => Err(e),
            Ok(a) => apply_spec(a, layers.last(), env),
        }
    }
}

/// The paths `raws` name, resolved against `base`.
fn resolve_all(raws: &Vec<String>, base: &PathBuf, env: &HostEnv) -> (r: Vec<PathBuf>)
    ensures
        paths_view(r@) == resolved(raws@, base@, *env),
{
    let mut r: Vec<PathBuf> = Vec::new();
    let mut i: usize = 0;
    while i < raws.len()
        invariant
            i <= raws.len(),
            r@.len() == i,
            forall|j: int| 0 <= j < i ==> #[trigger] r@[j]@ == resolve_spec(raws@[j]@, base@, *env),
        decreases raws.len() - i,
    {
        let p = resolve_path(&raws[i], base, env);
        r.push(p);
        i = i + 1;
    }
    assert(paths_view(r@) =~= resolved(raws@, base@, *env));
    r
}

/// Whether `v` holds `p`.
fn holds_path(v: &Vec<PathBuf>, p: &PathBuf) -> (r: bool)
    ensures
        r == paths_view(v@).contains(p@),
{
    let mut i: usize = 0;
    while i < v.len()
        invariant
            i <= v.len(),
            forall|j: int| 0 <= j < i ==> v@[j]@ != p@,
        decreases v.len() - i,
    {
        if v[i].same(p) {
            assert(paths_view(v@)[i as int] == p@);
            return true;
        }
        i = i + 1;
    }
    assert(!paths_view(v@).contains(p@)) by {
        if paths_view(v@).contains(p@) {
            let j = choose|j: int| 0 <= j < paths_view(v@).len() && paths_view(v@)[j] == p@;
            assert(v@[j]@ == p@);
        }
    }
    false
}

/// The grant map of one layer: every path of `r`, `w` and `x`, with the
/// rights of each list that holds it.
fn grants_of(r: &Vec<PathBuf>, w: &Vec<PathBuf>, x: &Vec<PathBuf>) -> (g: PathMap<Access>)
    ensures
        g.wf(),
        g.map() == Map::new(
            |p: PathView| paths_view(r@).contains(p) || paths_view(w@).contains(p) || paths_view(x@).contains(p),
            |p: PathView| Access {
                read: paths_view(r@).contains(p),
                write: paths_view(w@).contains(p),
                execute: paths_view(x@).contains(p),
            },
        ),
{
    let ghost rv = paths_view(r@);
    let ghost wv = paths_view(w@);
    let ghost xv = paths_view(x@);
    let ghost full = |p: PathView| Access { read: rv.contains(p), write: wv.contains(p), execute: xv.contains(p) };
    let mut g: PathMap<Access> = PathMap::new();
    let mut k: usize = 0;
    while k < 3
        invariant
            k <= 3,
            g.wf(),
            rv == paths_view(r@),
            wv == paths_view(w@),
            xv == paths_view(x@),
            full == (|p: PathView| Access { read: rv.contains(p), write: wv.contains(p), execute: xv.contains(p) }),
            g.map() == Map::new(
                |p: PathView| (k > 0 && rv.contains(p)) || (k > 1 && wv.contains(p)) || (k > 2 && xv.contains(p)),
                full,
            ),
        decreases 3 - k,
    {
        let list = if k == 0 { r } else if k == 1 { w } else { x };
        let ghost lv = paths_view(list@);
        let ghost before = g.map();
        let mut i: usize = 0;
        while i < list.len()
            invariant
                i <= list.len(),
                g.wf(),
                lv == paths_view(list@),
                rv == paths_view(r@),
                wv == paths_view(w@),
                xv == paths_view(x@),
                full == (|p: PathView| Access { read: rv.contains(p), write: wv.contains(p), execute: xv.contains(p) }),
                g.map() == Map::new(
                    |p: PathView| before.contains_key(p) || lv.subrange(0, i as int).contains(p),
                    full,
                ),
                forall|p: PathView| #[trigger] before.contains_key(p) ==> before[p] == full(p),
            decreases list.len() - i,
        {
            let p = &list[i];
            let a = Access { read: holds_path(r, p), write: holds_path(w, p), execute: holds_path(x, p) };
            g.insert(p.duplicate(), a);
            i = i + 1;
            proof {
                let now = lv.subrange(0, i as int);
                let was = lv.subrange(0, i - 1);
                assert(now =~= was.push(p@));
                assert forall|q: PathView| now.contains(q) <==> (was.contains(q) || q == p@) by {
                    if now.contains(q) {
                        let j = choose|j: int| 0 <= j < now.len() && now[j] == q;
                        if j < was.len() {
                            assert(was[j] == q);
                        }
                    }
                    if was.contains(q) {
                        let j = choose|j: int| 0 <= j < was.len() && was[j] == q;
                        assert(now[j] == q);
                    }
                    if q == p@ {
                        assert(now[i - 1] == q);
                    }
                }
                assert(a == full(p@));
                assert(g.map() =~= Map::new(
                    |q: PathView| before.contains_key(q) || lv.subrange(0, i as int).contains(q),
                    full,
                ));
            }
        }
        assert(lv.subrange(0, list.len() as int) =~= lv);
        k = k + 1;
        assert(g.map() =~= Map::new(
            |p: PathView| (k > 0 && rv.contains(p)) || (k > 1 && wv.contains(p)) || (k > 2 && xv.contains(p)),
            full,
        ));
    }
    g
}

/// Whether `s` lists the members of `set` in strictly increasing path order.
pub open spec fn lists_set(s: Seq<PathView>, set: Set<PathView>) -> bool {
    &&& forall|i: int, j: int| 0 <= i < j < s.len() ==> path_lt(#[trigger] s[i], #[trigger] s[j])
    &&& forall|p: PathView| s.contains(p) <==> set.contains(p)
}

pub open spec fn fs_rules_view(rules: Seq<FsRule>) -> Seq<(PathView, Access)> {
    rules.map_values(|r: FsRule| (r.path@, r.access))
}

pub open spec fn device_rules_view(rules: Seq<DeviceRule>) -> Seq<(PathView, Access)> {
    rules.map_values(|r: DeviceRule| (r.path@, r.access))
}

/// Whether `r` is the resolved configuration `a` describes: grants, denials,
/// read-only paths and devices listed in path order, egress denied unless a
/// layer said otherwise, and everything else as accumulated.
pub open spec fn resolved_from(r: Resolved, a: AccView) -> bool {
    let p = r.policy;
    &&& lists(fs_rules_view(p.filesystem@), a.filesystem)
    &&& forall|i: int| 0 <= i < p.filesystem@.len() ==> (#[trigger] p.filesystem@[i]).at is None
    &&& lists_set(paths_view(p.denied@), a.denied)
    &&& lists_set(paths_view(p.read_only@), a.read_only)
    &&& lists(device_rules_view(p.devices@), a.devices)
    &&& p.network.egress@ == (match a.egress {
        Some(e) => e,
        None => EgressView::DenyAll,
    })
    &&& p.network.bind_ports@ == a.bind_ports
    &&& p.resources == a.resources
    &&& p.env.wf()
    &&& strs(p.env.pass@) == a.pass
    &&& strs(p.env.deny@) == a.deny
    &&& values_view(p.env.set.map()) == a.set
    &&& opt_path_view(p.home) == a.home
    &&& strs(r.hooks.pre_launch@) == a.pre_launch
    &&& strs(r.hooks.post_exit@) == a.post_exit
    &&& r.hooks.on_violation@.len() == 0
    &&& paths_view(r.ignored_hooks@) == a.ignored
}

/// The resolved policy lists its grants, denials and devices each in
/// strictly ascending path order, every grant with the rights the layers
/// accumulated for its path and every accumulated grant listed; egress is
/// denied unless a layer set it; bound ports and hooks are as accumulated.
pub proof fn law_resolved_policy_is_ordered(r: Resolved, a: AccView)
    requires
        resolved_from(r, a),
    ensures
        forall|i: int, j: int| 0 <= i < j < r.policy.filesystem@.len()
            ==> path_lt(#[trigger] r.policy.filesystem@[i].path@, #[trigger] r.policy.filesystem@[j].path@),
        forall|i: int| 0 <= i < r.policy.filesystem@.len()
            ==> a.filesystem.contains_key(#[trigger] r.policy.filesystem@[i].path@)
                && a.filesystem[r.policy.filesystem@[i].path@] == r.policy.filesystem@[i].access,
        forall|p: PathView| a.filesystem.contains_key(p)
            ==> exists|i: int| 0 <= i < r.policy.filesystem@.len() && #[trigger] r.policy.filesystem@[i].path@ == p,
        forall|i: int, j: int| 0 <= i < j < r.policy.denied@.len()
            ==> path_lt(#[trigger] r.policy.denied@[i]@, #[trigger] r.policy.denied@[j]@),
        forall|i: int, j: int| 0 <= i < j < r.policy.devices@.len()
            ==> path_lt(#[trigger] r.policy.devices@[i].path@, #[trigger] r.policy.devices@[j].path@),
        r.policy.network.egress@ == (match a.egress {
            Some(e) => e,
            None => EgressView::DenyAll,
        }),
        r.policy.network.bind_ports@ == a.bind_ports,
        strs(r.hooks.pre_launch@) == a.pre_launch,
        strs(r.hooks.post_exit@) == a.post_exit,
{
    let fv = fs_rules_view(r.policy.filesystem@);
    assert forall|i: int, j: int| 0 <= i < j < r.policy.filesystem@.len()
        implies path_lt(#[trigger] r.policy.filesystem@[i].path@, #[trigger] r.policy.filesystem@[j].path@) by {
        assert(fv[i].0 == r.policy.filesystem@[i].path@ && fv[j].0 == r.policy.filesystem@[j].path@);
    }
    assert forall|i: int| 0 <= i < r.policy.filesystem@.len()
        implies a.filesystem.contains_key(#[trigger] r.policy.filesystem@[i].path@)
            && a.filesystem[r.policy.filesystem@[i].path@] == r.policy.filesystem@[i].access by {
        lemma_map_of_index(fv, i);
        assert(fv[i] == (r.policy.filesystem@[i].path@, r.policy.filesystem@[i].access));
    }
    assert forall|p: PathView| a.filesystem.contains_key(p)
        implies exists|i: int| 0 <= i < r.policy.filesystem@.len() && #[trigger] r.policy.filesystem@[i].path@ == p by {
        assert(map_of(fv).contains_key(p));
        let i = choose|i: int| 0 <= i < fv.len() && #[trigger] fv[i].0 == p;
        assert(r.policy.filesystem@[i].path@ == p);
    }
    let pv = paths_view(r.policy.denied@);
    assert forall|i: int, j: int| 0 <= i < j < r.policy.denied@.len()
        implies path_lt(#[trigger] r.policy.denied@[i]@, #[trigger] r.policy.denied@[j]@) by {
        assert(pv[i] == r.policy.denied@[i]@ && pv[j] == r.policy.denied@[j]@);
    }
    let dv = device_rules_view(r.policy.devices@);
    assert forall|i: int, j: int| 0 <= i < j < r.policy.devices@.len()
        implies path_lt(#[trigger] r.policy.devices@[i].path@, #[trigger] r.policy.devices@[j].path@) by {
        assert(dv[i].0 == r.policy.devices@[i].path@ && dv[j].0 == r.policy.devices@[j].path@);
    }
}

/// A resolved policy together with its lifecycle hooks.
#[derive(Debug)]
pub struct Resolved {
    /// The merged, deny-by-default policy.
    pub policy: Policy,
    /// The merged lifecycle hooks.
    pub hooks: Hooks,
    /// The layers whose `hooks.on_violation` was ignored, in order. That hook
    /// can never fire, because Landlock denies silently; the caller warns
    /// about each of these.
    pub ignored_hooks: Vec<PathBuf>,
}

pub open spec fn ignored_hook_text(layer: PathView) -> Seq<char> {
    "bailey: warning: `hooks.on_violation` in "@ + render(layer)
        + " is ignored; it was removed because Landlock denies silently and no signal reaches bailey to trigger it. Use `bailey audit` to see what a program wanted."@
}

impl Resolved {
    /// The warning for each layer whose `hooks.on_violation` was ignored, in
    /// layer order.
    pub fn ignored_hook_warnings(&self) -> (r: Vec<String>)
        ensures
            strs(r@) == paths_view(self.ignored_hooks@).map_values(|p: PathView| ignored_hook_text(p)),
    {
        let mut r: Vec<String> = Vec::new();
        let mut i: usize = 0;
        while i < self.ignored_hooks.len()
            invariant
                i <= self.ignored_hooks@.len(),
                strs(r@) == paths_view(self.ignored_hooks@).subrange(0, i as int).map_values(|p: PathView| ignored_hook_text(p)),
            decreases self.ignored_hooks@.len() - i,
        {
            let mut out: Vec<char> = Vec::new();
            crate::text::push_str(&mut out, "bailey: warning: `hooks.on_violation` in ");
            crate::text::push_str(&mut out, self.ignored_hooks[i].display().as_str());
            crate::text::push_str(
                &mut out,
                " is ignored; it was removed because Landlock denies silently and no signal reaches bailey to trigger it. Use `bailey audit` to see what a program wanted.",
            );
            let ghost before = strs(r@);
            let line = crate::text::string_of(&out);
            r.push(line);
            assert(strs(r@) =~= before.push(line@));
            assert(paths_view(self.ignored_hooks@).subrange(0, i + 1).map_values(|p: PathView| ignored_hook_text(p))
                =~= paths_view(self.ignored_hooks@).subrange(0, i as int).map_values(|p: PathView| ignored_hook_text(p)).push(
                ignored_hook_text(self.ignored_hooks@[i as int]@),
            ));
            i = i + 1;
        }
        assert(paths_view(self.ignored_hooks@).subrange(0, i as int) =~= paths_view(self.ignored_hooks@));
        r
    }
}

/// The keys of a path set, in order.
fn set_listing(m: &PathMap<()>) -> (r: Vec<PathBuf>)
    requires
        m.wf(),
    ensures
        lists_set(paths_view(r@), m.map().dom()),
{
    proof {
        m.lemma_wf();
    }
    let r = m.keys();
    let ghost s = m.seq();
    assert forall|p: PathView| paths_view(r@).contains(p) <==> m.map().dom().contains(p) by {
        if paths_view(r@).contains(p) {
            let i = choose|i: int| 0 <= i < paths_view(r@).len() && paths_view(r@)[i] == p;
            assert(r@[i]@ == s[i].0);
            assert(has_key(s, p));
        }
        if m.map().dom().contains(p) {
            assert(has_key(s, p));
            let i = choose|i: int| 0 <= i < s.len() && #[trigger] s[i].0 == p;
            assert(paths_view(r@)[i] == p);
        }
    }
    assert forall|i: int, j: int| 0 <= i < j < paths_view(r@).len() implies path_lt(#[trigger] paths_view(r@)[i], #[trigger] paths_view(r@)[j]) by {
        assert(r@[i]@ == s[i].0 && r@[j]@ == s[j].0);
    }
    r
}

/// Whether `s` is the text `lit`.
fn is_text(s: &String, lit: &str) -> (r: bool)
    ensures
        r == (s@ == lit@),
{
    *s == owned(lit)
}

/// The egress a network section asks for.
fn build_egress(n: &RawNetwork, path: &PathBuf) -> (r: Result<Egress, ConfigError>)
    ensures
        match r {
            Ok(e) => egress_spec(*n, path@) == Ok::<EgressView, ConfigErrorView>(e@),
            Err(e) => egress_spec(*n, path@) == Err::<EgressView, ConfigErrorView>(e@),
        },
{
    if n.egress_allow.len() > 0 {
        let mut rules: Vec<EgressRule> = Vec::new();
        let mut i: usize = 0;
        while i < n.egress_allow.len()
            invariant
                i <= n.egress_allow.len(),
                rules@.len() == i,
                forall|j: int| 0 <= j < i ==> !portless(*n, j),
                forall|j: int| 0 <= j < i ==> (#[trigger] rules@[j]).host@ == n.egress_allow@[j].host@
                    && rules@[j].port == n.egress_allow@[j].port,
            decreases n.egress_allow.len() - i,
        {
            let rule = &n.egress_allow[i];
            match rule.port {
                None => {
                    proof {
                        assert(first_portless(*n, i as int));
                        let c = choose|c: int| first_portless(*n, c);
                        if c < i {
                            assert(!portless(*n, c));
                        } else if c > i {
                            assert(!portless(*n, i as int));
                        }
                    }
                    let mut out = chars_of("egress_allow entry for host `");
                    push_str(&mut out, rule.host.as_str());
                    push_str(&mut out, "` has no port; outbound rules are matched by TCP port, so a port is required");
                    let reason = string_of(&out);
                    assert(reason@ =~= portless_reason(rule.host@));
                    return Err(ConfigError::Invalid { path: path.duplicate(), reason });
                },
                Some(port) => {
                    rules.push(EgressRule { host: rule.host.clone(), port: Some(port) });
                },
            }
            i = i + 1;
        }
        assert(!exists|c: int| first_portless(*n, c));
        let e = Egress::Allow(rules);
        assert(crate::policy::rules_view(rules@) =~= n.egress_allow@.map_values(
            |r: crate::schema::RawEgressRule| (r.host@, r.port),
        ));
        Ok(e)
    } else {
        match &n.egress {
            Some(e) => {
                if is_text(e, "allow") {
                    Ok(Egress::AllowAll)
                } else {
                    Ok(Egress::DenyAll)
                }
            },
            None => Ok(Egress::DenyAll),
        }
    }
}

/// `v` followed by each element of `t` not already present, in order.
fn append_new_ports(v: &mut Vec<u16>, t: &Vec<u16>)
    ensures
        final(v)@ == append_new(old(v)@, t@),
{
    let ghost v0 = v@;
    let mut i: usize = 0;
    while i < t.len()
        invariant
            i <= t.len(),
            v@ == append_new(v0, t@.subrange(0, i as int)),
        decreases t.len() - i,
    {
        let x = t[i];
        let ghost pre = t@.subrange(0, i + 1);
        assert(pre.drop_last() =~= t@.subrange(0, i as int));
        let mut found = false;
        let mut j: usize = 0;
        while j < v.len()
            invariant
                j <= v.len(),
                found == exists|k: int| 0 <= k < j && v@[k] == x,
            decreases v.len() - j,
        {
            if v[j] == x {
                found = true;
            }
            j = j + 1;
        }
        if !found {
            v.push(x);
        }
        i = i + 1;
    }
    assert(t@.subrange(0, t.len() as int) =~= t@);
}

/// `v` followed by each string of `t` whose text is not already present.
fn append_new_strings(v: &mut Vec<String>, t: &Vec<String>)
    ensures
        strs(final(v)@) == append_new(strs(old(v)@), strs(t@)),
{
    let ghost v0 = strs(v@);
    let mut i: usize = 0;
    while i < t.len()
        invariant
            i <= t.len(),
            strs(v@) == append_new(v0, strs(t@.subrange(0, i as int))),
        decreases t.len() - i,
    {
        let ghost pre = strs(t@.subrange(0, i + 1));
        assert(pre.drop_last() =~= strs(t@.subrange(0, i as int)));
        assert(pre.last() == t@[i as int]@);
        let found = contains_string(v, &t[i]);
        assert(found == strs(v@).contains(t@[i as int]@)) by {
            if found {
                let k = choose|k: int| 0 <= k < v.len() && #[trigger] v@[k]@ == t@[i as int]@;
                assert(strs(v@)[k] == t@[i as int]@);
            }
            if strs(v@).contains(t@[i as int]@) {
                let k = choose|k: int| 0 <= k < strs(v@).len() && strs(v@)[k] == t@[i as int]@;
                assert(v@[k]@ == t@[i as int]@);
            }
        }
        let ghost before = strs(v@);
        if !found {
            v.push(t[i].clone());
            assert(strs(v@) =~= before.push(t@[i as int]@));
        }
        i = i + 1;
    }
    assert(t@.subrange(0, t.len() as int) =~= t@);
}

/// A size setting after a layer.
fn size_setting_of(old: Option<u64>, text: &Option<String>) -> (r: Result<Option<u64>, String>)
    ensures
        match r {
            Ok(v) => size_setting(old, *text) == Ok::<Option<u64>, Seq<char>>(v),
            Err(e) => size_setting(old, *text) == Err::<Option<u64>, Seq<char>>(e@),
        },
{
    match text {
        None => Ok(old),
        Some(t) => match parse_size(t) {
            Ok(n) => Ok(Some(n)),
            Err(e) => Err(e),
        },
    }
}

/// The resource limits after a layer's resources section.
fn limits_of(old: &ResourceLimits, r: &RawResources) -> (out: Result<ResourceLimits, String>)
    ensures
        match out {
            Ok(l) => limits_after(*old, *r) == Ok::<ResourceLimits, Seq<char>>(l),
            Err(e) => limits_after(*old, *r) == Err::<ResourceLimits, Seq<char>>(e@),
        },
{
    let memory = size_setting_of(old.memory_bytes, &r.memory)?;
    let tmp = size_setting_of(old.tmp_bytes, &r.tmp_size)?;
    let shm = size_setting_of(old.shm_bytes, &r.shm_size)?;
    Ok(ResourceLimits {
        memory_bytes: memory,
        pids_max: if r.pids_max.is_some() { r.pids_max } else { old.pids_max },
        cpu_percent: if r.cpu_percent.is_some() { r.cpu_percent } else { old.cpu_percent },
        tmp_bytes: tmp,
        shm_bytes: shm,
    })
}

/// `v` without the strings whose text `names` holds.
fn without_names(v: &Vec<String>, names: &Vec<String>) -> (r: Vec<String>)
    ensures
        strs(r@) == keep(strs(v@), |p: Seq<char>| !strs(names@).contains(p)),
{
    let ghost pred = |p: Seq<char>| !strs(names@).contains(p);
    let mut r: Vec<String> = Vec::new();
    let mut i: usize = 0;
    while i < v.len()
        invariant
            i <= v.len(),
            pred == (|p: Seq<char>| !strs(names@).contains(p)),
            strs(r@) == keep(strs(v@).subrange(0, i as int), pred),
        decreases v.len() - i,
    {
        let ghost s = strs(v@).subrange(0, i + 1);
        assert(s.drop_last() =~= strs(v@).subrange(0, i as int));
        assert(s.last() == v@[i as int]@);
        let hit = contains_string(names, &v[i]);
        assert(hit == strs(names@).contains(v@[i as int]@)) by {
            if hit {
                let k = choose|k: int| 0 <= k < names.len() && #[trigger] names@[k]@ == v@[i as int]@;
                assert(strs(names@)[k] == v@[i as int]@);
            }
            if strs(names@).contains(v@[i as int]@) {
                let k = choose|k: int| 0 <= k < strs(names@).len() && strs(names@)[k] == v@[i as int]@;
                assert(names@[k]@ == v@[i as int]@);
            }
        }
        let ghost before = strs(r@);
        if !hit {
            r.push(v[i].clone());
            assert(strs(r@) =~= before.push(v@[i as int]@));
        }
        i = i + 1;
    }
    assert(strs(v@).subrange(0, v.len() as int) =~= strs(v@));
    r
}

/// `v` followed by copies of `t`.
fn extend_strings(v: &mut Vec<String>, t: &Vec<String>)
    ensures
        strs(final(v)@) == strs(old(v)@) + strs(t@),
{
    let ghost v0 = strs(v@);
    let mut i: usize = 0;
    while i < t.len()
        invariant
            i <= t.len(),
            strs(v@) == v0 + strs(t@.subrange(0, i as int)),
        decreases t.len() - i,
    {
        let ghost before = strs(v@);
        v.push(t[i].clone());
        assert(strs(v@) =~= before.push(t@[i as int]@));
        assert(strs(t@.subrange(0, i + 1)) =~= strs(t@.subrange(0, i as int)).push(t@[i as int]@));
        i = i + 1;
        assert(strs(v@) =~= v0 + strs(t@.subrange(0, i as int)));
    }
    assert(t@.subrange(0, t.len() as int) =~= t@);
}

pub open spec fn opt_egress_view(e: Option<Egress>) -> Option<EgressView> {
    match e {
        Some(e) => Some(e@),
        None => None,
    }
}

pub open spec fn opt_path_view(p: Option<PathBuf>) -> Option<PathView> {
    match p {
        Some(p) => Some(p@),
        None => None,
    }
}

pub open spec fn values_view(m: Map<Seq<char>, String>) -> Map<Seq<char>, Seq<char>> {
    m.map_values(|v: String| v@)
}

/// What the layers applied so far have said.
pub struct Accumulator {
    filesystem: PathMap<Access>,
    denied: PathMap<()>,
    read_only: PathMap<()>,
    egress: Option<Egress>,
    bind_ports: Vec<u16>,
    devices: PathMap<Access>,
    resources: ResourceLimits,
    hooks: Hooks,
    env: EnvPolicy,
    home: Option<PathBuf>,
    ignored: Vec<PathBuf>,
}

impl Accumulator {
    pub closed spec fn view(&self) -> AccView {
        AccView {
            filesystem: self.filesystem.map(),
            denied: self.denied.map().dom(),
            read_only: self.read_only.map().dom(),
            egress: opt_egress_view(self.egress),
            bind_ports: self.bind_ports@,
            devices: self.devices.map(),
            resources: self.resources,
            pre_launch: strs(self.hooks.pre_launch@),
            post_exit: strs(self.hooks.post_exit@),
            pass: strs(self.env.pass@),
            deny: strs(self.env.deny@),
            set: values_view(self.env.set.map()),
            home: opt_path_view(self.home),
            ignored: paths_view(self.ignored@),
        }
    }

    pub closed spec fn wf(&self) -> bool {
        &&& self.filesystem.wf()
        &&& self.denied.wf()
        &&& self.read_only.wf()
        &&& self.devices.wf()
        &&& self.env.wf()
    }

    /// Nothing said yet.
    pub fn new() -> (r: Accumulator)
        ensures
            r.wf(),
            r.view() == acc_empty(),
    {
        let r = Accumulator {
            filesystem: PathMap::new(),
            denied: PathMap::new(),
            read_only: PathMap::new(),
            egress: None,
            bind_ports: Vec::new(),
            devices: PathMap::new(),
            resources: ResourceLimits::none(),
            hooks: Hooks::none(),
            env: EnvPolicy::empty(),
            home: None,
            ignored: Vec::new(),
        };
        assert(r.view().denied =~= Set::<PathView>::empty());
        assert(r.view().read_only =~= Set::<PathView>::empty());
        assert(r.view().pre_launch =~= Seq::<Seq<char>>::empty());
        assert(r.view().post_exit =~= Seq::<Seq<char>>::empty());
        assert(r.view().pass =~= Seq::<Seq<char>>::empty());
        assert(r.view().deny =~= Seq::<Seq<char>>::empty());
        assert(r.view().set =~= Map::<Seq<char>, Seq<char>>::empty());
        assert(r.view().ignored =~= Seq::<PathView>::empty());
        r
    }

    /// Folds one layer's grant map into the grants, lifting denials of the
    /// paths it grants.
    fn take_grants(&mut self, g: &PathMap<Access>)
        requires
            old(self).wf(),
            g.wf(),
        ensures
            final(self).wf(),
            final(self).view() == (AccView {
                filesystem: Map::new(
                    |p: PathView| old(self).view().filesystem.contains_key(p) || g.map().contains_key(p),
                    |p: PathView| union_spec(access_in(old(self).view().filesystem, p), access_in(g.map(), p)),
                ),
                denied: Set::new(|p: PathView| old(self).view().denied.contains(p) && !g.map().contains_key(p)),
                ..old(self).view()
            }),
    {
        let ghost fs0 = self.filesystem.map();
        let ghost d0 = self.denied.map().dom();
        let ghost gs = g.seq();
        proof {
            g.lemma_wf();
            let none = gs.subrange(0, 0);
            assert(forall|p: PathView| !has_key(none, p));
            assert(self.view().filesystem =~= Map::new(
                |p: PathView| fs0.contains_key(p) || has_key(none, p),
                |p: PathView| union_spec(access_in(fs0, p), if has_key(none, p) { g.map()[p] } else { no_access() }),
            ));
            assert(self.view().denied =~= Set::new(|p: PathView| d0.contains(p) && !has_key(none, p)));
        }
        let mut i: usize = 0;
        while i < g.len()
            invariant
                i <= gs.len(),
                g.wf(),
                gs == g.seq(),
                lists(gs, g.map()),
                self.wf(),
                self.view() == (AccView {
                    filesystem: Map::new(
                        |p: PathView| fs0.contains_key(p) || has_key(gs.subrange(0, i as int), p),
                        |p: PathView| union_spec(access_in(fs0, p), if has_key(gs.subrange(0, i as int), p) { g.map()[p] } else { no_access() }),
                    ),
                    denied: Set::new(|p: PathView| d0.contains(p) && !has_key(gs.subrange(0, i as int), p)),
                    ..old(self).view()
                }),
            decreases gs.len() - i,
        {
            let k = g.key_at(i);
            let v = *g.value_at(i);
            proof {
                lemma_map_of_index(gs, i as int);
            }
            self.denied.remove(k);
            let cur = match self.filesystem.get(k) {
                Some(a) => *a,
                None => Access::empty(),
            };
            self.filesystem.insert(k.duplicate(), cur.union(v));
            let ghost before = gs.subrange(0, i as int);
            i = i + 1;
            proof {
                let now = gs.subrange(0, i as int);
                assert(now =~= before.push(gs[i - 1]));
                assert forall|q: PathView| has_key(now, q) <==> (has_key(before, q) || q == k@) by {
                    if has_key(now, q) {
                        let j = choose|j: int| 0 <= j < now.len() && #[trigger] now[j].0 == q;
                        if j < before.len() {
                            assert(before[j].0 == q);
                        }
                    }
                    if has_key(before, q) {
                        let j = choose|j: int| 0 <= j < before.len() && #[trigger] before[j].0 == q;
                        assert(now[j].0 == q);
                    }
                    if q == k@ {
                        assert(now[i - 1].0 == q);
                    }
                }
                assert(!has_key(before, k@)) by {
                    if has_key(before, k@) {
                        let j = choose|j: int| 0 <= j < before.len() && #[trigger] before[j].0 == k@;
                        assert(gs[j].0 == gs[i - 1].0);
                        assert(path_lt(gs[j].0, gs[i - 1].0));
                        lemma_path_lt_irreflexive(k@);
                    }
                }
                assert(self.view().filesystem =~= Map::new(
                    |p: PathView| fs0.contains_key(p) || has_key(now, p),
                    |p: PathView| union_spec(access_in(fs0, p), if has_key(now, p) { g.map()[p] } else { no_access() }),
                ));
                assert(self.view().denied =~= Set::new(|p: PathView| d0.contains(p) && !has_key(now, p)));
            }
        }
        proof {
            assert(gs.subrange(0, gs.len() as int) =~= gs);
            assert forall|p: PathView| has_key(gs, p) <==> g.map().contains_key(p) by {}
            assert(self.view().filesystem =~= Map::new(
                |p: PathView| fs0.contains_key(p) || g.map().contains_key(p),
                |p: PathView| union_spec(access_in(fs0, p), access_in(g.map(), p)),
            ));
            assert(self.view().denied =~= Set::new(|p: PathView| d0.contains(p) && !g.map().contains_key(p)));
        }
    }

    /// Records denials of `d`, retracting grants of the same paths.
    fn take_denials(&mut self, d: &Vec<PathBuf>)
        requires
            old(self).wf(),
        ensures
            final(self).wf(),
            final(self).view() == (AccView {
                filesystem: Map::new(
                    |p: PathView| old(self).view().filesystem.contains_key(p) && !paths_view(d@).contains(p),
                    |p: PathView| old(self).view().filesystem[p],
                ),
                denied: Set::new(|p: PathView| old(self).view().denied.contains(p) || paths_view(d@).contains(p)),
                ..old(self).view()
            }),
    {
        let ghost a0 = self.view();
        let ghost dv = paths_view(d@);
        proof {
            let none = dv.subrange(0, 0);
            assert(forall|q: PathView| !none.contains(q));
            assert(a0.filesystem =~= Map::new(
                |q: PathView| a0.filesystem.contains_key(q) && !none.contains(q),
                |q: PathView| a0.filesystem[q],
            ));
            assert(a0.denied =~= Set::new(|q: PathView| a0.denied.contains(q) || none.contains(q)));
        }
        let mut i: usize = 0;
        while i < d.len()
            invariant
                i <= d.len(),
                dv == paths_view(d@),
                self.wf(),
                self.view() == (AccView {
                    filesystem: Map::new(
                        |p: PathView| a0.filesystem.contains_key(p) && !dv.subrange(0, i as int).contains(p),
                        |p: PathView| a0.filesystem[p],
                    ),
                    denied: Set::new(|p: PathView| a0.denied.contains(p) || dv.subrange(0, i as int).contains(p)),
                    ..a0
                }),
            decreases d.len() - i,
        {
            let p = &d[i];
            self.filesystem.remove(p);
            self.denied.insert(p.duplicate(), ());
            i = i + 1;
            proof {
                let now = dv.subrange(0, i as int);
                let was = dv.subrange(0, i - 1);
                assert(now =~= was.push(p@));
                assert forall|q: PathView| now.contains(q) <==> (was.contains(q) || q == p@) by {
                    if now.contains(q) {
                        let j = choose|j: int| 0 <= j < now.len() && now[j] == q;
                        if j < was.len() {
                            assert(was[j] == q);
                        }
                    }
                    if was.contains(q) {
                        let j = choose|j: int| 0 <= j < was.len() && was[j] == q;
                        assert(now[j] == q);
                    }
                    if q == p@ {
                        assert(now[i - 1] == q);
                    }
                }
                assert(self.view().filesystem =~= Map::new(
                    |q: PathView| a0.filesystem.contains_key(q) && !now.contains(q),
                    |q: PathView| a0.filesystem[q],
                ));
                assert(self.view().denied =~= Set::new(|q: PathView| a0.denied.contains(q) || now.contains(q)));
            }
        }
        assert(dv.subrange(0, d.len() as int) =~= dv);
    }

    /// Records the read-only paths of `ro`.
    fn take_read_only(&mut self, ro: &Vec<PathBuf>)
        requires
            old(self).wf(),
        ensures
            final(self).wf(),
            final(self).view() == (AccView {
                read_only: Set::new(|p: PathView| old(self).view().read_only.contains(p) || paths_view(ro@).contains(p)),
                ..old(self).view()
            }),
    {
        let ghost a0 = self.view();
        let ghost rv = paths_view(ro@);
        proof {
            let none = rv.subrange(0, 0);
            assert(forall|q: PathView| !none.contains(q));
            assert(a0.read_only =~= Set::new(|q: PathView| a0.read_only.contains(q) || none.contains(q)));
        }
        let mut i: usize = 0;
        while i < ro.len()
            invariant
                i <= ro.len(),
                rv == paths_view(ro@),
                self.wf(),
                self.view() == (AccView {
                    read_only: Set::new(|p: PathView| a0.read_only.contains(p) || rv.subrange(0, i as int).contains(p)),
                    ..a0
                }),
            decreases ro.len() - i,
        {
            let p = &ro[i];
            self.read_only.insert(p.duplicate(), ());
            i = i + 1;
            proof {
                let now = rv.subrange(0, i as int);
                let was = rv.subrange(0, i - 1);
                assert forall|q: PathView| now.contains(q) <==> (was.contains(q) || q == p@) by {
                    if now.contains(q) {
                        let j = choose|j: int| 0 <= j < now.len() && now[j] == q;
                        if j < was.len() {
                            assert(was[j] == q);
                        }
                    }
                    if was.contains(q) {
                        let j = choose|j: int| 0 <= j < was.len() && was[j] == q;
                        assert(now[j] == q);
                    }
                    if q == p@ {
                        assert(now[i - 1] == q);
                    }
                }
                assert(self.view().read_only =~= Set::new(|q: PathView| a0.read_only.contains(q) || now.contains(q)));
            }
        }
        assert(rv.subrange(0, ro.len() as int) =~= rv);
    }

    /// Clears grants, denials and read-only paths.
    fn reset_filesystem(&mut self)
        requires
            old(self).wf(),
        ensures
            final(self).wf(),
            final(self).view() == (AccView {
                filesystem: Map::empty(),
                denied: Set::empty(),
                read_only: Set::empty(),
                ..old(self).view()
            }),
    {
        self.filesystem.clear();
        self.denied.clear();
        self.read_only.clear();
        assert(self.view().denied =~= Set::<PathView>::empty());
        assert(self.view().read_only =~= Set::<PathView>::empty());
    }


    /// Applies a layer's filesystem section.
    fn apply_filesystem(&mut self, layer: &Layer, env: &HostEnv) -> (r: Result<(), ConfigError>)
        requires
            old(self).wf(),
        ensures
            final(self).wf(),
            match r {
                Err(e) => fs_error(*layer, *env) == Some(e@),
                Ok(()) => fs_error(*layer, *env) is None && final(self).view() == fs_after(
                    old(self).view(),
                    layer.raw.filesystem,
                    layer.base@,
                    *env,
                ),
            },
    {
        let fs = &layer.raw.filesystem;
        let ghost base = layer.base@;
        let r = resolve_all(&fs.read, &layer.base, env);
        let w = resolve_all(&fs.write, &layer.base, env);
        let x = resolve_all(&fs.execute, &layer.base, env);
        let d = resolve_all(&fs.deny, &layer.base, env);
        let ro = resolve_all(&fs.read_only, &layer.base, env);
        let g = grants_of(&r, &w, &x);
        assert(g.map() =~= layer_grants(*fs, base, *env));
        assert(paths_view(d@).len() == d@.len());
        let mut i: usize = 0;
        while i < d.len()
            invariant
                i <= d.len(),
                g.wf(),
                g.map() == layer_grants(*fs, base, *env),
                paths_view(d@) == resolved(fs.deny@, base, *env),
                d@.len() == fs.deny@.len(),
                base == layer.base@,
                *fs == layer.raw.filesystem,
                self.wf(),
                self.view() == old(self).view(),
                forall|j: int| 0 <= j < i ==> !is_conflict(*fs, base, *env, j),
            decreases d.len() - i,
        {
            if g.contains(&d[i]) {
                proof {
                    assert(paths_view(d@)[i as int] == d@[i as int]@);
                    assert(first_conflict(*fs, base, *env, i as int));
                    let c = choose|c: int| first_conflict(*fs, base, *env, c);
                    if c < i {
                        assert(!is_conflict(*fs, base, *env, c));
                    } else if c > i {
                        assert(!is_conflict(*fs, base, *env, i as int));
                    }
                }
                let target = d[i].display();
                let reason = owned("path is both granted and denied in the same layer");
                proof {
                    let c = choose|c: int| first_conflict(*fs, base, *env, c);
                    assert(c == i);
                    assert(target@ == render(resolved(fs.deny@, base, *env)[c]));
                    assert(reason@ == conflict_reason());
                }
                return Err(ConfigError::Conflict { path: layer.path.duplicate(), target, reason });
            }
            proof {
                assert(paths_view(d@)[i as int] == d@[i as int]@);
            }
            i = i + 1;
        }
        assert(!exists|c: int| first_conflict(*fs, base, *env, c));
        if fs.reset {
            self.reset_filesystem();
        }
        let ghost a1 = self.view();
        self.take_grants(&g);
        self.take_denials(&d);
        self.take_read_only(&ro);
        proof {
            let want = fs_after(old(self).view(), *fs, base, *env);
            assert(self.view().filesystem =~= want.filesystem);
            assert(self.view().denied =~= want.denied);
            assert(self.view().read_only =~= want.read_only);
        }
        Ok(())
    }


    /// Applies a layer's network section.
    fn apply_network(&mut self, layer: &Layer) -> (r: Result<(), ConfigError>)
        requires
            old(self).wf(),
        ensures
            final(self).wf(),
            match r {
                Err(e) => network_after(old(self).view(), *layer) == Err::<AccView, ConfigErrorView>(e@),
                Ok(()) => network_after(old(self).view(), *layer) == Ok::<AccView, ConfigErrorView>(final(self).view()),
            },
    {
        match &layer.raw.network {
            None => Ok(()),
            Some(n) => {
                if n.egress.is_some() || n.egress_allow.len() > 0 {
                    let e = build_egress(n, &layer.path)?;
                    self.egress = Some(e);
                }
                append_new_ports(&mut self.bind_ports, &n.bind_ports);
                Ok(())
            },
        }
    }


    /// Applies a layer's device entries.
    fn apply_devices(&mut self, layer: &Layer, env: &HostEnv) -> (r: Result<(), ConfigError>)
        requires
            old(self).wf(),
        ensures
            final(self).wf(),
            match r {
                Err(e) => devices_after(old(self).view(), *layer, *env) == Err::<AccView, ConfigErrorView>(e@),
                Ok(()) => devices_after(old(self).view(), *layer, *env) == Ok::<AccView, ConfigErrorView>(final(self).view()),
            },
    {
        let ghost a0 = self.view();
        let ghost ds = layer.raw.device@;
        let ghost base = layer.base@;
        let mut i: usize = 0;
        proof {
            assert(self.view().devices =~= devices_granted(a0.devices, ds.subrange(0, 0), base, *env));
        }
        while i < layer.raw.device.len()
            invariant
                i <= ds.len(),
                ds == layer.raw.device@,
                base == layer.base@,
                self.wf(),
                forall|j: int| 0 <= j < i ==> !bad_device(ds, j),
                self.view() == (AccView { devices: devices_granted(a0.devices, ds.subrange(0, i as int), base, *env), ..a0 }),
            decreases ds.len() - i,
        {
            let dev = &layer.raw.device[i];
            let access = match parse_access(&dev.access) {
                Ok(a) => a,
                Err(reason) => {
                    proof {
                        assert(first_bad_device(ds, i as int));
                        let c = choose|c: int| first_bad_device(ds, c);
                        if c < i {
                            assert(!bad_device(ds, c));
                        } else if c > i {
                            assert(!bad_device(ds, i as int));
                        }
                    }
                    return Err(ConfigError::Invalid { path: layer.path.duplicate(), reason });
                },
            };
            let p = resolve_path(&dev.path, &layer.base, env);
            let cur = match self.devices.get(&p) {
                Some(a) => *a,
                None => Access::empty(),
            };
            let ghost m_before = self.devices.map();
            self.devices.insert(p.duplicate(), cur.union(access));
            i = i + 1;
            proof {
                let now = ds.subrange(0, i as int);
                let was = ds.subrange(0, i - 1);
                assert(device_access(ds[i - 1]) == access);
                assert forall|q: PathView, j: int| names_device(now, base, *env, j, q) <==> (names_device(was, base, *env, j, q) || (j == i - 1 && q == p@)) by {
                    if 0 <= j < i - 1 {
                        assert(now[j] == was[j]);
                    }
                }
                let want = devices_granted(a0.devices, now, base, *env);
                let had = devices_granted(a0.devices, was, base, *env);
                assert forall|q: PathView| #[trigger] want.contains_key(q) <==> self.devices.map().contains_key(q) by {
                    if q == p@ {
                        assert(names_device(now, base, *env, i - 1, q));
                    } else {
                        if exists|j: int| names_device(now, base, *env, j, q) {
                            let j = choose|j: int| names_device(now, base, *env, j, q);
                            assert(names_device(was, base, *env, j, q));
                        }
                    }
                }
                assert forall|q: PathView| #[trigger] want.contains_key(q) implies want[q] == self.devices.map()[q] by {
                    if q == p@ {
                        assert(names_device(now, base, *env, i - 1, q));
                        if exists|j: int| names_device(was, base, *env, j, q) && device_access(was[j]).read {
                            let j = choose|j: int| names_device(was, base, *env, j, q) && device_access(was[j]).read;
                            assert(names_device(now, base, *env, j, q));
                        }
                        if exists|j: int| names_device(was, base, *env, j, q) && device_access(was[j]).write {
                            let j = choose|j: int| names_device(was, base, *env, j, q) && device_access(was[j]).write;
                            assert(names_device(now, base, *env, j, q));
                        }
                        if exists|j: int| names_device(was, base, *env, j, q) && device_access(was[j]).execute {
                            let j = choose|j: int| names_device(was, base, *env, j, q) && device_access(was[j]).execute;
                            assert(names_device(now, base, *env, j, q));
                        }
                        if exists|j: int| names_device(now, base, *env, j, q) && device_access(now[j]).read {
                            let j = choose|j: int| names_device(now, base, *env, j, q) && device_access(now[j]).read;
                            if j < i - 1 {
                                assert(names_device(was, base, *env, j, q));
                            }
                        }
                        if exists|j: int| names_device(now, base, *env, j, q) && device_access(now[j]).write {
                            let j = choose|j: int| names_device(now, base, *env, j, q) && device_access(now[j]).write;
                            if j < i - 1 {
                                assert(names_device(was, base, *env, j, q));
                            }
                        }
                        if exists|j: int| names_device(now, base, *env, j, q) && device_access(now[j]).execute {
                            let j = choose|j: int| names_device(now, base, *env, j, q) && device_access(now[j]).execute;
                            if j < i - 1 {
                                assert(names_device(was, base, *env, j, q));
                            }
                        }
                        assert(want[q] == self.devices.map()[q]);
                    } else {
                        assert(self.devices.map()[q] == m_before[q]);
                        assert(want[q] =~= had[q]) by {
                            if exists|j: int| names_device(now, base, *env, j, q) {
                                let j = choose|j: int| names_device(now, base, *env, j, q);
                                assert(j < i - 1);
                            }
                        }
                    }
                }
                assert(self.devices.map().dom() =~= want.dom());
                assert(self.devices.map() =~= want);
                assert(self.view() == (AccView { devices: want, ..a0 }));
            }
        }
        proof {
            assert(ds.subrange(0, ds.len() as int) =~= ds);
            assert(!exists|c: int| first_bad_device(ds, c));
        }
        Ok(())
    }


    /// Applies a layer's resources section.
    fn apply_resources(&mut self, layer: &Layer) -> (r: Result<(), ConfigError>)
        requires
            old(self).wf(),
        ensures
            final(self).wf(),
            match r {
                Err(e) => resources_after(old(self).view(), *layer) == Err::<AccView, ConfigErrorView>(e@),
                Ok(()) => resources_after(old(self).view(), *layer) == Ok::<AccView, ConfigErrorView>(final(self).view()),
            },
    {
        match &layer.raw.resources {
            None => Ok(()),
            Some(r) => match limits_of(&self.resources, r) {
                Err(reason) => Err(ConfigError::Invalid { path: layer.path.duplicate(), reason }),
                Ok(limits) => {
                    self.resources = limits;
                    Ok(())
                },
            },
        }
    }

    /// Applies a layer's env section.
    fn apply_env(&mut self, e: &RawEnv, env: &HostEnv)
        requires
            old(self).wf(),
        ensures
            final(self).wf(),
            final(self).view() == env_after(old(self).view(), *e, *env),
    {
        let ghost a0 = self.view();
        if e.reset {
            self.env = EnvPolicy::empty();
            assert(strs(self.env.pass@) =~= Seq::<Seq<char>>::empty());
            assert(strs(self.env.deny@) =~= Seq::<Seq<char>>::empty());
            assert(values_view(self.env.set.map()) =~= Map::<Seq<char>, Seq<char>>::empty());
        }
        let ghost set0 = values_view(self.env.set.map());
        let ghost pass0 = strs(self.env.pass@);
        let ghost deny0 = strs(self.env.deny@);
        append_new_strings(&mut self.env.pass, &e.pass);
        let ghost a_mid = self.view();
        let mut i: usize = 0;
        while i < e.set.len()
            invariant
                i <= e.set.len(),
                self.wf(),
                self.view() == (AccView { set: values_view(self.env.set.map()), ..a_mid }),
                values_view(self.env.set.map()) == set_all(set0, e.set@.subrange(0, i as int), *env),
            decreases e.set.len() - i,
        {
            let (k, v) = &e.set[i];
            let value = expand_value(v, env);
            let ghost before = self.env.set.map();
            self.env.set.insert(k.clone(), value);
            i = i + 1;
            proof {
                let pre = e.set@.subrange(0, i as int);
                assert(pre.drop_last() =~= e.set@.subrange(0, i - 1));
                assert(values_view(self.env.set.map()) =~= values_view(before).insert(k@, value@));
            }
        }
        assert(e.set@.subrange(0, e.set.len() as int) =~= e.set@);
        let ghost set1 = values_view(self.env.set.map());
        let ghost dn = strs(e.deny@);
        let kept = without_names(&self.env.pass, &e.deny);
        self.env.pass = kept;
        let ghost a_late = self.view();
        let mut j: usize = 0;
        while j < e.deny.len()
            invariant
                j <= e.deny.len(),
                dn == strs(e.deny@),
                self.wf(),
                self.view() == (AccView { set: values_view(self.env.set.map()), ..a_late }),
                values_view(self.env.set.map()) == Map::new(
                    |k: Seq<char>| set1.contains_key(k) && !strs(e.deny@.subrange(0, j as int)).contains(k),
                    |k: Seq<char>| set1[k],
                ),
            decreases e.deny.len() - j,
        {
            let ghost before = self.env.set.map();
            self.env.set.remove(&e.deny[j]);
            assert(values_view(self.env.set.map()) =~= values_view(before).remove(e.deny@[j as int]@));
            j = j + 1;
            proof {
                let now = strs(e.deny@.subrange(0, j as int));
                let was = strs(e.deny@.subrange(0, j - 1));
                assert(now =~= was.push(e.deny@[j - 1]@));
                assert forall|q: Seq<char>| now.contains(q) <==> (was.contains(q) || q == e.deny@[j - 1]@) by {
                    if now.contains(q) {
                        let t = choose|t: int| 0 <= t < now.len() && now[t] == q;
                        if t < was.len() {
                            assert(was[t] == q);
                        }
                    }
                    if was.contains(q) {
                        let t = choose|t: int| 0 <= t < was.len() && was[t] == q;
                        assert(now[t] == q);
                    }
                    if q == e.deny@[j - 1]@ {
                        assert(now[j - 1] == q);
                    }
                }
                assert(values_view(self.env.set.map()) =~= Map::new(
                    |k: Seq<char>| set1.contains_key(k) && !now.contains(k),
                    |k: Seq<char>| set1[k],
                ));
            }
        }
        assert(e.deny@.subrange(0, e.deny.len() as int) =~= e.deny@);
        append_new_strings(&mut self.env.deny, &e.deny);
        proof {
            let want = env_after(a0, *e, *env);
            assert((|p: Seq<char>| !strs(e.deny@).contains(p)) =~= (|p: Seq<char>| !dn.contains(p)));
            assert(pass0 == (if e.reset { Seq::<Seq<char>>::empty() } else { a0.pass }));
            assert(deny0 == (if e.reset { Seq::<Seq<char>>::empty() } else { a0.deny }));
            assert(self.view().set =~= want.set);
            assert(self.view().pass =~= want.pass);
            assert(self.view().deny =~= want.deny);
            assert(self.view().filesystem == want.filesystem);
            assert(self.view() == want);
        }
    }

    /// Applies a layer's env, home and hooks sections.
    fn apply_rest(&mut self, layer: &Layer, env: &HostEnv)
        requires
            old(self).wf(),
        ensures
            final(self).wf(),
            final(self).view() == rest_after(old(self).view(), *layer, *env),
    {
        match &layer.raw.env {
            None => {},
            Some(e) => self.apply_env(e, env),
        }
        match &layer.raw.home {
            None => {},
            Some(h) => {
                self.home = Some(resolve_path(h, &layer.base, env));
            },
        }
        match &layer.raw.hooks {
            None => {},
            Some(h) => {
                extend_strings(&mut self.hooks.pre_launch, &h.pre_launch);
                extend_strings(&mut self.hooks.post_exit, &h.post_exit);
                if h.on_violation.len() > 0 {
                    let ghost before = paths_view(self.ignored@);
                    self.ignored.push(layer.path.duplicate());
                    assert(paths_view(self.ignored@) =~= before.push(layer.path@));
                }
            },
        }
    }


    /// The resolved configuration this accumulation describes.
    fn finish(self) -> (r: Resolved)
        requires
            self.wf(),
        ensures
            resolved_from(r, self.view()),
    {
        let ghost a = self.view();
        proof {
            self.filesystem.lemma_wf();
            self.devices.lemma_wf();
        }
        let mut filesystem: Vec<FsRule> = Vec::new();
        let mut i: usize = 0;
        while i < self.filesystem.len()
            invariant
                i <= self.filesystem.seq().len(),
                filesystem@.len() == i,
                forall|j: int| 0 <= j < i ==> (#[trigger] filesystem@[j]).path@ == self.filesystem.seq()[j].0
                    && filesystem@[j].access == self.filesystem.seq()[j].1 && filesystem@[j].at is None,
            decreases self.filesystem.seq().len() - i,
        {
            filesystem.push(FsRule { path: self.filesystem.key_at(i).duplicate(), access: *self.filesystem.value_at(i), at: None });
            i = i + 1;
        }
        assert(fs_rules_view(filesystem@) =~= self.filesystem.seq());
        let mut devices: Vec<DeviceRule> = Vec::new();
        let mut i: usize = 0;
        while i < self.devices.len()
            invariant
                i <= self.devices.seq().len(),
                devices@.len() == i,
                forall|j: int| 0 <= j < i ==> (#[trigger] devices@[j]).path@ == self.devices.seq()[j].0
                    && devices@[j].access == self.devices.seq()[j].1,
            decreases self.devices.seq().len() - i,
        {
            devices.push(DeviceRule { path: self.devices.key_at(i).duplicate(), access: *self.devices.value_at(i) });
            i = i + 1;
        }
        assert(device_rules_view(devices@) =~= self.devices.seq());
        let denied = set_listing(&self.denied);
        let read_only = set_listing(&self.read_only);
        let egress = match self.egress {
            Some(e) => e,
            None => Egress::DenyAll,
        };
        let hooks = Hooks { pre_launch: self.hooks.pre_launch, post_exit: self.hooks.post_exit, on_violation: Vec::new() };
        Resolved {
            policy: Policy {
                filesystem,
                denied,
                read_only,
                network: NetworkPolicy { egress, bind_ports: self.bind_ports },
                devices,
                resources: self.resources,
                env: self.env,
                home: self.home,
            },
            hooks,
            ignored_hooks: self.ignored,
        }
    }

    /// Applies one layer over what the layers before it said.
    pub fn apply_layer(&mut self, layer: &Layer, env: &HostEnv) -> (r: Result<(), ConfigError>)
        requires
            old(self).wf(),
        ensures
            final(self).wf(),
            match r {
                Ok(()) => apply_spec(old(self).view(), *layer, *env) == Ok::<AccView, ConfigErrorView>(final(self).view()),
                Err(e) => apply_spec(old(self).view(), *layer, *env) == Err::<AccView, ConfigErrorView>(e@)
                    && final(self).view() == old(self).view(),
            },
    {
        // Whether a layer fails depends on the layer alone, so a scratch
        // accumulator finds out before this one is touched.
        let mut scratch = Accumulator::new();
        proof {
            lemma_apply_error_independent(acc_empty(), old(self).view(), *layer, *env);
        }
        scratch.apply_filesystem(layer, env)?;
        scratch.apply_network(layer)?;
        scratch.apply_devices(layer, env)?;
        scratch.apply_resources(layer)?;
        self.apply_filesystem(layer, env)?;
        self.apply_network(layer)?;
        self.apply_devices(layer, env)?;
        self.apply_resources(layer)?;
        self.apply_rest(layer, env);
        Ok(())
    }

}

/// Merges layers, lowest precedence first, into one resolved configuration.
pub fn merge(layers: &Vec<Layer>, env: &HostEnv) -> (r: Result<Resolved, ConfigError>)
    ensures
        match merge_spec(acc_empty(), layers@, *env) {
            Ok(a) => r matches Ok(res) && resolved_from(res, a),
            Err(e) => r matches Err(err) && err@ == e,
        },
{
    let mut acc = Accumulator::new();
    let mut i: usize = 0;
    while i < layers.len()
        invariant
            i <= layers.len(),
            acc.wf(),
            merge_spec(acc_empty(), layers@.subrange(0, i as int), *env) == Ok::<AccView, ConfigErrorView>(acc.view()),
        decreases layers.len() - i,
    {
        let ghost before = acc.view();
        let step = acc.apply_layer(&layers[i], env);
        proof {
            let pre = layers@.subrange(0, i + 1);
            assert(pre.drop_last() =~= layers@.subrange(0, i as int));
            assert(pre.last() == layers@[i as int]);
            if step is Err {
                lemma_merge_error_sticks(acc_empty(), layers@, i + 1, *env);
                assert(layers@.subrange(0, layers.len() as int) =~= layers@);
            }
        }
        match step {
            Err(e) => {
                return Err(e);
            },
            Ok(()) => {},
        }
        i = i + 1;
    }
    assert(layers@.subrange(0, layers.len() as int) =~= layers@);
    Ok(acc.finish())
}

/// Once a prefix of the layers fails, the whole merge fails the same way.
pub proof fn lemma_merge_error_sticks(acc: AccView, layers: Seq<Layer>, n: int, env: HostEnv)
    requires
        0 <= n <= layers.len(),
        merge_spec(acc, layers.subrange(0, n), env) is Err,
    ensures
        merge_spec(acc, layers, env) == merge_spec(acc, layers.subrange(0, n), env),
    decreases layers.len() - n,
{
    if n < layers.len() {
        let next = layers.subrange(0, n + 1);
        assert(next.drop_last() =~= layers.subrange(0, n));
        lemma_merge_error_sticks(acc, layers, n + 1, env);
    } else {
        assert(layers.subrange(0, n) =~= layers);
    }
}

/// Filesystem state the stages after the filesystem section leave alone.
proof fn lemma_later_stages_keep_filesystem(acc: AccView, layer: Layer, env: HostEnv)
    requires
        apply_spec(acc, layer, env) is Ok,
    ensures
        ({
            let a1 = fs_after(acc, layer.raw.filesystem, layer.base@, env);
            let r = apply_spec(acc, layer, env)->Ok_0;
            &&& fs_error(layer, env) is None
            &&& r.filesystem == a1.filesystem
            &&& r.denied == a1.denied
            &&& r.read_only == a1.read_only
        }),
{
}

/// A path a layer denies is not granted afterwards, and is recorded as
/// denied.
pub proof fn law_deny_retracts_grant(acc: AccView, layer: Layer, env: HostEnv, p: PathView)
    requires
        apply_spec(acc, layer, env) is Ok,
        resolved(layer.raw.filesystem.deny@, layer.base@, env).contains(p),
    ensures
        !apply_spec(acc, layer, env)->Ok_0.filesystem.contains_key(p),
        apply_spec(acc, layer, env)->Ok_0.denied.contains(p),
{
    lemma_later_stages_keep_filesystem(acc, layer, env);
}

/// A path a layer grants is granted afterwards with at least those rights,
/// and a denial of it from an earlier layer is lifted.
pub proof fn law_grant_lifts_denial(acc: AccView, layer: Layer, env: HostEnv, p: PathView)
    requires
        apply_spec(acc, layer, env) is Ok,
        layer_grants(layer.raw.filesystem, layer.base@, env).contains_key(p),
    ensures
        apply_spec(acc, layer, env)->Ok_0.filesystem.contains_key(p),
        crate::policy::contains_spec(
            apply_spec(acc, layer, env)->Ok_0.filesystem[p],
            layer_grants(layer.raw.filesystem, layer.base@, env)[p],
        ),
        !apply_spec(acc, layer, env)->Ok_0.denied.contains(p),
{
    lemma_later_stages_keep_filesystem(acc, layer, env);
    let fs = layer.raw.filesystem;
    let g = layer_grants(fs, layer.base@, env);
    let d = resolved(fs.deny@, layer.base@, env);
    if d.contains(p) {
        let i = choose|i: int| 0 <= i < d.len() && d[i] == p;
        assert(is_conflict(fs, layer.base@, env, i));
        lemma_some_conflict_has_a_first(fs, layer.base@, env, i);
    }
}

/// Grants accumulate: without a reset, a path granted before a layer that
/// does not deny it stays granted with at least the rights it had.
pub proof fn law_grants_accumulate(acc: AccView, layer: Layer, env: HostEnv, p: PathView)
    requires
        apply_spec(acc, layer, env) is Ok,
        !layer.raw.filesystem.reset,
        acc.filesystem.contains_key(p),
        !resolved(layer.raw.filesystem.deny@, layer.base@, env).contains(p),
    ensures
        apply_spec(acc, layer, env)->Ok_0.filesystem.contains_key(p),
        crate::policy::contains_spec(apply_spec(acc, layer, env)->Ok_0.filesystem[p], acc.filesystem[p]),
{
    lemma_later_stages_keep_filesystem(acc, layer, env);
}

/// A reset leaves only what the resetting layer itself grants, denies and
/// keeps read-only.
pub proof fn law_reset_clears(acc: AccView, layer: Layer, env: HostEnv, p: PathView)
    requires
        apply_spec(acc, layer, env) is Ok,
        layer.raw.filesystem.reset,
    ensures
        apply_spec(acc, layer, env)->Ok_0.filesystem.contains_key(p)
            ==> layer_grants(layer.raw.filesystem, layer.base@, env).contains_key(p),
        apply_spec(acc, layer, env)->Ok_0.denied.contains(p)
            ==> resolved(layer.raw.filesystem.deny@, layer.base@, env).contains(p),
        apply_spec(acc, layer, env)->Ok_0.read_only.contains(p)
            ==> resolved(layer.raw.filesystem.read_only@, layer.base@, env).contains(p),
{
    lemma_later_stages_keep_filesystem(acc, layer, env);
}

proof fn lemma_some_conflict_has_a_first(fs: RawFs, base: PathView, env: HostEnv, i: int)
    requires
        is_conflict(fs, base, env, i),
    ensures
        exists|c: int| first_conflict(fs, base, env, c),
    decreases i,
{
    if !first_conflict(fs, base, env, i) {
        let j = choose|j: int| 0 <= j < i && is_conflict(fs, base, env, j);
        lemma_some_conflict_has_a_first(fs, base, env, j);
    }
}

/// A layer is refused as conflicting exactly when it both grants and denies
/// one path.
pub proof fn law_conflict_iff_granted_and_denied(acc: AccView, layer: Layer, env: HostEnv)
    ensures
        (apply_spec(acc, layer, env) matches Err(ConfigErrorView::Conflict { .. })) <==> exists|p: PathView|
            layer_grants(layer.raw.filesystem, layer.base@, env).contains_key(p)
                && resolved(layer.raw.filesystem.deny@, layer.base@, env).contains(p),
{
    let fs = layer.raw.filesystem;
    let g = layer_grants(fs, layer.base@, env);
    let d = resolved(fs.deny@, layer.base@, env);
    if exists|p: PathView| g.contains_key(p) && d.contains(p) {
        let p = choose|p: PathView| g.contains_key(p) && d.contains(p);
        let i = choose|i: int| 0 <= i < d.len() && d[i] == p;
        assert(is_conflict(fs, layer.base@, env, i));
        lemma_some_conflict_has_a_first(fs, layer.base@, env, i);
    }
    if fs_error(layer, env) is Some {
        let c = choose|c: int| first_conflict(fs, layer.base@, env, c);
        assert(g.contains_key(d[c]) && d.contains(d[c]));
    } else {
        let a1 = fs_after(acc, fs, layer.base@, env);
        match network_after(a1, layer) {
            Err(e) => {
                assert(e is Invalid);
            },
            Ok(a2) => match devices_after(a2, layer, env) {
                Err(e) => {},
                Ok(a3) => {},
            },
        }
    }
}

/// A later layer's egress setting replaces an earlier one's.
pub proof fn law_later_egress_wins(acc: AccView, layer: Layer, env: HostEnv)
    requires
        apply_spec(acc, layer, env) is Ok,
        layer.raw.network matches Some(n) && (n.egress.is_some() || n.egress_allow.len() > 0),
    ensures
        apply_spec(acc, layer, env)->Ok_0.egress == Some(egress_spec(layer.raw.network->0, layer.path@)->Ok_0),
{
}

/// Scalar resource limits from a later layer replace earlier ones: each
/// limit a layer's resources section sets is the limit after it (a size as
/// its byte count), and each limit it leaves out keeps its earlier value.
pub proof fn law_later_resource_limits_win(acc: AccView, layer: Layer, env: HostEnv)
    requires
        apply_spec(acc, layer, env) is Ok,
    ensures
        ({
            let a = apply_spec(acc, layer, env)->Ok_0;
            match layer.raw.resources {
                None => a.resources == acc.resources,
                Some(r) => {
                    &&& a.resources.pids_max == (if r.pids_max is Some { r.pids_max } else { acc.resources.pids_max })
                    &&& a.resources.cpu_percent == (if r.cpu_percent is Some { r.cpu_percent } else { acc.resources.cpu_percent })
                    &&& match r.memory {
                        Some(t) => parse_size_spec(t@) is Ok && a.resources.memory_bytes == Some(parse_size_spec(t@)->Ok_0),
                        None => a.resources.memory_bytes == acc.resources.memory_bytes,
                    }
                    &&& match r.tmp_size {
                        Some(t) => parse_size_spec(t@) is Ok && a.resources.tmp_bytes == Some(parse_size_spec(t@)->Ok_0),
                        None => a.resources.tmp_bytes == acc.resources.tmp_bytes,
                    }
                    &&& match r.shm_size {
                        Some(t) => parse_size_spec(t@) is Ok && a.resources.shm_bytes == Some(parse_size_spec(t@)->Ok_0),
                        None => a.resources.shm_bytes == acc.resources.shm_bytes,
                    }
                },
            }
        }),
{
}

/// Whether a layer sets the process limit.
pub open spec fn sets_pids_max(layer: Layer) -> bool {
    layer.raw.resources matches Some(r) && r.pids_max is Some
}

/// The process limit of a merged policy is the one the last layer that set
/// it gave: a per-directory `pids_max` replaces the global one.
pub proof fn law_last_pids_max_wins(acc: AccView, layers: Seq<Layer>, env: HostEnv, k: int)
    requires
        merge_spec(acc, layers, env) is Ok,
        0 <= k < layers.len(),
        sets_pids_max(layers[k]),
        forall|j: int| k < j < layers.len() ==> !sets_pids_max(#[trigger] layers[j]),
    ensures
        merge_spec(acc, layers, env)->Ok_0.resources.pids_max == layers[k].raw.resources->0.pids_max,
    decreases layers.len(),
{
    let n = layers.len() - 1;
    let front = layers.drop_last();
    let before = merge_spec(acc, front, env);
    assert(before is Ok);
    law_later_resource_limits_win(before->Ok_0, layers[n], env);
    if k < n {
        assert forall|j: int| k < j < front.len() implies !sets_pids_max(#[trigger] front[j]) by {
            assert(front[j] == layers[j]);
        }
        assert(front[k] == layers[k]);
        law_last_pids_max_wins(acc, front, env, k);
        assert(!sets_pids_max(layers[n]));
    }
}

/// Bound ports accumulate: every port bound before a layer is still bound
/// after it, in the same place.
pub proof fn law_bind_ports_accumulate(acc: AccView, layer: Layer, env: HostEnv)
    requires
        apply_spec(acc, layer, env) is Ok,
    ensures
        acc.bind_ports.is_prefix_of(apply_spec(acc, layer, env)->Ok_0.bind_ports),
{
    match layer.raw.network {
        None => {},
        Some(n) => {
            lemma_append_new_extends(acc.bind_ports, n.bind_ports@);
        },
    }
}

pub proof fn lemma_append_new_extends<T>(s: Seq<T>, t: Seq<T>)
    ensures
        s.is_prefix_of(append_new(s, t)),
    decreases t.len(),
{
    if t.len() > 0 {
        lemma_append_new_extends(s, t.drop_last());
    }
}

} // verus!
