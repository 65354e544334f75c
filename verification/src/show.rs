//! The effective policy as `show` prints it.
//!
//! Every grant, read-only island and denial with the isolation each needs,
//! the network intent and the mode that will enforce it, devices, limits,
//! the home, and the whole environment the target gets with where each
//! variable comes from. Settings are written the way their debug rendering
//! writes them.

use vstd::prelude::*;

use crate::config::HostEnv;
use crate::merge::strs;
use crate::network::{describe_spec, NetworkMode};
use crate::path::{render, starts_with_spec, PathBuf, PathView};
use crate::policy::{any_matches, Access, Egress, EgressView, FsRule, Policy};
use crate::profile::{joined, push_joined};
use crate::reconcile::{push_quoted, str_debug};
use crate::session::{access_flags, flags_spec};
use crate::strmap::lists_names;
use crate::text::{decimal, owned, push_decimal, push_str, string_of};
use crate::world::{environment, environment_spec, pairs_of, World};

verus! {

/// An optional count as its debug rendering writes it.
pub open spec fn opt_text(o: Option<nat>) -> Seq<char> {
    match o {
        Some(n) => "Some("@ + decimal(n) + ")"@,
        None => "None"@,
    }
}

/// An egress rule as its debug rendering writes it.
pub open spec fn rule_text(r: (Seq<char>, Option<u16>)) -> Seq<char> {
    "EgressRule { host: "@ + str_debug(r.0) + ", port: "@ + opt_text(match r.1 { Some(p) => Some(p as nat), None => None })
        + " }"@
}

/// Each egress rule as its debug rendering writes it.
pub open spec fn rule_texts(rs: Seq<(Seq<char>, Option<u16>)>) -> Seq<Seq<char>>
    decreases rs.len(),
{
    if rs.len() == 0 { seq![] } else { rule_texts(rs.drop_last()).push(rule_text(rs.last())) }
}

/// A list as its debug rendering writes it.
pub open spec fn list_text(items: Seq<Seq<char>>) -> Seq<char> {
    "["@ + joined(items, ", "@) + "]"@
}

/// Outbound network intent as its debug rendering writes it.
pub open spec fn egress_text(e: EgressView) -> Seq<char> {
    match e {
        EgressView::DenyAll => "DenyAll"@,
        EgressView::AllowAll => "AllowAll"@,
        EgressView::Allow(rs) => "Allow("@ + list_text(rule_texts(rs)) + ")"@,
    }
}

/// Each port in decimal.
pub open spec fn port_texts(ps: Seq<u16>) -> Seq<Seq<char>>
    decreases ps.len(),
{
    if ps.len() == 0 { seq![] } else { port_texts(ps.drop_last()).push(decimal(ps.last() as nat)) }
}

/// Resource limits as their debug rendering writes them.
pub open spec fn limits_text(l: crate::policy::ResourceLimits) -> Seq<char> {
    "ResourceLimits { memory_bytes: "@ + opt_text(match l.memory_bytes { Some(n) => Some(n as nat), None => None })
        + ", pids_max: "@ + opt_text(match l.pids_max { Some(n) => Some(n as nat), None => None })
        + ", cpu_percent: "@ + opt_text(match l.cpu_percent { Some(n) => Some(n as nat), None => None })
        + ", tmp_bytes: "@ + opt_text(match l.tmp_bytes { Some(n) => Some(n as nat), None => None })
        + ", shm_bytes: "@ + opt_text(match l.shm_bytes { Some(n) => Some(n as nat), None => None }) + " }"@
}

/// A grant's line: its rights as flags, then its path.
pub open spec fn grant_lines(rs: Seq<(PathView, Access)>) -> Seq<Seq<char>>
    decreases rs.len(),
{
    if rs.len() == 0 {
        seq![]
    } else {
        grant_lines(rs.drop_last()).push("  "@ + flags_spec(rs.last().1) + " "@ + render(rs.last().0))
    }
}

/// Whether `p` lies strictly beneath a grant.
pub open spec fn under_grant(fs: Seq<FsRule>, p: PathView) -> bool {
    exists|i: int| 0 <= i < fs.len() && starts_with_spec(p, #[trigger] fs[i].path@) && p != fs[i].path@
}

/// Whether `p` lies at or beneath a writable grant.
pub open spec fn in_writable(fs: Seq<FsRule>, p: PathView) -> bool {
    exists|i: int| 0 <= i < fs.len() && (#[trigger] fs[i]).access.write && starts_with_spec(p, fs[i].path@)
}

/// The read-only paths' lines, noting those inside a writable grant, which
/// only isolation can keep read-only.
pub open spec fn read_only_lines(fs: Seq<FsRule>, ps: Seq<PathView>) -> Seq<Seq<char>>
    decreases ps.len(),
{
    if ps.len() == 0 {
        seq![]
    } else {
        read_only_lines(fs, ps.drop_last()).push(
            "  r-- "@ + render(ps.last()) + if in_writable(fs, ps.last()) {
                "  (inside a writable grant: needs isolation)"@
            } else {
                seq![]
            },
        )
    }
}

/// The denials' lines, noting those nested under a grant, which only
/// isolation can enforce.
pub open spec fn denied_lines(fs: Seq<FsRule>, ps: Seq<PathView>) -> Seq<Seq<char>>
    decreases ps.len(),
{
    if ps.len() == 0 {
        seq![]
    } else {
        denied_lines(fs, ps.drop_last()).push(
            "  --- "@ + render(ps.last()) + if under_grant(fs, ps.last()) {
                "  (nested under a grant: needs isolation)"@
            } else {
                seq![]
            },
        )
    }
}

/// Where a variable of the target's environment comes from: set by the
/// policy, passed from the caller, or the base set.
pub open spec fn origin_of(policy: Policy, name: Seq<char>) -> Seq<char> {
    if policy.env.set.map().contains_key(name) {
        "set"@
    } else if any_matches(policy.env.pass.deep_view(), name) {
        "passed"@
    } else {
        "base"@
    }
}

/// The environment's lines: each variable, its value, and where it comes
/// from.
pub open spec fn env_lines(policy: Policy, vars: Seq<(Seq<char>, Seq<char>)>) -> Seq<Seq<char>>
    decreases vars.len(),
{
    if vars.len() == 0 {
        seq![]
    } else {
        let (n, v) = vars.last();
        env_lines(policy, vars.drop_last()).push("  "@ + n + "="@ + v + "  ("@ + origin_of(policy, n) + ")"@)
    }
}

/// Filesystem grants as path and rights.
pub open spec fn fs_grants(v: Seq<FsRule>) -> Seq<(PathView, Access)> {
    v.map_values(|r: FsRule| (r.path@, r.access))
}

/// Device grants as path and rights.
pub open spec fn dev_grants(v: Seq<crate::policy::DeviceRule>) -> Seq<(PathView, Access)> {
    v.map_values(|r: crate::policy::DeviceRule| (r.path@, r.access))
}

/// Grants in hand as path and rights.
pub open spec fn grants_view(v: Seq<(PathBuf, Access)>) -> Seq<(PathView, Access)> {
    v.map_values(|r: (PathBuf, Access)| (r.0@, r.1))
}

/// A grant list with `  (none)` before it when it is empty.
pub open spec fn grant_block(rs: Seq<(PathView, Access)>) -> Seq<Seq<char>> {
    (if rs.len() == 0 { seq!["  (none)"@] } else { seq![] }) + grant_lines(rs)
}

/// The read-only section, when there are read-only paths.
pub open spec fn read_only_block(policy: Policy) -> Seq<Seq<char>> {
    if policy.read_only@.len() > 0 {
        seq!["read-only:"@] + read_only_lines(policy.filesystem@, crate::policy::paths_view(policy.read_only@))
    } else {
        seq![]
    }
}

/// The denied section, when there are denials.
pub open spec fn denied_block(policy: Policy) -> Seq<Seq<char>> {
    if policy.denied@.len() > 0 {
        seq!["denied:"@] + denied_lines(policy.filesystem@, crate::policy::paths_view(policy.denied@))
    } else {
        seq![]
    }
}

/// The network section and the devices header.
pub open spec fn network_block(policy: Policy, mode: NetworkMode) -> Seq<Seq<char>> {
    seq![
        "network:"@,
        "  egress: "@ + egress_text(policy.network.egress@),
        "  bind_ports: "@ + list_text(port_texts(policy.network.bind_ports@)),
        "  mode: "@ + describe_spec(mode),
        "devices:"@,
    ]
}

/// The resources and home lines, and the environment header.
pub open spec fn home_block(policy: Policy, world: World) -> Seq<Seq<char>> {
    seq!["resources: "@ + limits_text(policy.resources), "home: "@ + render(world.home_inside@)]
        + (if world.home_host.is_some() { seq!["  (private; the real home is not granted)"@] } else { seq![] })
        + seq!["environment:"@]
}

/// The effective policy as `show` prints it, by line, given the network
/// mode that will enforce it, the world the target gets, and its
/// environment.
pub open spec fn policy_lines(policy: Policy, mode: NetworkMode, world: World, vars: Seq<(Seq<char>, Seq<char>)>) -> Seq<Seq<char>> {
    seq!["filesystem:"@] + grant_block(fs_grants(policy.filesystem@)) + read_only_block(policy) + denied_block(policy)
        + network_block(policy, mode) + grant_block(dev_grants(policy.devices@)) + home_block(policy, world)
        + env_lines(policy, vars)
}

fn push_opt(out: &mut Vec<char>, o: Option<u64>)
    ensures
        final(out)@ == old(out)@ + opt_text(match o { Some(n) => Some(n as nat), None => None }),
{
    match o {
        Some(n) => {
            push_str(out, "Some(");
            push_decimal(out, n);
            push_str(out, ")");
        },
        None => push_str(out, "None"),
    }
}

/// The debug rendering of outbound network intent.
fn egress_string(e: &Egress) -> (r: String)
    ensures
        r@ == egress_text(e@),
{
    match e {
        Egress::DenyAll => {
            let r = owned("DenyAll");
            assert(e@ == EgressView::DenyAll);
            r
        },
        Egress::AllowAll => {
            let r = owned("AllowAll");
            assert(e@ == EgressView::AllowAll);
            r
        },
        Egress::Allow(rules) => {
            let ghost rv = crate::policy::rules_view(rules@);
            let mut items: Vec<String> = Vec::new();
            let mut i: usize = 0;
            assert(rv.subrange(0, 0) =~= Seq::<(Seq<char>, Option<u16>)>::empty());
            assert(strs(items@) =~= Seq::<Seq<char>>::empty());
            while i < rules.len()
                invariant
                    rv == crate::policy::rules_view(rules@),
                    i <= rules@.len(),
                    strs(items@) == rule_texts(rv.subrange(0, i as int)),
                decreases rules@.len() - i,
            {
                assert(rv.subrange(0, i + 1).drop_last() =~= rv.subrange(0, i as int));
                assert(rv.subrange(0, i + 1).last() == (rules@[i as int].host@, rules@[i as int].port));
                let mut t: Vec<char> = Vec::new();
                push_str(&mut t, "EgressRule { host: ");
                push_quoted(&mut t, rules[i].host.as_str());
                push_str(&mut t, ", port: ");
                push_opt(&mut t, match rules[i].port { Some(p) => Some(p as u64), None => None });
                push_str(&mut t, " }");
                let ghost before = strs(items@);
                let s = string_of(&t);
                items.push(s);
                assert(strs(items@) =~= before.push(s@));
                i = i + 1;
            }
            assert(rv.subrange(0, rules@.len() as int) =~= rv);
            let mut out: Vec<char> = Vec::new();
            push_str(&mut out, "Allow(");
            push_str(&mut out, "[");
            push_joined(&mut out, &items, ", ");
            push_str(&mut out, "]");
            push_str(&mut out, ")");
            assert(e@ == EgressView::Allow(rv));
            assert(out@ =~= egress_text(e@));
            string_of(&out)
        },
    }
}

/// The debug rendering of a list of ports.
fn ports_string(ps: &Vec<u16>) -> (r: String)
    ensures
        r@ == list_text(port_texts(ps@)),
{
    let mut items: Vec<String> = Vec::new();
    let mut i: usize = 0;
    assert(ps@.subrange(0, 0) =~= Seq::<u16>::empty());
    assert(strs(items@) =~= Seq::<Seq<char>>::empty());
    while i < ps.len()
        invariant
            i <= ps@.len(),
            strs(items@) == port_texts(ps@.subrange(0, i as int)),
        decreases ps@.len() - i,
    {
        assert(ps@.subrange(0, i + 1).drop_last() =~= ps@.subrange(0, i as int));
        let s = crate::text::decimal_string(ps[i] as u64);
        let ghost before = strs(items@);
        items.push(s);
        assert(strs(items@) =~= before.push(s@));
        i = i + 1;
    }
    assert(ps@.subrange(0, ps@.len() as int) =~= ps@);
    let mut out: Vec<char> = Vec::new();
    push_str(&mut out, "[");
    push_joined(&mut out, &items, ", ");
    push_str(&mut out, "]");
    string_of(&out)
}

/// The debug rendering of resource limits.
fn limits_string(l: &crate::policy::ResourceLimits) -> (r: String)
    ensures
        r@ == limits_text(*l),
{
    let mut out: Vec<char> = Vec::new();
    push_str(&mut out, "ResourceLimits { memory_bytes: ");
    push_opt(&mut out, l.memory_bytes);
    push_str(&mut out, ", pids_max: ");
    push_opt(&mut out, l.pids_max);
    push_str(&mut out, ", cpu_percent: ");
    push_opt(&mut out, match l.cpu_percent { Some(n) => Some(n as u64), None => None });
    push_str(&mut out, ", tmp_bytes: ");
    push_opt(&mut out, l.tmp_bytes);
    push_str(&mut out, ", shm_bytes: ");
    push_opt(&mut out, l.shm_bytes);
    push_str(&mut out, " }");
    string_of(&out)
}

/// Appends the lines of grants, and `  (none)` before them when there are
/// none.
fn push_grants(out: &mut Vec<String>, rules: &Vec<(PathBuf, Access)>)
    ensures
        strs(final(out)@) == strs(old(out)@) + grant_block(grants_view(rules@)),
{
    let ghost rv = grants_view(rules@);
    if rules.len() == 0 {
        let ghost before = strs(out@);
        out.push(owned("  (none)"));
        assert(strs(out@) =~= before + grant_block(rv));
        return;
    }
    let ghost start = strs(out@);
    let mut i: usize = 0;
    assert(rv.subrange(0, 0) =~= Seq::<(PathView, Access)>::empty());
    assert(strs(out@) =~= start + grant_lines(rv.subrange(0, 0)));
    while i < rules.len()
        invariant
            rv == grants_view(rules@),
            i <= rules@.len(),
            strs(out@) == start + grant_lines(rv.subrange(0, i as int)),
        decreases rules@.len() - i,
    {
        assert(rv.subrange(0, i + 1).drop_last() =~= rv.subrange(0, i as int));
        assert(rv.subrange(0, i + 1).last() == (rules@[i as int].0@, rules@[i as int].1));
        let mut t: Vec<char> = Vec::new();
        push_str(&mut t, "  ");
        push_str(&mut t, access_flags(rules[i].1).as_str());
        push_str(&mut t, " ");
        push_str(&mut t, rules[i].0.display().as_str());
        let ghost before = strs(out@);
        let s = string_of(&t);
        out.push(s);
        assert(strs(out@) =~= before.push(s@));
        i = i + 1;
    }
    assert(rv.subrange(0, rules@.len() as int) =~= rv);
    assert(strs(out@) =~= start + grant_block(rv));
}

/// Whether `p` lies strictly beneath a grant.
fn is_under_grant(fs: &Vec<FsRule>, p: &PathBuf) -> (r: bool)
    ensures
        r == under_grant(fs@, p@),
{
    let mut i: usize = 0;
    while i < fs.len()
        invariant
            i <= fs@.len(),
            forall|j: int| 0 <= j < i ==> !(starts_with_spec(p@, #[trigger] fs@[j].path@) && p@ != fs@[j].path@),
        decreases fs@.len() - i,
    {
        if p.starts_with(&fs[i].path) && !p.same(&fs[i].path) {
            return true;
        }
        i = i + 1;
    }
    false
}

/// Whether `p` lies at or beneath a writable grant.
fn is_in_writable(fs: &Vec<FsRule>, p: &PathBuf) -> (r: bool)
    ensures
        r == in_writable(fs@, p@),
{
    let mut i: usize = 0;
    while i < fs.len()
        invariant
            i <= fs@.len(),
            forall|j: int| 0 <= j < i ==> !((#[trigger] fs@[j]).access.write && starts_with_spec(p@, fs@[j].path@)),
        decreases fs@.len() - i,
    {
        if fs[i].access.write && p.starts_with(&fs[i].path) {
            return true;
        }
        i = i + 1;
    }
    false
}

/// The effective policy as `show` prints it, by line. `mode` is the network
/// mode that will enforce it on this host, and `world` the world a run of
/// the target gets.
pub fn policy_text(policy: &Policy, mode: NetworkMode, world: &World, env: &HostEnv) -> (r: Vec<String>)
    requires
        policy.env.wf(),
    ensures
        exists|vars: Seq<(Seq<char>, Seq<char>)>| lists_names(vars, environment_spec(*policy, *world, mode, *env))
            && strs(r@) == policy_lines(*policy, mode, *world, vars),
{
    let mut out: Vec<String> = Vec::new();
    out.push(owned("filesystem:"));
    let mut fs: Vec<(PathBuf, Access)> = Vec::new();
    let mut i: usize = 0;
    while i < policy.filesystem.len()
        invariant
            i <= policy.filesystem@.len(),
            grants_view(fs@) == fs_grants(policy.filesystem@.subrange(0, i as int)),
        decreases policy.filesystem@.len() - i,
    {
        let ghost before = grants_view(fs@);
        let x = policy.filesystem[i].path.duplicate();
        let a = policy.filesystem[i].access;
        fs.push((x, a));
        assert(grants_view(fs@) =~= before.push((x@, a)));
        assert(fs_grants(policy.filesystem@.subrange(0, i + 1)) =~= fs_grants(policy.filesystem@.subrange(0, i as int)).push((x@, a)));
        i = i + 1;
    }
    assert(policy.filesystem@.subrange(0, policy.filesystem@.len() as int) =~= policy.filesystem@);
    let ghost start = strs(out@);
    assert(start =~= seq!["filesystem:"@]);
    push_grants(&mut out, &fs);
    let ghost after_fs = strs(out@);
    assert(after_fs == seq!["filesystem:"@] + grant_block(fs_grants(policy.filesystem@)));
    if policy.read_only.len() > 0 {
        out.push(owned("read-only:"));
        let ghost head = strs(out@);
        let ghost pv = crate::policy::paths_view(policy.read_only@);
        let mut k: usize = 0;
        assert(pv.subrange(0, 0) =~= Seq::<PathView>::empty());
        assert(strs(out@) =~= head + read_only_lines(policy.filesystem@, pv.subrange(0, 0)));
        while k < policy.read_only.len()
            invariant
                pv == crate::policy::paths_view(policy.read_only@),
                k <= pv.len(),
                strs(out@) == head + read_only_lines(policy.filesystem@, pv.subrange(0, k as int)),
            decreases pv.len() - k,
        {
            assert(pv.subrange(0, k + 1).drop_last() =~= pv.subrange(0, k as int));
            let p = &policy.read_only[k];
            assert(pv.subrange(0, k + 1).last() == p@);
            let mut t: Vec<char> = Vec::new();
            push_str(&mut t, "  r-- ");
            push_str(&mut t, p.display().as_str());
            if is_in_writable(&policy.filesystem, p) {
                push_str(&mut t, "  (inside a writable grant: needs isolation)");
            }
            proof {
                reveal_strlit("");
            }
            let ghost before = strs(out@);
            let s = string_of(&t);
            out.push(s);
            assert(strs(out@) =~= before.push(s@));
            k = k + 1;
        }
        assert(pv.subrange(0, pv.len() as int) =~= pv);
    }
    let ghost after_ro = strs(out@);
    assert(after_ro =~= after_fs + read_only_block(*policy));
    if policy.denied.len() > 0 {
        out.push(owned("denied:"));
        let ghost head = strs(out@);
        let ghost pv = crate::policy::paths_view(policy.denied@);
        let mut k: usize = 0;
        assert(pv.subrange(0, 0) =~= Seq::<PathView>::empty());
        assert(strs(out@) =~= head + denied_lines(policy.filesystem@, pv.subrange(0, 0)));
        while k < policy.denied.len()
            invariant
                pv == crate::policy::paths_view(policy.denied@),
                k <= pv.len(),
                strs(out@) == head + denied_lines(policy.filesystem@, pv.subrange(0, k as int)),
            decreases pv.len() - k,
        {
            assert(pv.subrange(0, k + 1).drop_last() =~= pv.subrange(0, k as int));
            let p = &policy.denied[k];
            assert(pv.subrange(0, k + 1).last() == p@);
            let mut t: Vec<char> = Vec::new();
            push_str(&mut t, "  --- ");
            push_str(&mut t, p.display().as_str());
            if is_under_grant(&policy.filesystem, p) {
                push_str(&mut t, "  (nested under a grant: needs isolation)");
            }
            proof {
                reveal_strlit("");
            }
            let ghost before = strs(out@);
            let s = string_of(&t);
            out.push(s);
            assert(strs(out@) =~= before.push(s@));
            k = k + 1;
        }
        assert(pv.subrange(0, pv.len() as int) =~= pv);
    }
    let ghost after_denied = strs(out@);
    assert(after_denied =~= after_ro + denied_block(*policy));
    out.push(owned("network:"));
    let mut eg: Vec<char> = Vec::new();
    push_str(&mut eg, "  egress: ");
    push_str(&mut eg, egress_string(&policy.network.egress).as_str());
    out.push(string_of(&eg));
    let mut bp: Vec<char> = Vec::new();
    push_str(&mut bp, "  bind_ports: ");
    push_str(&mut bp, ports_string(&policy.network.bind_ports).as_str());
    out.push(string_of(&bp));
    let mut md: Vec<char> = Vec::new();
    push_str(&mut md, "  mode: ");
    push_str(&mut md, mode.describe());
    out.push(string_of(&md));
    out.push(owned("devices:"));
    let ghost after_net = strs(out@);
    assert(after_net =~= after_denied + network_block(*policy, mode));
    let mut devs: Vec<(PathBuf, Access)> = Vec::new();
    let mut j: usize = 0;
    while j < policy.devices.len()
        invariant
            j <= policy.devices@.len(),
            grants_view(devs@) == dev_grants(policy.devices@.subrange(0, j as int)),
        decreases policy.devices@.len() - j,
    {
        let ghost before = grants_view(devs@);
        let x = policy.devices[j].path.duplicate();
        let a = policy.devices[j].access;
        devs.push((x, a));
        assert(grants_view(devs@) =~= before.push((x@, a)));
        assert(dev_grants(policy.devices@.subrange(0, j + 1)) =~= dev_grants(policy.devices@.subrange(0, j as int)).push((x@, a)));
        j = j + 1;
    }
    assert(policy.devices@.subrange(0, policy.devices@.len() as int) =~= policy.devices@);
    push_grants(&mut out, &devs);
    let ghost after_dev = strs(out@);
    assert(after_dev == after_net + grant_block(dev_grants(policy.devices@)));
    let mut rs: Vec<char> = Vec::new();
    push_str(&mut rs, "resources: ");
    push_str(&mut rs, limits_string(&policy.resources).as_str());
    out.push(string_of(&rs));
    let mut hm: Vec<char> = Vec::new();
    push_str(&mut hm, "home: ");
    push_str(&mut hm, world.home_inside.display().as_str());
    out.push(string_of(&hm));
    if world.home_host.is_some() {
        out.push(owned("  (private; the real home is not granted)"));
    }
    out.push(owned("environment:"));
    let ghost after_home = strs(out@);
    assert(after_home =~= after_dev + home_block(*policy, *world));
    let vars = environment(policy, world, mode, env);
    let ghost vv = pairs_of(vars@);
    let mut v: usize = 0;
    assert(vv.subrange(0, 0) =~= Seq::<(Seq<char>, Seq<char>)>::empty());
    assert(strs(out@) =~= after_home + env_lines(*policy, vv.subrange(0, 0)));
    while v < vars.len()
        invariant
            vv == pairs_of(vars@),
            policy.env.wf(),
            v <= vars@.len(),
            strs(out@) == after_home + env_lines(*policy, vv.subrange(0, v as int)),
        decreases vars@.len() - v,
    {
        assert(vv.subrange(0, v + 1).drop_last() =~= vv.subrange(0, v as int));
        assert(vv.subrange(0, v + 1).last() == (vars@[v as int].0@, vars@[v as int].1@));
        let name = &vars[v].0;
        let origin = if policy.env.set.contains(name) {
            "set"
        } else if policy.env.passes(name) {
            "passed"
        } else {
            "base"
        };
        let mut t: Vec<char> = Vec::new();
        push_str(&mut t, "  ");
        push_str(&mut t, name.as_str());
        push_str(&mut t, "=");
        push_str(&mut t, vars[v].1.as_str());
        push_str(&mut t, "  (");
        push_str(&mut t, origin);
        push_str(&mut t, ")");
        let ghost before = strs(out@);
        let s = string_of(&t);
        out.push(s);
        assert(strs(out@) =~= before.push(s@));
        v = v + 1;
    }
    assert(vv.subrange(0, vars@.len() as int) =~= vv);
    assert(strs(out@) =~= policy_lines(*policy, mode, *world, vv));
    assert(lists_names(vv, environment_spec(*policy, *world, mode, *env)));
    out
}

} // verus!
