//! Finding a cgroup a run can be limited in.
//!
//! Resource limits need a cgroup that bailey may create, and whose children
//! get the controller files (`memory.max` and friends). A cgroup only gets
//! those files when its parent lists the controller in
//! `cgroup.subtree_control`, and the kernel refuses to enable a controller on
//! a cgroup that has processes of its own. So a run is created as a sibling of
//! bailey's own cgroup, in the nearest ancestor delegated to this user.
//! Looking at the hierarchy is the caller's; which cgroups to look at, and
//! what to ask of them, is decided here.

use vstd::prelude::*;

use crate::lines::{lines, lines_spec};
use crate::path::{join_spec, parent_spec, parse_spec, starts_with_spec, PathBuf, PathView};
use crate::size::{trim, trimmed};
use crate::policy::ResourceLimits;
use crate::enforce::limit_files_spec;
use crate::text::{decimal, push_str, string_of};

verus! {

/// The controllers a set of limits needs, in the order memory, pids, cpu.
pub open spec fn needed_spec(limits: ResourceLimits) -> Seq<Seq<char>> {
    (if limits.memory_bytes.is_some() { seq!["memory"@] } else { seq![] })
        + (if limits.pids_max.is_some() { seq!["pids"@] } else { seq![] })
        + (if limits.cpu_percent.is_some() { seq!["cpu"@] } else { seq![] })
}

/// The controllers a set of limits needs.
pub fn needed_controllers(limits: &ResourceLimits) -> (r: Vec<&'static str>)
    ensures
        r@.map_values(|s: &str| s@) == needed_spec(*limits),
{
    let mut needed: Vec<&'static str> = Vec::new();
    if limits.memory_bytes.is_some() {
        needed.push("memory");
    }
    if limits.pids_max.is_some() {
        needed.push("pids");
    }
    if limits.cpu_percent.is_some() {
        needed.push("cpu");
    }
    assert(needed@.map_values(|s: &str| s@) =~= needed_spec(*limits));
    needed
}

pub open spec fn control_file_spec(controller: Seq<char>) -> Seq<char> {
    if controller == "memory"@ {
        "memory.max"@
    } else if controller == "pids"@ {
        "pids.max"@
    } else if controller == "cpu"@ {
        "cpu.max"@
    } else {
        "cgroup.procs"@
    }
}

/// The file a controller writes its limit to, which tells whether the
/// controller reached a child cgroup.
pub fn control_file(controller: &str) -> (r: &'static str)
    ensures
        r@ == control_file_spec(controller@),
{
    let c = crate::text::owned(controller);
    if c == crate::text::owned("memory") {
        "memory.max"
    } else if c == crate::text::owned("pids") {
        "pids.max"
    } else if c == crate::text::owned("cpu") {
        "cpu.max"
    } else {
        "cgroup.procs"
    }
}

/// What is written to `cgroup.subtree_control` to enable controllers.
pub open spec fn enable_request_spec(controllers: Seq<Seq<char>>) -> Seq<char>
    decreases controllers.len(),
{
    if controllers.len() == 0 {
        seq![]
    } else if controllers.len() == 1 {
        seq!['+'] + controllers[0]
    } else {
        enable_request_spec(controllers.drop_last()) + seq![' ', '+'] + controllers.last()
    }
}

/// What is written to `cgroup.subtree_control` to enable controllers.
pub fn enable_request(controllers: &Vec<&str>) -> (r: String)
    ensures
        r@ == enable_request_spec(controllers@.map_values(|s: &str| s@)),
{
    let ghost cs = controllers@.map_values(|s: &str| s@);
    let mut out: Vec<char> = Vec::new();
    let mut i: usize = 0;
    while i < controllers.len()
        invariant
            i <= controllers@.len(),
            cs == controllers@.map_values(|s: &str| s@),
            out@ == enable_request_spec(cs.subrange(0, i as int)),
        decreases controllers@.len() - i,
    {
        let ghost now = cs.subrange(0, i + 1);
        assert(now.drop_last() =~= cs.subrange(0, i as int));
        if i > 0 {
            out.push(' ');
        }
        out.push('+');
        push_str(&mut out, controllers[i]);
        i = i + 1;
        proof {
            if i == 1 {
                assert(cs.subrange(0, 0).len() == 0);
            }
            assert(out@ =~= enable_request_spec(cs.subrange(0, i as int)));
        }
    }
    assert(cs.subrange(0, controllers@.len() as int) =~= cs);
    string_of(&out)
}

/// The controllers a run enables and the control files its limits are
/// written to agree one for one, in the same order: each limit's file is the
/// file of the controller enabled for it.
pub proof fn law_controllers_match_limit_files(limits: ResourceLimits)
    ensures
        needed_spec(limits).len() == limit_files_spec(limits).len(),
        forall|i: int| 0 <= i < needed_spec(limits).len() ==>
            control_file_spec(#[trigger] needed_spec(limits)[i]) == limit_files_spec(limits)[i].0,
{
    reveal_strlit("memory");
    reveal_strlit("pids");
    reveal_strlit("cpu");
    let na: Seq<Seq<char>> = if limits.memory_bytes.is_some() { seq!["memory"@] } else { seq![] };
    let nb: Seq<Seq<char>> = if limits.pids_max.is_some() { seq!["pids"@] } else { seq![] };
    let nc: Seq<Seq<char>> = if limits.cpu_percent.is_some() { seq!["cpu"@] } else { seq![] };
    let fa: Seq<(Seq<char>, Seq<char>)> = match limits.memory_bytes { Some(m) => seq![("memory.max"@, decimal(m as nat))], None => seq![] };
    let fb: Seq<(Seq<char>, Seq<char>)> = match limits.pids_max { Some(p) => seq![("pids.max"@, decimal(p as nat))], None => seq![] };
    let fc: Seq<(Seq<char>, Seq<char>)> = match limits.cpu_percent {
        Some(c) => seq![("cpu.max"@, decimal((c as nat) * 1000) + " 100000"@)],
        None => seq![],
    };
    let n = needed_spec(limits);
    let l = limit_files_spec(limits);
    assert(n == na + nb + nc);
    assert(l == fa + fb + fc);
    assert("pids"@.len() != "memory"@.len());
    assert("cpu"@.len() != "memory"@.len() && "cpu"@.len() != "pids"@.len());
    assert(control_file_spec("memory"@) == "memory.max"@);
    assert(control_file_spec("pids"@) == "pids.max"@);
    assert(control_file_spec("cpu"@) == "cpu.max"@);
    assert forall|i: int| 0 <= i < n.len() implies control_file_spec(#[trigger] n[i]) == l[i].0 by {
        if i < na.len() {
            assert(n[i] == na[i] && l[i] == fa[i]);
        } else if i < na.len() + nb.len() {
            assert(n[i] == nb[i - na.len()] && l[i] == fb[i - fa.len()]);
        } else {
            assert(n[i] == nc[i - na.len() - nb.len()] && l[i] == fc[i - fa.len() - fb.len()]);
        }
    }
}

/// Where the unified hierarchy is mounted.
pub open spec fn cgroup_root() -> PathView {
    parse_spec("/sys/fs/cgroup"@)
}

/// The `k`-th ancestor of a path, if it has one.
pub open spec fn ancestor(p: PathView, k: nat) -> Option<PathView>
    decreases k,
{
    if k == 0 {
        Some(p)
    } else {
        match ancestor(p, (k - 1) as nat) {
            Some(a) => parent_spec(a),
            None => None,
        }
    }
}

/// The cgroups to try for runs, nearest first: the ancestors of bailey's own
/// cgroup (its own is skipped, since it contains bailey), while they lie
/// within the hierarchy, ending at its root.
pub open spec fn search_spec(own: PathView, n: nat) -> Seq<PathView>
    decreases n,
{
    if n == 0 {
        seq![]
    } else {
        let before = search_spec(own, (n - 1) as nat);
        match ancestor(own, n) {
            Some(a) => if starts_with_spec(a, cgroup_root()) && !before.contains(cgroup_root()) {
                before.push(a)
            } else {
                before
            },
            None => before,
        }
    }
}

/// The cgroups to try for runs, nearest first.
pub fn search_order(own: &PathBuf) -> (r: Vec<PathBuf>)
    ensures
        crate::policy::paths_view(r@) == search_spec(own@, own@.parts.len() as nat),
{
    let root = PathBuf::parse("/sys/fs/cgroup");
    let mut r: Vec<PathBuf> = Vec::new();
    let mut cur = own.duplicate();
    let mut k: usize = 0;
    let mut stopped = false;
    while k < own.parts.len()
        invariant
            k <= own@.parts.len(),
            root@ == cgroup_root(),
            ancestor(own@, k as nat) == Some(cur@),
            cur@.parts.len() == own@.parts.len() - k,
            crate::policy::paths_view(r@) == search_spec(own@, k as nat),
            stopped == search_spec(own@, k as nat).contains(cgroup_root()),
        decreases own@.parts.len() - k,
    {
        let next = match cur.parent() {
            Some(p) => p,
            None => {
                assert(false);
                cur.duplicate()
            },
        };
        k = k + 1;
        assert(ancestor(own@, k as nat) == Some(next@));
        let ghost before = crate::policy::paths_view(r@);
        if next.starts_with(&root) && !stopped {
            let is_root = next.same(&root);
            r.push(next.duplicate());
            assert(crate::policy::paths_view(r@) =~= before.push(next@));
            proof {
                let now = search_spec(own@, k as nat);
                assert(now == before.push(next@));
                if is_root {
                    assert(now[now.len() - 1] == cgroup_root());
                }
                if now.contains(cgroup_root()) && !is_root {
                    let j = choose|j: int| 0 <= j < now.len() && now[j] == cgroup_root();
                    assert(j < before.len());
                }
            }
            stopped = is_root;
        }
        cur = next;
    }
    r
}

/// Whether `line` is the unified hierarchy's entry of `/proc/self/cgroup`.
pub open spec fn hierarchy_line(line: Seq<char>) -> bool {
    line.len() >= 3 && line.subrange(0, 3) == "0::"@
}

/// Whether line `i` is the first entry of the unified hierarchy.
pub open spec fn first_hierarchy_line(ls: Seq<Seq<char>>, i: int) -> bool {
    0 <= i < ls.len() && hierarchy_line(ls[i]) && forall|j: int| 0 <= j < i ==> !hierarchy_line(#[trigger] ls[j])
}

/// The cgroup `/proc/self/cgroup` places this process in: the first
/// unified-hierarchy entry, its path taken beneath the hierarchy's mount.
pub open spec fn own_spec(content: Seq<char>) -> Option<PathView> {
    let ls = lines_spec(content);
    if exists|i: int| first_hierarchy_line(ls, i) {
        let line = ls[choose|i: int| first_hierarchy_line(ls, i)];
        let rel = trim(line.subrange(3, line.len() as int));
        let stripped = if rel.len() > 0 && rel[0] == '/' { rel.drop_first() } else { seq![] };
        Some(join_spec(cgroup_root(), parse_spec(stripped)))
    } else {
        None
    }
}

/// The cgroup a process is in, read from its `/proc/self/cgroup`.
pub fn own_from(content: &str) -> (r: Option<PathBuf>)
    ensures
        match r {
            Some(p) => own_spec(content@) == Some(p@),
            None => own_spec(content@).is_none(),
        },
{
    let ls = lines(content);
    let ghost views = ls@.map_values(|l: Vec<char>| l@);
    let mut i: usize = 0;
    while i < ls.len()
        invariant
            i <= ls@.len(),
            views == lines_spec(content@),
            views == ls@.map_values(|l: Vec<char>| l@),
            forall|j: int| 0 <= j < i ==> !hierarchy_line(#[trigger] views[j]),
        decreases ls@.len() - i,
    {
        let line = &ls[i];
        assert(views[i as int] == line@);
        if line.len() >= 3 && line[0] == '0' && line[1] == ':' && line[2] == ':' {
            proof {
                reveal_strlit("0::");
                assert(line@.subrange(0, 3) =~= "0::"@);
                assert(first_hierarchy_line(views, i as int));
            }
            let rel = trimmed(line, 3, line.len());
            let mut stripped: Vec<char> = Vec::new();
            if rel.len() > 0 && rel[0] == '/' {
                let mut k: usize = 1;
                while k < rel.len()
                    invariant
                        1 <= k <= rel@.len(),
                        stripped@ == rel@.subrange(1, k as int),
                    decreases rel@.len() - k,
                {
                    stripped.push(rel[k]);
                    k = k + 1;
                    assert(stripped@ =~= rel@.subrange(1, k as int));
                }
                assert(stripped@ =~= rel@.drop_first());
            } else {
                assert(stripped@ =~= Seq::<char>::empty());
            }
            let text = string_of(&stripped);
            let root = PathBuf::parse("/sys/fs/cgroup");
            return Some(root.join(&PathBuf::parse(text.as_str())));
        }
        proof {
            if hierarchy_line(views[i as int]) {
                reveal_strlit("0::");
                assert(line@.subrange(0, 3)[0] == '0');
                assert(line@.subrange(0, 3)[1] == ':');
                assert(line@.subrange(0, 3)[2] == ':');
            }
        }
        i = i + 1;
    }
    assert(!exists|k: int| first_hierarchy_line(views, k));
    None
}

} // verus!
