//! Which config layers contribute to a target.
//!
//! Per-directory `bailey.toml` files are found by walking up from the
//! target's directory and from the working directory. They are taken
//! outermost first: by depth, and at equal depth the target's chain before
//! the working directory's, each file once. The global config comes first
//! and an explicitly named config last. A file found by the walk applies only
//! once the user has trusted it. Which files exist, and what is seen of them,
//! the caller finds out; which of them are layers, in which order, and
//! whether each applies, is decided here.

use vstd::prelude::*;

use crate::config::HostEnv;
use crate::path::{join_spec, parse_spec, PathBuf, PathView};
use crate::pathmap::PathMap;
use crate::resolve::{
    absolute, absolute_spec, global_config_path, global_config_spec, target_dir, target_dir_spec,
    Origin, Source,
};
use crate::trust::{check_spec, opt_rejected_view, FileFacts, RejectedView, Store, StoreView};

verus! {

/// What the caller saw of a file: its metadata, then its contents.
pub type Seen = (Result<FileFacts, String>, Result<Vec<u8>, String>);

/// The ancestor of `p` at depth `d` (its number of components, the root
/// counting as one), if it has one.
pub open spec fn ancestor_at(p: PathView, d: int) -> Option<PathView> {
    let j = d - (if p.absolute { 1int } else { 0int });
    if 0 <= j <= p.parts.len() {
        Some(PathView { absolute: p.absolute, parts: p.parts.subrange(0, j) })
    } else {
        None
    }
}

/// The depth of `p`: its number of components, the root counting as one.
pub open spec fn depth(p: PathView) -> int {
    p.parts.len() + if p.absolute { 1int } else { 0int }
}

/// The per-directory config file of `dir`.
pub open spec fn config_in(dir: PathView) -> PathView {
    join_spec(dir, parse_spec("bailey.toml"@))
}

/// The config file at depth `d` of the chain from `start`, when the host has
/// it.
pub open spec fn found_at(start: Option<PathView>, d: int, present: Set<PathView>) -> Option<PathView> {
    match start {
        Some(s) => match ancestor_at(s, d) {
            Some(a) => if present.contains(config_in(a)) { Some(config_in(a)) } else { None },
            None => None,
        },
        None => None,
    }
}

/// Found files as plain values.
pub open spec fn found_view(v: Seq<(PathBuf, Origin)>) -> Seq<(PathView, Origin)> {
    v.map_values(|e: (PathBuf, Origin)| (e.0@, e.1))
}

/// Whether `p` is already among the found files.
pub open spec fn has_path(s: Seq<(PathView, Origin)>, p: PathView) -> bool {
    exists|i: int| 0 <= i < s.len() && (#[trigger] s[i]).0 == p
}

/// `s` with the file `f` added as found by `o`, unless it is there already.
pub open spec fn add_new(s: Seq<(PathView, Origin)>, f: Option<PathView>, o: Origin) -> Seq<(PathView, Origin)> {
    match f {
        Some(p) => if has_path(s, p) { s } else { s.push((p, o)) },
        None => s,
    }
}

/// The files found by walking up from the target's directory `t` and from
/// the working directory `c`, at depths below `n`: shallower first, and at
/// equal depth the target's before the working directory's, each once.
pub open spec fn walk_levels(t: PathView, c: Option<PathView>, present: Set<PathView>, n: nat) -> Seq<(PathView, Origin)>
    decreases n,
{
    if n == 0 {
        seq![]
    } else {
        let prev = walk_levels(t, c, present, (n - 1) as nat);
        let d = n - 1;
        add_new(add_new(prev, found_at(Some(t), d, present), Origin::Target), found_at(c, d, present), Origin::WorkingDir)
    }
}

/// The files found by both walks, at every depth.
pub open spec fn walked_spec(target: PathView, env: HostEnv, present: Set<PathView>) -> Seq<(PathView, Origin)> {
    let t = target_dir_spec(target, env);
    let c = match env.cwd { Some(c) => Some(c@), None => None };
    let n = match c {
        Some(cv) => if depth(t) >= depth(cv) { depth(t) } else { depth(cv) },
        None => depth(t),
    };
    walk_levels(t, c, present, (n + 1) as nat)
}

/// A source as plain values.
pub open spec fn source_view(s: Source) -> (PathView, Origin, Option<RejectedView>) {
    (s.path@, s.origin, opt_rejected_view(s.rejected))
}

/// Each walked file as a source: it applies only once trusted, as the store
/// sees what was seen of it.
pub open spec fn walked_sources(
    w: Seq<(PathView, Origin)>,
    st: StoreView,
    seen: Map<PathView, Seen>,
) -> Seq<(PathView, Origin, Option<RejectedView>)>
    decreases w.len(),
{
    if w.len() == 0 {
        seq![]
    } else {
        let (p, o) = w.last();
        walked_sources(w.drop_last(), st, seen).push((p, o, check_spec(st, p, seen[p].0, seen[p].1)))
    }
}

/// The config layers that contribute to `target`, lowest precedence first:
/// the global config when the host has it, the walked files, and the
/// explicitly named config. `seen` holds each file the host has, with what
/// was seen of it.
pub open spec fn sources_spec(
    target: PathView,
    explicit: Option<PathView>,
    env: HostEnv,
    seen: Map<PathView, Seen>,
    st: StoreView,
) -> Seq<(PathView, Origin, Option<RejectedView>)> {
    (match global_config_spec(env) {
        Some(g) => if seen.contains_key(g) { seq![(g, Origin::Global, None::<RejectedView>)] } else { seq![] },
        None => seq![],
    }) + walked_sources(walked_spec(target, env, seen.dom()), st, seen) + (match explicit {
        Some(e) => seq![(absolute_spec(e, env), Origin::Explicit, None::<RejectedView>)],
        None => seq![],
    })
}

/// The first `j` components of `p`, rooted as `p` is.
fn prefix(p: &PathBuf, j: usize) -> (r: PathBuf)
    requires
        j <= p@.parts.len(),
    ensures
        r@ == (PathView { absolute: p@.absolute, parts: p@.parts.subrange(0, j as int) }),
{
    let mut parts: Vec<String> = Vec::new();
    let mut i: usize = 0;
    while i < j
        invariant
            j <= p@.parts.len(),
            i <= j,
            parts.deep_view() == p@.parts.subrange(0, i as int),
        decreases j - i,
    {
        let ghost before = parts.deep_view();
        parts.push(p.parts[i].clone());
        i = i + 1;
        assert(parts.deep_view() =~= before.push(p.parts@[i - 1]@));
        assert(p@.parts.subrange(0, i as int) =~= p@.parts.subrange(0, i - 1).push(p@.parts[i - 1]));
    }
    PathBuf { absolute: p.absolute, parts }
}

/// The config file at depth `d` of the chain from `start`, when the host has
/// it.
fn found(start: &PathBuf, d: u128, present: &PathMap<Seen>) -> (r: Option<PathBuf>)
    requires
        present.wf(),
    ensures
        match r {
            Some(p) => found_at(Some(start@), d as int, present.map().dom()) == Some(p@),
            None => found_at(Some(start@), d as int, present.map().dom()) is None,
        },
{
    let base: u128 = if start.absolute { 1 } else { 0 };
    if d < base {
        return None;
    }
    let j: u128 = d - base;
    if j > start.parts.len() as u128 {
        return None;
    }
    let dir = prefix(start, j as usize);
    let cand = dir.join(&PathBuf::parse("bailey.toml"));
    if present.contains(&cand) {
        Some(cand)
    } else {
        None
    }
}

/// Whether `p` is already among the found files.
fn has_found(out: &Vec<(PathBuf, Origin)>, p: &PathBuf) -> (r: bool)
    ensures
        r == has_path(found_view(out@), p@),
{
    let ghost v = found_view(out@);
    let mut i: usize = 0;
    while i < out.len()
        invariant
            v == found_view(out@),
            i <= out@.len(),
            forall|k: int| 0 <= k < i ==> (#[trigger] v[k]).0 != p@,
        decreases out@.len() - i,
    {
        if out[i].0.same(p) {
            assert(v[i as int].0 == p@);
            return true;
        }
        i = i + 1;
    }
    false
}

/// Adds the found file `f`, as found by `o`, unless it is there already.
fn add_found(out: &mut Vec<(PathBuf, Origin)>, f: Option<PathBuf>, o: Origin)
    ensures
        final(out)@.map_values(|e: (PathBuf, Origin)| (e.0@, e.1)) == add_new(
            old(out)@.map_values(|e: (PathBuf, Origin)| (e.0@, e.1)),
            match f { Some(p) => Some(p@), None => None },
            o,
        ),
{
    match f {
        Some(p) => {
            if !has_found(out, &p) {
                let ghost before = found_view(out@);
                let ghost pv = p@;
                out.push((p, o));
                assert(found_view(out@) =~= before.push((pv, o)));
            }
        },
        None => {},
    }
}

/// The files found by walking up from the target's directory and from the
/// working directory.
fn walk(target: &PathBuf, env: &HostEnv, present: &PathMap<Seen>) -> (r: Vec<(PathBuf, Origin)>)
    requires
        present.wf(),
    ensures
        found_view(r@) == walked_spec(target@, *env, present.map().dom()),
        forall|k: int| 0 <= k < r@.len() ==> present.map().contains_key(#[trigger] found_view(r@)[k].0),
{
    let t = target_dir(target, env);
    let dt: u128 = t.parts.len() as u128 + if t.absolute { 1 } else { 0 };
    let n: u128 = match &env.cwd {
        Some(c) => {
            let dc: u128 = c.parts.len() as u128 + if c.absolute { 1 } else { 0 };
            if dt >= dc { dt } else { dc }
        },
        None => dt,
    };
    let ghost tv = t@;
    let ghost cv = match &env.cwd { Some(c) => Some(c@), None => None };
    let ghost pres = present.map().dom();
    let mut out: Vec<(PathBuf, Origin)> = Vec::new();
    assert(found_view(out@) =~= Seq::<(PathView, Origin)>::empty());
    let mut d: u128 = 0;
    while d <= n
        invariant
            present.wf(),
            pres == present.map().dom(),
            tv == t@,
            cv == (match env.cwd { Some(c) => Some(c@), None => None::<PathView> }),
            d <= n + 1,
            n < u128::MAX,
            found_view(out@) == walk_levels(tv, cv, pres, d as nat),
            forall|k: int| 0 <= k < out@.len() ==> pres.contains(#[trigger] found_view(out@)[k].0),
        decreases n + 1 - d,
    {
        let ft = found(&t, d, present);
        add_found(&mut out, ft, Origin::Target);
        match &env.cwd {
            Some(c) => {
                let fc = found(c, d, present);
                add_found(&mut out, fc, Origin::WorkingDir);
            },
            None => {
                add_found(&mut out, None, Origin::WorkingDir);
            },
        }
        d = d + 1;
    }
    out
}

/// Lists the config layers that contribute to `target`, lowest precedence
/// first: the global config when the host has it, the files found by walking
/// up from the target's directory and from the working directory, and the
/// explicitly named config. `seen` holds each of the candidate files the
/// host has, with what was seen of it; a walked file is checked against the
/// trust store. Bundled profile bases are not included.
pub fn sources(target: &PathBuf, explicit: Option<&PathBuf>, env: &HostEnv, seen: &PathMap<Seen>, store: &Store) -> (r: Vec<Source>)
    requires
        seen.wf(),
        store.wf(),
    ensures
        r@.map_values(|s: Source| source_view(s)) == sources_spec(
            target@,
            match explicit { Some(e) => Some(e@), None => None },
            *env,
            seen.map(),
            store.view(),
        ),
{
    let mut r: Vec<Source> = Vec::new();
    match global_config_path(env) {
        Some(g) => {
            if seen.contains(&g) {
                r.push(Source { path: g, origin: Origin::Global, rejected: None });
            }
        },
        None => {},
    }
    let ghost head = r@.map_values(|s: Source| source_view(s));
    assert(head =~= (match global_config_spec(*env) {
        Some(g) => if seen.map().contains_key(g) { seq![(g, Origin::Global, None::<RejectedView>)] } else { seq![] },
        None => seq![],
    }));
    let w = walk(target, env, seen);
    let ghost wv = found_view(w@);
    let mut i: usize = 0;
    assert(wv.subrange(0, 0) =~= Seq::<(PathView, Origin)>::empty());
    assert(r@.map_values(|s: Source| source_view(s)) =~= head + walked_sources(wv.subrange(0, 0), store.view(), seen.map()));
    while i < w.len()
        invariant
            seen.wf(),
            store.wf(),
            wv == found_view(w@),
            i <= w@.len(),
            r@.map_values(|s: Source| source_view(s)) == head + walked_sources(wv.subrange(0, i as int), store.view(), seen.map()),
            forall|k: int| 0 <= k < wv.len() ==> seen.map().contains_key((#[trigger] wv[k]).0),
        decreases w@.len() - i,
    {
        let p = &w[i].0;
        let o = w[i].1;
        assert(wv.subrange(0, i + 1).drop_last() =~= wv.subrange(0, i as int));
        assert(wv.subrange(0, i + 1).last() == (p@, o));
        assert(seen.map().contains_key(wv[i as int].0));
        let rejected = match seen.get(p) {
            Some(s) => store.check_key(p, &s.0, &s.1),
            None => None,
        };
        let ghost before = r@.map_values(|s: Source| source_view(s));
        r.push(Source { path: p.duplicate(), origin: o, rejected });
        assert(r@.map_values(|s: Source| source_view(s)) =~= before.push(source_view(r@.last())));
        i = i + 1;
    }
    assert(wv.subrange(0, w@.len() as int) =~= wv);
    let ghost mid = r@.map_values(|s: Source| source_view(s));
    match explicit {
        Some(e) => {
            let a = absolute(e, env);
            r.push(Source { path: a, origin: Origin::Explicit, rejected: None });
            assert(r@.map_values(|s: Source| source_view(s)) =~= mid.push((absolute_spec(e@, *env), Origin::Explicit, None::<RejectedView>)));
        },
        None => {
            assert(r@.map_values(|s: Source| source_view(s)) =~= mid);
        },
    }
    r
}

/// The config files of the chain from `p` for its first `k` ancestors,
/// outermost first.
pub open spec fn chain_files(p: PathView, k: nat) -> Seq<PathView>
    decreases k,
{
    if k == 0 {
        seq![]
    } else {
        chain_files(p, (k - 1) as nat).push(config_in(PathView { absolute: p.absolute, parts: p.parts.subrange(0, k - 1) }))
    }
}

/// The files whose presence decides the sources of `target`: the global
/// config, then each config file on the chain from the target's directory,
/// then each on the chain from the working directory.
pub open spec fn files_to_examine_spec(target: PathView, env: HostEnv) -> Seq<PathView> {
    let t = target_dir_spec(target, env);
    (match global_config_spec(env) { Some(g) => seq![g], None => seq![] })
        + chain_files(t, (t.parts.len() + 1) as nat)
        + match env.cwd { Some(c) => chain_files(c@, (c@.parts.len() + 1) as nat), None => seq![] }
}

/// The config files of the chain from `p`, outermost first.
fn chain(p: &PathBuf, out: &mut Vec<PathBuf>)
    ensures
        crate::policy::paths_view(final(out)@) == crate::policy::paths_view(old(out)@) + chain_files(p@, (p@.parts.len() + 1) as nat),
{
    let ghost start = crate::policy::paths_view(out@);
    let n = p.parts.len();
    let mut j: usize = 0;
    loop
        invariant_except_break
            n == p@.parts.len(),
            j <= n,
            crate::policy::paths_view(out@) == start + chain_files(p@, j as nat),
        ensures
            crate::policy::paths_view(out@) == start + chain_files(p@, (n + 1) as nat),
        decreases n - j,
    {
        let dir = prefix(p, j);
        let cand = dir.join(&PathBuf::parse("bailey.toml"));
        let ghost before = crate::policy::paths_view(out@);
        let ghost cv = cand@;
        out.push(cand);
        assert(crate::policy::paths_view(out@) =~= before.push(cv));
        assert(crate::policy::paths_view(out@) =~= start + chain_files(p@, (j + 1) as nat));
        if j == n {
            break;
        }
        j = j + 1;
    }
}

/// The files whose presence decides the sources of `target`: the global
/// config, then each config file on the chain from the target's directory,
/// then each on the chain from the working directory. The caller finds out
/// which the host has, and what is seen of each.
pub fn files_to_examine(target: &PathBuf, env: &HostEnv) -> (r: Vec<PathBuf>)
    ensures
        crate::policy::paths_view(r@) == files_to_examine_spec(target@, *env),
{
    let mut r: Vec<PathBuf> = Vec::new();
    match global_config_path(env) {
        Some(g) => r.push(g),
        None => {},
    }
    let ghost head = crate::policy::paths_view(r@);
    assert(head =~= (match global_config_spec(*env) { Some(g) => seq![g], None => seq![] }));
    let t = target_dir(target, env);
    chain(&t, &mut r);
    let ghost mid = crate::policy::paths_view(r@);
    match &env.cwd {
        Some(c) => chain(c, &mut r),
        None => {},
    }
    assert(crate::policy::paths_view(r@) =~= files_to_examine_spec(target@, *env));
    r
}

// ---------------------------------------------------------------------------
// What the walk promises.

/// How many components the file name adds to a directory.
pub open spec fn name_len() -> int {
    parse_spec("bailey.toml"@).parts.len() as int
}

proof fn lemma_found_depth(start: Option<PathView>, d: int, present: Set<PathView>)
    requires
        found_at(start, d, present) is Some,
    ensures
        depth(found_at(start, d, present).unwrap()) == d + name_len(),
{
    reveal_strlit("bailey.toml");
    assert(!parse_spec("bailey.toml"@).absolute);
}

/// The walk's order, shallowest first, at equal depth the target's chain
/// before the working directory's, each file once.
pub open spec fn outermost_first(w: Seq<(PathView, Origin)>) -> bool {
    forall|i: int, j: int| 0 <= i < j < w.len() ==> {
        &&& depth((#[trigger] w[i]).0) <= depth((#[trigger] w[j]).0)
        &&& depth(w[i].0) == depth(w[j].0) ==> (w[i].1 == Origin::Target && w[j].1 == Origin::WorkingDir)
        &&& w[i].0 != w[j].0
    }
}

proof fn lemma_walk_levels(t: PathView, c: Option<PathView>, present: Set<PathView>, n: nat)
    ensures
        outermost_first(walk_levels(t, c, present, n)),
        forall|i: int| 0 <= i < walk_levels(t, c, present, n).len() ==> depth((#[trigger] walk_levels(t, c, present, n)[i]).0) < n + name_len(),
    decreases n,
{
    if n > 0 {
        let prev = walk_levels(t, c, present, (n - 1) as nat);
        lemma_walk_levels(t, c, present, (n - 1) as nat);
        let d = n - 1;
        let ft = found_at(Some(t), d, present);
        let fc = found_at(c, d, present);
        let a = add_new(prev, ft, Origin::Target);
        let b = add_new(a, fc, Origin::WorkingDir);
        if ft is Some {
            lemma_found_depth(Some(t), d, present);
        }
        if fc is Some {
            lemma_found_depth(c, d, present);
        }
        assert(forall|i: int| 0 <= i < a.len() ==> depth((#[trigger] a[i]).0) < n + name_len());
        assert(forall|i: int| 0 <= i < a.len() && i < prev.len() ==> a[i] == prev[i]);
        assert(forall|i: int| 0 <= i < prev.len() ==> depth((#[trigger] prev[i]).0) < d + name_len());
        assert(outermost_first(a)) by {
            assert forall|i: int, j: int| 0 <= i < j < a.len() implies {
                &&& depth((#[trigger] a[i]).0) <= depth((#[trigger] a[j]).0)
                &&& depth(a[i].0) == depth(a[j].0) ==> (a[i].1 == Origin::Target && a[j].1 == Origin::WorkingDir)
                &&& a[i].0 != a[j].0
            } by {
                if j >= prev.len() {
                    assert(a[i] == prev[i]);
                    assert(!has_path(prev, a[j].0));
                }
            }
        }
        assert(forall|i: int| 0 <= i < a.len() ==> (depth((#[trigger] a[i]).0) == d + name_len() ==> i >= prev.len() && a[i].1 == Origin::Target));
        assert(outermost_first(b)) by {
            assert forall|i: int, j: int| 0 <= i < j < b.len() implies {
                &&& depth((#[trigger] b[i]).0) <= depth((#[trigger] b[j]).0)
                &&& depth(b[i].0) == depth(b[j].0) ==> (b[i].1 == Origin::Target && b[j].1 == Origin::WorkingDir)
                &&& b[i].0 != b[j].0
            } by {
                if j >= a.len() {
                    assert(b[i] == a[i]);
                    assert(!has_path(a, b[j].0));
                } else {
                    assert(b[i] == a[i] && b[j] == a[j]);
                }
            }
        }
    }
}

/// The walk takes the per-directory files outermost first: shallower files
/// before deeper ones, at equal depth the target's chain before the working
/// directory's, and each file once.
pub proof fn law_walk_is_outermost_first(target: PathView, env: HostEnv, present: Set<PathView>)
    ensures
        outermost_first(walked_spec(target, env, present)),
{
    let t = target_dir_spec(target, env);
    let c = match env.cwd { Some(c) => Some(c@), None => None };
    let n = match c {
        Some(cv) => if depth(t) >= depth(cv) { depth(t) } else { depth(cv) },
        None => depth(t),
    };
    lemma_walk_levels(t, c, present, (n + 1) as nat);
}

proof fn lemma_walked_sources(w: Seq<(PathView, Origin)>, st: StoreView, seen: Map<PathView, Seen>)
    ensures
        walked_sources(w, st, seen).len() == w.len(),
        forall|i: int| 0 <= i < w.len() ==> (#[trigger] walked_sources(w, st, seen)[i]).0 == w[i].0
            && walked_sources(w, st, seen)[i].1 == w[i].1,
    decreases w.len(),
{
    if w.len() > 0 {
        lemma_walked_sources(w.drop_last(), st, seen);
        let ws = walked_sources(w, st, seen);
        assert forall|i: int| 0 <= i < w.len() implies (#[trigger] ws[i]).0 == w[i].0 && ws[i].1 == w[i].1 by {
            if i < w.len() - 1 {
                assert(ws[i] == walked_sources(w.drop_last(), st, seen)[i]);
                assert(w.drop_last()[i] == w[i]);
            }
        }
    }
}

/// Whether a source was found by one of the walks.
pub open spec fn walked_origin(o: Origin) -> bool {
    o == Origin::Target || o == Origin::WorkingDir
}

proof fn lemma_walk_origins(t: PathView, c: Option<PathView>, present: Set<PathView>, n: nat)
    ensures
        forall|i: int| 0 <= i < walk_levels(t, c, present, n).len() ==> walked_origin((#[trigger] walk_levels(t, c, present, n)[i]).1),
    decreases n,
{
    if n > 0 {
        lemma_walk_origins(t, c, present, (n - 1) as nat);
        let prev = walk_levels(t, c, present, (n - 1) as nat);
        let d = n - 1;
        let a = add_new(prev, found_at(Some(t), d, present), Origin::Target);
        assert forall|i: int| 0 <= i < a.len() implies walked_origin((#[trigger] a[i]).1) by {
            if i < prev.len() {
                assert(a[i] == prev[i]);
            }
        }
        let b = add_new(a, found_at(c, d, present), Origin::WorkingDir);
        assert forall|i: int| 0 <= i < b.len() implies walked_origin((#[trigger] b[i]).1) by {
            if i < a.len() {
                assert(b[i] == a[i]);
            }
        }
    }
}

/// The discovered sources come in precedence order, lowest first: the
/// global config first, the explicitly named config last (neither ever
/// rejected), and between them the walked files, each once, outermost
/// first, the target's before the working directory's at equal depth.
pub proof fn law_sources_in_precedence_order(
    target: PathView,
    explicit: Option<PathView>,
    env: HostEnv,
    seen: Map<PathView, Seen>,
    st: StoreView,
)
    ensures
        ({
            let s = sources_spec(target, explicit, env, seen, st);
            &&& forall|i: int| 0 <= i < s.len() && (#[trigger] s[i]).1 == Origin::Global ==> i == 0 && s[i].2 is None
            &&& forall|i: int| 0 <= i < s.len() && (#[trigger] s[i]).1 == Origin::Explicit ==> i == s.len() - 1 && s[i].2 is None
            &&& forall|i: int, j: int| 0 <= i < j < s.len() && walked_origin((#[trigger] s[i]).1) && walked_origin((#[trigger] s[j]).1) ==> {
                &&& depth(s[i].0) <= depth(s[j].0)
                &&& depth(s[i].0) == depth(s[j].0) ==> (s[i].1 == Origin::Target && s[j].1 == Origin::WorkingDir)
                &&& s[i].0 != s[j].0
            }
        }),
{
    let w = walked_spec(target, env, seen.dom());
    law_walk_is_outermost_first(target, env, seen.dom());
    let t = target_dir_spec(target, env);
    let c = match env.cwd { Some(c) => Some(c@), None => None };
    let n = match c {
        Some(cv) => if depth(t) >= depth(cv) { depth(t) } else { depth(cv) },
        None => depth(t),
    };
    lemma_walk_origins(t, c, seen.dom(), (n + 1) as nat);
    lemma_walked_sources(w, st, seen);
    let g: Seq<(PathView, Origin, Option<RejectedView>)> = match global_config_spec(env) {
        Some(gp) => if seen.contains_key(gp) { seq![(gp, Origin::Global, None::<RejectedView>)] } else { seq![] },
        None => seq![],
    };
    let ws = walked_sources(w, st, seen);
    let e: Seq<(PathView, Origin, Option<RejectedView>)> = match explicit {
        Some(x) => seq![(absolute_spec(x, env), Origin::Explicit, None::<RejectedView>)],
        None => seq![],
    };
    let s = sources_spec(target, explicit, env, seen, st);
    assert(s == g + ws + e);
    assert forall|i: int| 0 <= i < s.len() implies
        (i < g.len() ==> s[i] == g[i])
        && (g.len() <= i < g.len() + ws.len() ==> s[i] == ws[i - g.len()] && walked_origin(s[i].1))
        && (i >= g.len() + ws.len() ==> s[i] == e[i - g.len() - ws.len()]) by {
        if g.len() <= i < g.len() + ws.len() {
            assert(ws[i - g.len()].1 == w[i - g.len()].1);
        }
    }
}

} // verus!
