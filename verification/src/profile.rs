//! Generating a profile from findings.
//!
//! A trace of a real program names thousands of files, and a grant per file
//! is unreadable; a policy nobody reads gets replaced by something far wider.
//! Grants are hierarchies, so where many paths sit under one directory the
//! profile names the directory. It stops where a directory has fewer than
//! three entries, and never names the home directory or anything above it.

use vstd::prelude::*;

use crate::config::{home_of, HostEnv};
use crate::merge::lists_set;
use crate::path::{
    lemma_path_lt_irreflexive, lemma_path_lt_total, lemma_path_lt_transitive, parent_spec,
    parse_spec, path_lt, starts_with_spec, PathBuf, PathView,
};
use crate::event::{AccessKind, Resource, ResourceView};
use crate::pathmap::{has_key, lemma_map_of_index, lists, PathMap};
use crate::path::render;
use crate::reconcile::{Finding, FindingView};
use crate::strmap::{has_name, lists_names, StrMap};
use crate::text::{
    decimal, lemma_str_lt_irreflexive, lemma_str_lt_total, lemma_str_lt_transitive, push_decimal,
    push_str, str_lt, string_of,
};

verus! {

/// How many entries a directory needs before a grant names it rather than
/// them.
pub const COALESCE_AT: u64 = 3;

/// Whether a directory is specific enough to name in a grant: at least
/// three components deep, and neither the home directory nor above it.
pub open spec fn may_name_spec(dir: PathView, home: Option<PathView>) -> bool {
    &&& dir.parts.len() + (if dir.absolute { 1int } else { 0int }) >= 3
    &&& match home {
        Some(h) => !starts_with_spec(h, dir),
        None => true,
    }
}

/// The home directory, as `may_name` reads it.
pub open spec fn home_dir(env: HostEnv) -> Option<PathView> {
    match home_of(env) {
        Some(h) => Some(parse_spec(h)),
        None => None,
    }
}

/// Whether a directory is specific enough to name in a grant.
pub fn may_name(dir: &PathBuf, home: &Option<PathBuf>) -> (r: bool)
    ensures
        r == may_name_spec(dir@, crate::merge::opt_path_view(*home)),
{
    let deep = dir.parts.len() >= 3 || (dir.absolute && dir.parts.len() >= 2);
    if !deep {
        return false;
    }
    match home {
        Some(h) => !h.starts_with(dir),
        None => true,
    }
}

/// How many of the paths in `s` have `p` as their parent.
pub open spec fn count_children(s: Seq<PathView>, p: PathView) -> nat
    decreases s.len(),
{
    if s.len() == 0 {
        0
    } else {
        count_children(s.drop_last(), p) + if parent_spec(s.last()) == Some(p) { 1nat } else { 0nat }
    }
}

/// Whether the children of `p` in `s` are replaced by `p`.
pub open spec fn collapses(s: Seq<PathView>, p: PathView, home: Option<PathView>) -> bool {
    count_children(s, p) >= COALESCE_AT && may_name_spec(p, home)
}

/// Whether a path of `s` stays as it is in a round: it has a parent, and
/// that parent does not replace its entries.
pub open spec fn stays(s: Seq<PathView>, q: PathView, home: Option<PathView>) -> bool {
    match parent_spec(q) {
        Some(pp) => !collapses(s, pp, home),
        None => false,
    }
}

/// One round: each directory with enough entries replaces them; every other
/// path with a parent stays. A path without a parent names no hierarchy and
/// is dropped.
pub open spec fn step_spec(s: Seq<PathView>, home: Option<PathView>) -> Set<PathView> {
    Set::new(
        |q: PathView|
            (exists|i: int| 0 <= i < s.len() && parent_spec(#[trigger] s[i]) == Some(q) && collapses(s, q, home))
                || (s.contains(q) && stays(s, q, home)),
    )
}

/// Whether a round replaces anything.
pub open spec fn changed_spec(s: Seq<PathView>, home: Option<PathView>) -> bool {
    exists|i: int| 0 <= i < s.len() && #[trigger] parent_spec(s[i]) is Some && collapses(s, parent_spec(s[i])->0, home)
}

/// The paths of a set not already covered by another path of it.
pub open spec fn uncovered_spec(set: Set<PathView>) -> Set<PathView> {
    Set::new(
        |q: PathView| set.contains(q) && !exists|o: PathView| #[trigger] set.contains(o) && o != q && starts_with_spec(q, o),
    )
}

/// The paths of a set in path order.
pub open spec fn in_order(set: Set<PathView>) -> Seq<PathView> {
    choose|s: Seq<PathView>| lists_set(s, set)
}

/// Rounds until one replaces nothing, at most `fuel` more of them; then
/// the paths no other covers, and whether any round replaced anything.
pub open spec fn coalesce_rounds(s: Seq<PathView>, home: Option<PathView>, fuel: nat) -> (Set<PathView>, bool)
    decreases fuel,
{
    let n = step_spec(s, home);
    if !changed_spec(s, home) {
        (uncovered_spec(n), false)
    } else if fuel == 0 {
        (uncovered_spec(n), true)
    } else {
        (coalesce_rounds(in_order(n), home, (fuel - 1) as nat).0, true)
    }
}

/// Coalescing a set of paths listed in order. Each round that replaces
/// anything removes at least two paths (three entries or more become one
/// directory), so as many rounds as there are paths always reach a round
/// that replaces nothing.
pub open spec fn coalesce_spec(s: Seq<PathView>, home: Option<PathView>) -> (Set<PathView>, bool) {
    coalesce_rounds(s, home, s.len())
}

proof fn lemma_rounds_uncovered(s: Seq<PathView>, home: Option<PathView>, fuel: nat)
    ensures
        exists|n: Set<PathView>| coalesce_rounds(s, home, fuel).0 == uncovered_spec(n),
    decreases fuel,
{
    let n = step_spec(s, home);
    if !changed_spec(s, home) || fuel == 0 {
        assert(coalesce_rounds(s, home, fuel).0 == uncovered_spec(n));
    } else {
        lemma_rounds_uncovered(in_order(n), home, (fuel - 1) as nat);
    }
}

/// Coalescing leaves no nested pair: no path of the result lies beneath
/// another path of it.
pub proof fn law_coalesce_leaves_no_nested_pair(s: Seq<PathView>, home: Option<PathView>, a: PathView, b: PathView)
    requires
        coalesce_spec(s, home).0.contains(a),
        coalesce_spec(s, home).0.contains(b),
        a != b,
    ensures
        !starts_with_spec(a, b),
{
    lemma_rounds_uncovered(s, home, s.len());
    let n = choose|n: Set<PathView>| coalesce_rounds(s, home, s.len()).0 == uncovered_spec(n);
    assert(uncovered_spec(n).contains(a));
    assert(n.contains(b));
}

/// Coalescing that replaced nothing only drops paths: every path of the
/// result was given.
pub proof fn law_unchanged_coalesce_only_drops(s: Seq<PathView>, home: Option<PathView>, p: PathView)
    requires
        !coalesce_spec(s, home).1,
        coalesce_spec(s, home).0.contains(p),
    ensures
        s.contains(p),
{
    assert(!changed_spec(s, home));
    let n = step_spec(s, home);
    assert(coalesce_spec(s, home).0 == uncovered_spec(n));
    assert(n.contains(p));
    if !(s.contains(p) && stays(s, p, home)) {
        let i = choose|i: int| 0 <= i < s.len() && parent_spec(#[trigger] s[i]) == Some(p) && collapses(s, p, home);
        assert(parent_spec(s[i]) is Some && collapses(s, parent_spec(s[i])->0, home));
    }
}

// ---------------------------------------------------------------------------
// What coalescing keeps: every path it gives lies above or at a path it was
// given, and every path it was given lies beneath or at a path it gives.

proof fn lemma_starts_with_refl(p: PathView)
    ensures
        starts_with_spec(p, p),
{
    assert(p.parts.subrange(0, p.parts.len() as int) =~= p.parts);
}

proof fn lemma_starts_with_trans(a: PathView, b: PathView, c: PathView)
    requires
        starts_with_spec(a, b),
        starts_with_spec(b, c),
    ensures
        starts_with_spec(a, c),
{
    if !(!c.absolute && c.parts.len() == 0) {
        if !b.absolute && b.parts.len() == 0 {
            assert(c.parts.len() == 0);
        } else {
            assert(a.parts.subrange(0, c.parts.len() as int) =~= b.parts.subrange(0, c.parts.len() as int));
        }
    }
}

proof fn lemma_parent_prefix(p: PathView)
    requires
        parent_spec(p) is Some,
    ensures
        starts_with_spec(p, parent_spec(p)->0),
{
    assert(p.parts.subrange(0, p.parts.len() - 1) =~= p.parts.drop_last());
}

/// The least path of a finite, non-empty set.
proof fn lemma_least(set: Set<PathView>) -> (m: PathView)
    requires
        set.finite(),
        set.len() > 0,
    ensures
        set.contains(m),
        forall|q: PathView| #[trigger] set.contains(q) && q != m ==> path_lt(m, q),
    decreases set.len(),
{
    let x = set.choose();
    let rest = set.remove(x);
    if rest.len() == 0 {
        assert forall|q: PathView| #[trigger] set.contains(q) && q != x implies path_lt(x, q) by {
            assert(rest.contains(q));
            assert(rest.remove(q).len() + 1 == rest.len());
        }
        x
    } else {
        let m2 = lemma_least(rest);
        crate::path::lemma_path_lt_total(x, m2);
        if path_lt(x, m2) {
            assert forall|q: PathView| #[trigger] set.contains(q) && q != x implies path_lt(x, q) by {
                if q != m2 {
                    assert(rest.contains(q));
                    crate::path::lemma_path_lt_transitive(x, m2, q);
                }
            }
            x
        } else {
            assert forall|q: PathView| #[trigger] set.contains(q) && q != m2 implies path_lt(m2, q) by {
                if q != x {
                    assert(rest.contains(q));
                }
            }
            m2
        }
    }
}

/// A finite set of paths can be listed in path order.
proof fn lemma_listing_exists(set: Set<PathView>)
    requires
        set.finite(),
    ensures
        exists|s: Seq<PathView>| lists_set(s, set),
    decreases set.len(),
{
    if set.len() == 0 {
        assert forall|p: PathView| !set.contains(p) by {
            if set.contains(p) {
                assert(set.remove(p).len() + 1 == set.len());
            }
        }
        assert(lists_set(Seq::<PathView>::empty(), set));
    } else {
        let m = lemma_least(set);
        let rest = set.remove(m);
        lemma_listing_exists(rest);
        let r = choose|r: Seq<PathView>| lists_set(r, rest);
        let t = seq![m] + r;
        assert forall|i: int, j: int| 0 <= i < j < t.len() implies path_lt(#[trigger] t[i], #[trigger] t[j]) by {
            if i == 0 {
                assert(t[j] == r[j - 1]);
                assert(r.contains(r[j - 1]));
                assert(rest.contains(t[j]));
            } else {
                assert(t[i] == r[i - 1] && t[j] == r[j - 1]);
            }
        }
        assert forall|p: PathView| t.contains(p) <==> set.contains(p) by {
            if t.contains(p) {
                let k = choose|k: int| 0 <= k < t.len() && t[k] == p;
                if k > 0 {
                    assert(r[k - 1] == p);
                    assert(r.contains(p));
                }
            }
            if set.contains(p) {
                if p == m {
                    assert(t[0] == p);
                } else {
                    assert(rest.contains(p));
                    let k = choose|k: int| 0 <= k < r.len() && r[k] == p;
                    assert(t[k + 1] == p);
                }
            }
        }
        assert(lists_set(t, set));
    }
}

/// `in_order` lists a finite set in path order.
proof fn lemma_in_order(set: Set<PathView>)
    requires
        set.finite(),
    ensures
        lists_set(in_order(set), set),
{
    lemma_listing_exists(set);
}

/// A round's result is finite.
proof fn lemma_step_finite(s: Seq<PathView>, home: Option<PathView>)
    ensures
        step_spec(s, home).finite(),
{
    let ps = s.map_values(|p: PathView| match parent_spec(p) {
        Some(q) => q,
        None => p,
    });
    let all = s.to_set().union(ps.to_set());
    vstd::seq_lib::seq_to_set_is_finite(s);
    vstd::seq_lib::seq_to_set_is_finite(ps);
    assert forall|q: PathView| #[trigger] step_spec(s, home).contains(q) implies all.contains(q) by {
        if s.contains(q) {
            assert(s.to_set().contains(q));
        } else {
            let i = choose|i: int| 0 <= i < s.len() && parent_spec(#[trigger] s[i]) == Some(q) && collapses(s, q, home);
            assert(ps[i] == q);
            assert(ps.to_set().contains(q));
        }
    }
    vstd::set_lib::lemma_set_subset_finite(all, step_spec(s, home));
}

/// A measure that a path strictly beneath another has a larger value of.
pub open spec fn rank(p: PathView) -> nat {
    2 * p.parts.len() + if p.absolute || p.parts.len() > 0 { 1nat } else { 0nat }
}

/// Every path of a finite set lies beneath or at a path of it that no other
/// covers.
proof fn lemma_uncovered_covers(n: Set<PathView>, q: PathView)
    requires
        n.contains(q),
    ensures
        exists|o: PathView| #[trigger] uncovered_spec(n).contains(o) && starts_with_spec(q, o),
    decreases rank(q),
{
    if uncovered_spec(n).contains(q) {
        lemma_starts_with_refl(q);
    } else {
        let o = choose|o: PathView| #[trigger] n.contains(o) && o != q && starts_with_spec(q, o);
        if !(!o.absolute && o.parts.len() == 0) {
            if o.parts.len() == q.parts.len() {
                assert(q.parts.subrange(0, o.parts.len() as int) =~= q.parts);
                assert(o.parts =~= q.parts);
                assert(o.absolute == q.absolute);
                assert(o == q);
            }
        } else {
            if !q.absolute && q.parts.len() == 0 {
                assert(o.parts =~= q.parts);
                assert(o == q);
            }
        }
        lemma_uncovered_covers(n, o);
        let o2 = choose|o2: PathView| #[trigger] uncovered_spec(n).contains(o2) && starts_with_spec(o, o2);
        lemma_starts_with_trans(q, o, o2);
    }
}

proof fn lemma_rounds_cover(s: Seq<PathView>, home: Option<PathView>, fuel: nat, i: int)
    requires
        0 <= i < s.len(),
        forall|k: int| 0 <= k < s.len() ==> (#[trigger] s[k]).parts.len() > 0,
    ensures
        exists|o: PathView| #[trigger] coalesce_rounds(s, home, fuel).0.contains(o) && starts_with_spec(s[i], o),
    decreases fuel,
{
    let n = step_spec(s, home);
    let p = s[i];
    let pp = parent_spec(p)->0;
    let q = if collapses(s, pp, home) { pp } else { p };
    if collapses(s, pp, home) {
        lemma_parent_prefix(p);
    } else {
        assert(s.contains(p));
        lemma_starts_with_refl(p);
    }
    assert(n.contains(q));
    lemma_step_finite(s, home);
    if !changed_spec(s, home) || fuel == 0 {
        lemma_uncovered_covers(n, q);
        let o = choose|o: PathView| #[trigger] uncovered_spec(n).contains(o) && starts_with_spec(q, o);
        lemma_starts_with_trans(p, q, o);
        assert(coalesce_rounds(s, home, fuel).0 == uncovered_spec(n));
        assert(coalesce_rounds(s, home, fuel).0.contains(o));
    } else {
        let t = in_order(n);
        lemma_in_order(n);
        assert forall|k: int| 0 <= k < t.len() implies (#[trigger] t[k]).parts.len() > 0 by {
            assert(t.contains(t[k]));
            assert(n.contains(t[k]));
            if !(s.contains(t[k]) && stays(s, t[k], home)) {
                let j = choose|j: int| 0 <= j < s.len() && parent_spec(#[trigger] s[j]) == Some(t[k]) && collapses(s, t[k], home);
            } else {
                let j = choose|j: int| 0 <= j < s.len() && s[j] == t[k];
                assert(s[j].parts.len() > 0);
            }
        }
        assert(t.contains(q));
        let j = choose|j: int| 0 <= j < t.len() && t[j] == q;
        lemma_rounds_cover(t, home, (fuel - 1) as nat, j);
        let o = choose|o: PathView| #[trigger] coalesce_rounds(t, home, (fuel - 1) as nat).0.contains(o) && starts_with_spec(t[j], o);
        lemma_starts_with_trans(p, q, o);
        assert(coalesce_rounds(s, home, fuel).0 == coalesce_rounds(t, home, (fuel - 1) as nat).0);
        assert(coalesce_rounds(s, home, fuel).0.contains(o));
    }
}

/// Coalescing covers every path it was given (each has a parent, so none
/// is the root): each lies beneath or at a path of the result.
pub proof fn law_coalesce_covers_every_input(s: Seq<PathView>, home: Option<PathView>, i: int)
    requires
        0 <= i < s.len(),
        forall|k: int| 0 <= k < s.len() ==> (#[trigger] s[k]).parts.len() > 0,
    ensures
        exists|o: PathView| #[trigger] coalesce_spec(s, home).0.contains(o) && starts_with_spec(s[i], o),
{
    lemma_rounds_cover(s, home, s.len(), i);
    assert(coalesce_spec(s, home) == coalesce_rounds(s, home, s.len()));
}

proof fn lemma_rounds_above(s: Seq<PathView>, home: Option<PathView>, fuel: nat, o: PathView)
    requires
        coalesce_rounds(s, home, fuel).0.contains(o),
    ensures
        exists|i: int| 0 <= i < s.len() && starts_with_spec(#[trigger] s[i], o),
    decreases fuel,
{
    let n = step_spec(s, home);
    lemma_step_finite(s, home);
    let q = if !changed_spec(s, home) || fuel == 0 {
        o
    } else {
        lemma_in_order(n);
        lemma_rounds_above(in_order(n), home, (fuel - 1) as nat, o);
        let j = choose|j: int| 0 <= j < in_order(n).len() && starts_with_spec(#[trigger] in_order(n)[j], o);
        assert(in_order(n).contains(in_order(n)[j]));
        in_order(n)[j]
    };
    assert(n.contains(q));
    assert(starts_with_spec(q, o)) by {
        if !changed_spec(s, home) || fuel == 0 {
            lemma_starts_with_refl(o);
        }
    }
    if s.contains(q) && stays(s, q, home) {
        let i = choose|i: int| 0 <= i < s.len() && s[i] == q;
        assert(starts_with_spec(s[i], o));
    } else {
        let i = choose|i: int| 0 <= i < s.len() && parent_spec(#[trigger] s[i]) == Some(q) && collapses(s, q, home);
        lemma_parent_prefix(s[i]);
        lemma_starts_with_trans(s[i], q, o);
    }
}

/// Every path coalescing gives lies above or at a path it was given.
pub proof fn law_coalesce_only_widens_given_paths(s: Seq<PathView>, home: Option<PathView>, o: PathView)
    requires
        coalesce_spec(s, home).0.contains(o),
    ensures
        exists|i: int| 0 <= i < s.len() && starts_with_spec(#[trigger] s[i], o),
{
    lemma_rounds_above(s, home, s.len(), o);
}

/// The positions of `s` whose parent is `q`, in order.
pub open spec fn child_indices(s: Seq<PathView>, q: PathView) -> Seq<int>
    decreases s.len(),
{
    if s.len() == 0 {
        seq![]
    } else {
        let rest = child_indices(s.drop_last(), q);
        if parent_spec(s.last()) == Some(q) { rest.push(s.len() - 1) } else { rest }
    }
}

proof fn lemma_child_indices(s: Seq<PathView>, q: PathView)
    ensures
        child_indices(s, q).len() == count_children(s, q),
        forall|k: int| 0 <= k < child_indices(s, q).len() ==> 0 <= #[trigger] child_indices(s, q)[k] < s.len()
            && parent_spec(s[child_indices(s, q)[k]]) == Some(q),
        forall|k: int, l: int| 0 <= k < l < child_indices(s, q).len() ==> #[trigger] child_indices(s, q)[k] < #[trigger] child_indices(s, q)[l],
    decreases s.len(),
{
    if s.len() > 0 {
        lemma_child_indices(s.drop_last(), q);
        let rest = child_indices(s.drop_last(), q);
        let now = child_indices(s, q);
        assert forall|k: int| 0 <= k < now.len() implies 0 <= #[trigger] now[k] < s.len() && parent_spec(s[now[k]]) == Some(q) by {
            if k < rest.len() {
                assert(now[k] == rest[k]);
                assert(s[rest[k]] == s.drop_last()[rest[k]]);
            }
        }
        assert forall|k: int, l: int| 0 <= k < l < now.len() implies #[trigger] now[k] < #[trigger] now[l] by {
            if l < rest.len() {
                assert(now[k] == rest[k] && now[l] == rest[l]);
            } else {
                assert(now[k] == rest[k]);
            }
        }
    }
}

/// Whether `c` lies above or at some path of `s`.
pub open spec fn above_some(s: Seq<PathView>, c: PathView) -> bool {
    exists|i: int| 0 <= i < s.len() && starts_with_spec(#[trigger] s[i], c)
}

/// Whether `o` could name a directory coalescing introduced over `s`: it
/// may be named, and three distinct directories right beneath it each lie
/// above or at a path of `s`.
pub open spec fn introduced(s: Seq<PathView>, o: PathView, home: Option<PathView>) -> bool {
    &&& may_name_spec(o, home)
    &&& exists|c1: PathView, c2: PathView, c3: PathView| #![trigger above_some(s, c1), above_some(s, c2), above_some(s, c3)]
        c1 != c2 && c1 != c3 && c2 != c3
        && parent_spec(c1) == Some(o) && parent_spec(c2) == Some(o) && parent_spec(c3) == Some(o)
        && above_some(s, c1) && above_some(s, c2) && above_some(s, c3)
}

proof fn lemma_step_members(s: Seq<PathView>, home: Option<PathView>, q: PathView)
    requires
        step_spec(s, home).contains(q),
        forall|i: int, j: int| 0 <= i < j < s.len() ==> #[trigger] s[i] != #[trigger] s[j],
    ensures
        s.contains(q) || introduced(s, q, home),
        above_some(s, q),
{
    if s.contains(q) && stays(s, q, home) {
        let i = choose|i: int| 0 <= i < s.len() && s[i] == q;
        lemma_starts_with_refl(q);
        assert(starts_with_spec(s[i], q));
    } else {
        let w = choose|i: int| 0 <= i < s.len() && parent_spec(#[trigger] s[i]) == Some(q) && collapses(s, q, home);
        lemma_parent_prefix(s[w]);
        assert(starts_with_spec(s[w], q));
        lemma_child_indices(s, q);
        let ci = child_indices(s, q);
        let (a, b, c) = (ci[0], ci[1], ci[2]);
        assert(ci[0] < ci[1] && ci[1] < ci[2]);
        lemma_starts_with_refl(s[a]);
        lemma_starts_with_refl(s[b]);
        lemma_starts_with_refl(s[c]);
        assert(above_some(s, s[a]) && above_some(s, s[b]) && above_some(s, s[c]));
        assert(s[a] != s[b] && s[a] != s[c] && s[b] != s[c]);
        assert(introduced(s, q, home));
    }
}

proof fn lemma_rounds_introduced(s: Seq<PathView>, home: Option<PathView>, fuel: nat, o: PathView)
    requires
        coalesce_rounds(s, home, fuel).0.contains(o),
        forall|i: int, j: int| 0 <= i < j < s.len() ==> #[trigger] s[i] != #[trigger] s[j],
    ensures
        s.contains(o) || introduced(s, o, home),
    decreases fuel,
{
    let n = step_spec(s, home);
    lemma_step_finite(s, home);
    if !changed_spec(s, home) || fuel == 0 {
        assert(coalesce_rounds(s, home, fuel).0 == uncovered_spec(n));
        lemma_step_members(s, home, o);
    } else {
        let t = in_order(n);
        lemma_in_order(n);
        assert forall|i: int, j: int| 0 <= i < j < t.len() implies #[trigger] t[i] != #[trigger] t[j] by {
            lemma_path_lt_irreflexive(t[i]);
        }
        assert(coalesce_rounds(s, home, fuel).0 == coalesce_rounds(t, home, (fuel - 1) as nat).0);
        lemma_rounds_introduced(t, home, (fuel - 1) as nat, o);
        if t.contains(o) {
            lemma_step_members(s, home, o);
        } else {
            let (c1, c2, c3) = choose|c1: PathView, c2: PathView, c3: PathView|
                #![trigger above_some(t, c1), above_some(t, c2), above_some(t, c3)]
                c1 != c2 && c1 != c3 && c2 != c3
                && parent_spec(c1) == Some(o) && parent_spec(c2) == Some(o) && parent_spec(c3) == Some(o)
                && above_some(t, c1) && above_some(t, c2) && above_some(t, c3);
            assert forall|c: PathView| above_some(t, c) implies #[trigger] above_some(s, c) by {
                let j = choose|j: int| 0 <= j < t.len() && starts_with_spec(#[trigger] t[j], c);
                assert(t.contains(t[j]));
                lemma_step_members(s, home, t[j]);
                let i = choose|i: int| 0 <= i < s.len() && starts_with_spec(#[trigger] s[i], t[j]);
                lemma_starts_with_trans(s[i], t[j], c);
            }
            assert(above_some(s, c1) && above_some(s, c2) && above_some(s, c3));
        }
    }
}

/// A directory that coalescing introduced, rather than was given, may be
/// named (three components deep or more, and not the home directory or
/// above it), and at least three distinct given paths lie strictly beneath
/// it.
pub proof fn law_coalesced_directories_meet_the_rule(s: Seq<PathView>, home: Option<PathView>, o: PathView)
    requires
        coalesce_spec(s, home).0.contains(o),
        !s.contains(o),
        forall|i: int, j: int| 0 <= i < j < s.len() ==> #[trigger] s[i] != #[trigger] s[j],
    ensures
        may_name_spec(o, home),
        exists|i1: int, i2: int, i3: int| #![trigger s[i1], s[i2], s[i3]]
            0 <= i1 < s.len() && 0 <= i2 < s.len() && 0 <= i3 < s.len()
            && s[i1] != s[i2] && s[i1] != s[i3] && s[i2] != s[i3]
            && starts_with_spec(s[i1], o) && starts_with_spec(s[i2], o) && starts_with_spec(s[i3], o)
            && s[i1] != o && s[i2] != o && s[i3] != o,
{
    assert(coalesce_spec(s, home) == coalesce_rounds(s, home, s.len()));
    lemma_rounds_introduced(s, home, s.len(), o);
    let (c1, c2, c3) = choose|c1: PathView, c2: PathView, c3: PathView|
        #![trigger above_some(s, c1), above_some(s, c2), above_some(s, c3)]
        c1 != c2 && c1 != c3 && c2 != c3
        && parent_spec(c1) == Some(o) && parent_spec(c2) == Some(o) && parent_spec(c3) == Some(o)
        && above_some(s, c1) && above_some(s, c2) && above_some(s, c3);
    let i1 = choose|i: int| 0 <= i < s.len() && starts_with_spec(#[trigger] s[i], c1);
    let i2 = choose|i: int| 0 <= i < s.len() && starts_with_spec(#[trigger] s[i], c2);
    let i3 = choose|i: int| 0 <= i < s.len() && starts_with_spec(#[trigger] s[i], c3);
    lemma_child_below(s[i1], c1, o);
    lemma_child_below(s[i2], c2, o);
    lemma_child_below(s[i3], c3, o);
    lemma_siblings_apart(s[i1], c1, c2, o);
    lemma_siblings_apart(s[i1], c1, c3, o);
    lemma_siblings_apart(s[i2], c2, c3, o);
}

/// Coalescing never widens a grant to the home directory or to a directory
/// above it: a directory that coalescing introduced is neither the home
/// directory nor one of its ancestors, and lies at least three components
/// deep.
pub proof fn law_home_is_never_coalesced(s: Seq<PathView>, h: PathView, o: PathView)
    requires
        coalesce_spec(s, Some(h)).0.contains(o),
        !s.contains(o),
        forall|i: int, j: int| 0 <= i < j < s.len() ==> #[trigger] s[i] != #[trigger] s[j],
    ensures
        !starts_with_spec(h, o),
        o != h,
        o.parts.len() + (if o.absolute { 1int } else { 0int }) >= 3,
{
    law_coalesced_directories_meet_the_rule(s, Some(h), o);
    lemma_starts_with_refl(h);
}

/// A path beneath a child of `o` lies strictly beneath `o`.
proof fn lemma_child_below(e: PathView, c: PathView, o: PathView)
    requires
        starts_with_spec(e, c),
        parent_spec(c) == Some(o),
    ensures
        starts_with_spec(e, o),
        e != o,
{
    lemma_parent_prefix(c);
    lemma_starts_with_trans(e, c, o);
    assert(e.parts.len() >= c.parts.len());
}

/// Two distinct children of `o` have no path beneath both.
proof fn lemma_siblings_apart(e: PathView, c1: PathView, c2: PathView, o: PathView)
    requires
        starts_with_spec(e, c1),
        parent_spec(c1) == Some(o),
        parent_spec(c2) == Some(o),
        c1 != c2,
    ensures
        !starts_with_spec(e, c2),
{
    if starts_with_spec(e, c2) {
        assert(c1.parts.len() > 0 && c2.parts.len() > 0);
        assert(c1.parts.drop_last() == o.parts && c2.parts.drop_last() == o.parts);
        assert(c1.parts.drop_last().len() == c1.parts.len() - 1);
        assert(c2.parts.drop_last().len() == c2.parts.len() - 1);
        assert(c1.parts.len() == c2.parts.len());
        assert(c1.absolute == c2.absolute);
        assert(c1.parts =~= e.parts.subrange(0, c1.parts.len() as int));
        assert(c2.parts =~= e.parts.subrange(0, c2.parts.len() as int));
        assert(c1 == c2);
    }
}

/// Two sequences that list the same set in path order are the same.
pub proof fn lemma_lists_set_unique(a: Seq<PathView>, b: Seq<PathView>, set: Set<PathView>)
    requires
        lists_set(a, set),
        lists_set(b, set),
    ensures
        a == b,
    decreases a.len(),
{
    if a.len() == 0 {
        if b.len() > 0 {
            assert(set.contains(b[0]));
            assert(a.contains(b[0]));
        }
        assert(a =~= b);
    } else {
        assert(b.contains(a[0]));
        assert(b.len() > 0);
        assert(a.contains(b[0]));
        let k = choose|k: int| 0 <= k < b.len() && b[k] == a[0];
        let m = choose|m: int| 0 <= m < a.len() && a[m] == b[0];
        if k > 0 {
            assert(path_lt(b[0], b[k]));
            if m > 0 {
                assert(path_lt(a[0], a[m]));
                lemma_path_lt_transitive(a[0], b[0], a[0]);
                lemma_path_lt_irreflexive(a[0]);
            } else {
                lemma_path_lt_irreflexive(a[0]);
            }
        }
        assert(a[0] == b[0]);
        let rest = set.remove(a[0]);
        let a1 = a.drop_first();
        let b1 = b.drop_first();
        assert forall|p: PathView| a1.contains(p) <==> rest.contains(p) by {
            if a1.contains(p) {
                let j = choose|j: int| 0 <= j < a1.len() && a1[j] == p;
                assert(a[j + 1] == p);
                assert(path_lt(a[0], a[j + 1]));
                if p == a[0] {
                    lemma_path_lt_irreflexive(p);
                }
            }
            if rest.contains(p) {
                assert(a.contains(p));
                let j = choose|j: int| 0 <= j < a.len() && a[j] == p;
                assert(j > 0);
                assert(a1[j - 1] == p);
            }
        }
        assert forall|p: PathView| b1.contains(p) <==> rest.contains(p) by {
            if b1.contains(p) {
                let j = choose|j: int| 0 <= j < b1.len() && b1[j] == p;
                assert(b[j + 1] == p);
                assert(path_lt(b[0], b[j + 1]));
                if p == b[0] {
                    lemma_path_lt_irreflexive(p);
                }
            }
            if rest.contains(p) {
                assert(b.contains(p));
                let j = choose|j: int| 0 <= j < b.len() && b[j] == p;
                assert(j > 0);
                assert(b1[j - 1] == p);
            }
        }
        assert forall|i: int, j: int| 0 <= i < j < a1.len() implies path_lt(#[trigger] a1[i], #[trigger] a1[j]) by {
            assert(a1[i] == a[i + 1] && a1[j] == a[j + 1]);
        }
        assert forall|i: int, j: int| 0 <= i < j < b1.len() implies path_lt(#[trigger] b1[i], #[trigger] b1[j]) by {
            assert(b1[i] == b[i + 1] && b1[j] == b[j + 1]);
        }
        lemma_lists_set_unique(a1, b1, rest);
        assert(a =~= b) by {
            assert(a =~= seq![a[0]] + a1);
            assert(b =~= seq![b[0]] + b1);
        }
    }
}

/// The keys of a path set, as a sequence.
pub open spec fn key_seq(m: PathMap<()>) -> Seq<PathView> {
    m.seq().map_values(|e: (PathView, ())| e.0)
}

proof fn lemma_key_seq_lists(m: PathMap<()>)
    requires
        m.wf(),
    ensures
        lists_set(key_seq(m), m.map().dom()),
{
    m.lemma_wf();
    let s = m.seq();
    let ks = key_seq(m);
    assert forall|p: PathView| ks.contains(p) <==> m.map().dom().contains(p) by {
        if ks.contains(p) {
            let i = choose|i: int| 0 <= i < ks.len() && ks[i] == p;
            assert(s[i].0 == p);
            assert(has_key(s, p));
        }
        if m.map().dom().contains(p) {
            assert(has_key(s, p));
            let i = choose|i: int| 0 <= i < s.len() && #[trigger] s[i].0 == p;
            assert(ks[i] == p);
        }
    }
    assert forall|i: int, j: int| 0 <= i < j < ks.len() implies path_lt(#[trigger] ks[i], #[trigger] ks[j]) by {
        assert(ks[i] == s[i].0 && ks[j] == s[j].0);
    }
}

/// How many entries each parent has among `ks[..i]`.
fn child_counts(cur: &PathMap<()>) -> (counts: PathMap<u64>)
    requires
        cur.wf(),
    ensures
        counts.wf(),
        forall|p: PathView| #[trigger] counts.map().contains_key(p) ==> counts.map()[p] == count_children(key_seq(*cur), p),
        forall|p: PathView| !counts.map().contains_key(p) ==> #[trigger] count_children(key_seq(*cur), p) == 0,
{
    let ghost ks = key_seq(*cur);
    let mut counts: PathMap<u64> = PathMap::new();
    let mut i: usize = 0;
    assert(ks.subrange(0, 0) =~= Seq::<PathView>::empty());
    while i < cur.len()
        invariant
            i <= ks.len(),
            ks == key_seq(*cur),
            ks.len() == cur.seq().len(),
            counts.wf(),
            forall|p: PathView| #[trigger] counts.map().contains_key(p) ==> counts.map()[p] == count_children(ks.subrange(0, i as int), p)
                && counts.map()[p] <= i,
            forall|p: PathView| !counts.map().contains_key(p) ==> #[trigger] count_children(ks.subrange(0, i as int), p) == 0,
        decreases ks.len() - i,
    {
        let c = cur.key_at(i);
        let ghost pre = ks.subrange(0, i + 1);
        let ghost was = ks.subrange(0, i as int);
        assert(pre.drop_last() =~= was);
        assert(pre.last() == c@);
        assert forall|p: PathView| #[trigger] count_children(pre, p) == count_children(was, p) + if parent_spec(c@) == Some(p) { 1nat } else { 0nat } by {}
        match c.parent() {
            None => {},
            Some(p) => {
                let n = match counts.get(&p) {
                    Some(v) => *v,
                    None => 0,
                };
                counts.insert(p, n + 1);
            },
        }
        i = i + 1;
    }
    assert(ks.subrange(0, ks.len() as int) =~= ks);
    counts
}

/// One round of coalescing.
fn coalesce_step(cur: &PathMap<()>, home: &Option<PathBuf>) -> (r: (PathMap<()>, bool))
    requires
        cur.wf(),
    ensures
        r.0.wf(),
        r.0.map().dom() == step_spec(key_seq(*cur), crate::merge::opt_path_view(*home)),
        r.1 == changed_spec(key_seq(*cur), crate::merge::opt_path_view(*home)),
{
    let ghost ks = key_seq(*cur);
    let ghost hv = crate::merge::opt_path_view(*home);
    let counts = child_counts(cur);
    let mut next: PathMap<()> = PathMap::new();
    let mut changed = false;
    let mut i: usize = 0;
    while i < cur.len()
        invariant
            i <= ks.len(),
            ks == key_seq(*cur),
            ks.len() == cur.seq().len(),
            hv == crate::merge::opt_path_view(*home),
            counts.wf(),
            forall|p: PathView| #[trigger] counts.map().contains_key(p) ==> counts.map()[p] == count_children(ks, p),
            forall|p: PathView| !counts.map().contains_key(p) ==> #[trigger] count_children(ks, p) == 0,
            next.wf(),
            forall|q: PathView| #[trigger] next.map().dom().contains(q) <==> (
                (exists|j: int| 0 <= j < i && parent_spec(#[trigger] ks[j]) == Some(q) && collapses(ks, q, hv))
                || (exists|j: int| 0 <= j < i && ks[j] == q && stays(ks, q, hv))),
            changed == exists|j: int| 0 <= j < i && #[trigger] parent_spec(ks[j]) is Some && collapses(ks, parent_spec(ks[j])->0, hv),
        decreases ks.len() - i,
    {
        let c = cur.key_at(i);
        assert(ks[i as int] == c@);
        match c.parent() {
            None => {},
            Some(p) => {
                let n = match counts.get(&p) {
                    Some(v) => *v,
                    None => 0,
                };
                if n >= 3 && may_name(&p, home) {
                    next.insert(p, ());
                    changed = true;
                } else {
                    next.insert(c.duplicate(), ());
                }
            },
        }
        i = i + 1;
    }
    proof {
        assert forall|q: PathView| next.map().dom().contains(q) <==> step_spec(ks, hv).contains(q) by {
            if exists|j: int| 0 <= j < ks.len() && ks[j] == q && stays(ks, q, hv) {
                let j = choose|j: int| 0 <= j < ks.len() && ks[j] == q && stays(ks, q, hv);
                assert(ks.contains(q));
            }
            if ks.contains(q) && stays(ks, q, hv) {
                let j = choose|j: int| 0 <= j < ks.len() && ks[j] == q;
                assert(0 <= j < ks.len() && ks[j] == q && stays(ks, q, hv));
            }
        }
        assert(next.map().dom() =~= step_spec(ks, hv));
    }
    (next, changed)
}

/// The paths of a set not already covered by another path of it.
fn uncovered(set: &PathMap<()>) -> (r: PathMap<()>)
    requires
        set.wf(),
    ensures
        r.wf(),
        r.map().dom() == uncovered_spec(set.map().dom()),
{
    let ghost ks = key_seq(*set);
    proof {
        lemma_key_seq_lists(*set);
    }
    let mut r: PathMap<()> = PathMap::new();
    let mut i: usize = 0;
    while i < set.len()
        invariant
            i <= ks.len(),
            ks == key_seq(*set),
            ks.len() == set.seq().len(),
            lists_set(ks, set.map().dom()),
            r.wf(),
            forall|q: PathView| #[trigger] r.map().dom().contains(q) <==> (exists|j: int| 0 <= j < i && ks[j] == q)
                && uncovered_spec(set.map().dom()).contains(q),
        decreases ks.len() - i,
    {
        let q = set.key_at(i);
        assert(ks[i as int] == q@);
        let mut covered = false;
        let mut k: usize = 0;
        while k < set.len()
            invariant
                k <= ks.len(),
                ks == key_seq(*set),
                ks.len() == set.seq().len(),
                q@ == ks[i as int],
                covered == exists|m: int| 0 <= m < k && ks[m] != q@ && starts_with_spec(q@, #[trigger] ks[m]),
            decreases ks.len() - k,
        {
            let o = set.key_at(k);
            assert(ks[k as int] == o@);
            if !o.same(q) && q.starts_with(o) {
                covered = true;
            }
            k = k + 1;
        }
        proof {
            let dom = set.map().dom();
            assert(ks.contains(q@));
            if covered {
                let m = choose|m: int| 0 <= m < ks.len() && ks[m] != q@ && starts_with_spec(q@, #[trigger] ks[m]);
                assert(ks.contains(ks[m]));
                assert(dom.contains(ks[m]));
                assert(!uncovered_spec(dom).contains(q@));
            } else {
                assert forall|o: PathView| #[trigger] dom.contains(o) && o != q@ implies !starts_with_spec(q@, o) by {
                    assert(ks.contains(o));
                    let m = choose|m: int| 0 <= m < ks.len() && ks[m] == o;
                }
                assert(uncovered_spec(dom).contains(q@));
            }
        }
        if !covered {
            r.insert(q.duplicate(), ());
        }
        i = i + 1;
    }
    proof {
        let dom = set.map().dom();
        assert forall|q: PathView| r.map().dom().contains(q) <==> uncovered_spec(dom).contains(q) by {
            if uncovered_spec(dom).contains(q) {
                assert(ks.contains(q));
                let j = choose|j: int| 0 <= j < ks.len() && ks[j] == q;
            }
        }
        assert(r.map().dom() =~= uncovered_spec(dom));
    }
    r
}

/// Coalesces a set of paths: returns the coalesced set, and whether any
/// round replaced entries with their directory.
pub fn coalesce(paths: PathMap<()>, home: &Option<PathBuf>) -> (r: (PathMap<()>, bool))
    requires
        paths.wf(),
    ensures
        r.0.wf(),
        (r.0.map().dom(), r.1) == coalesce_spec(key_seq(paths), crate::merge::opt_path_view(*home)),
{
    let ghost hv = crate::merge::opt_path_view(*home);
    let ghost target = coalesce_spec(key_seq(paths), hv);
    let fuel = paths.len();
    let mut cur = paths;
    let mut rounds: usize = 0;
    let mut coalesced = false;
    while rounds <= fuel
        invariant
            rounds <= fuel,
            cur.wf(),
            hv == crate::merge::opt_path_view(*home),
            target == coalesce_spec(key_seq(paths), hv),
            target.0 == coalesce_rounds(key_seq(cur), hv, (fuel - rounds) as nat).0,
            target.1 == (coalesced || coalesce_rounds(key_seq(cur), hv, (fuel - rounds) as nat).1),
        decreases fuel - rounds,
    {
        let (next, changed) = coalesce_step(&cur, home);
        if !changed || rounds == fuel {
            let out = uncovered(&next);
            proof {
                let f = (fuel - rounds) as nat;
                let n = step_spec(key_seq(cur), hv);
                assert(coalesce_rounds(key_seq(cur), hv, f).0 == uncovered_spec(n));
                assert(coalesce_rounds(key_seq(cur), hv, f).1 == changed);
            }
            return (out, coalesced || changed);
        }
        proof {
            lemma_key_seq_lists(next);
            let n = step_spec(key_seq(cur), hv);
            assert(lists_set(in_order(n), n));
            lemma_lists_set_unique(key_seq(next), in_order(n), n);
        }
        cur = next;
        rounds = rounds + 1;
        coalesced = true;
    }
    let out = uncovered(&cur);
    (out, coalesced)
}

// ---------------------------------------------------------------------------
// What the findings ask for.

pub open spec fn terminal_dir() -> PathView {
    parse_spec("/dev/pts"@)
}

/// Whether a finding's resource is a pseudo-terminal, named per session and
/// so never granted.
pub open spec fn is_terminal(f: FindingView) -> bool {
    f.resource matches ResourceView::Path(p) && starts_with_spec(p, terminal_dir())
}

/// Whether a finding can become a grant: its path was resolved, and it is
/// not a pseudo-terminal.
pub open spec fn grantable(f: FindingView) -> bool {
    !f.unresolved && !is_terminal(f)
}

/// The paths the findings of kind `k` ask for.
pub open spec fn kind_paths(fs: Seq<FindingView>, k: AccessKind) -> Set<PathView> {
    Set::new(
        |p: PathView| exists|i: int| 0 <= i < fs.len() && grantable(#[trigger] fs[i]) && fs[i].kind == k
            && fs[i].resource == ResourceView::Path(p),
    )
}

/// Whether a finding of kind `k` asks for port `port`.
pub open spec fn asks_port(f: FindingView, k: AccessKind, port: u16) -> bool {
    &&& grantable(f)
    &&& f.kind == k
    &&& f.resource matches ResourceView::Net { port: q, .. } && q == port
}

/// The ports the findings of kind `k` ask for.
pub open spec fn kind_ports(fs: Seq<FindingView>, k: AccessKind) -> Set<u16> {
    Set::new(|port: u16| exists|i: int| 0 <= i < fs.len() && asks_port(#[trigger] fs[i], k, port))
}

/// Whether a pseudo-terminal was left out.
pub open spec fn skipped_terminal(fs: Seq<FindingView>) -> bool {
    exists|i: int| 0 <= i < fs.len() && !fs[i].unresolved && is_terminal(#[trigger] fs[i])
}

/// The directories of the sandbox's own `PATH`.
pub open spec fn sandbox_dirs() -> Seq<PathView> {
    seq![parse_spec("/usr/local/bin"@), parse_spec("/usr/bin"@), parse_spec("/bin"@)]
}

/// The directories programs were executed from, outside the sandbox `PATH`.
pub open spec fn interpreter_dirs(fs: Seq<FindingView>) -> Set<Seq<char>> {
    Set::new(
        |t: Seq<char>| exists|p: PathView, d: PathView| #[trigger] kind_paths(fs, AccessKind::Execute).contains(p)
            && parent_spec(p) == Some(d) && !sandbox_dirs().contains(d) && #[trigger] render(d) == t,
    )
}

/// The texts of a set of paths.
pub open spec fn texts(set: Set<PathView>) -> Set<Seq<char>> {
    Set::new(|t: Seq<char>| exists|p: PathView| set.contains(p) && #[trigger] render(p) == t)
}

/// Whether `s` lists `set` in string order.
pub open spec fn lists_strs(s: Seq<Seq<char>>, set: Set<Seq<char>>) -> bool {
    &&& forall|i: int, j: int| 0 <= i < j < s.len() ==> str_lt(#[trigger] s[i], #[trigger] s[j])
    &&& forall|t: Seq<char>| s.contains(t) <==> set.contains(t)
}

/// Whether `s` lists `set` in increasing order.
pub open spec fn lists_ports(s: Seq<u16>, set: Set<u16>) -> bool {
    &&& forall|i: int, j: int| 0 <= i < j < s.len() ==> #[trigger] s[i] < #[trigger] s[j]
    &&& forall|p: u16| s.contains(p) <==> set.contains(p)
}

pub open spec fn str_order(set: Set<Seq<char>>) -> Seq<Seq<char>> {
    choose|s: Seq<Seq<char>>| lists_strs(s, set)
}

pub open spec fn port_order(set: Set<u16>) -> Seq<u16> {
    choose|s: Seq<u16>| lists_ports(s, set)
}

/// `items` separated by `sep`.
pub open spec fn joined(items: Seq<Seq<char>>, sep: Seq<char>) -> Seq<char>
    decreases items.len(),
{
    if items.len() == 0 {
        seq![]
    } else if items.len() == 1 {
        items[0]
    } else {
        joined(items.drop_last(), sep) + sep + items.last()
    }
}

pub open spec fn quote_all(items: Seq<Seq<char>>) -> Seq<Seq<char>> {
    items.map_values(|t: Seq<char>| "\""@ + t + "\""@)
}

/// A TOML array of strings under `key`, nothing when the set is empty.
pub open spec fn string_array(key: Seq<char>, set: Set<Seq<char>>) -> Seq<char> {
    if set == Set::<Seq<char>>::empty() {
        seq![]
    } else {
        key + " = ["@ + joined(quote_all(str_order(set)), ", "@) + "]\n"@
    }
}

pub open spec fn port_texts(ports: Seq<u16>) -> Seq<Seq<char>> {
    ports.map_values(|p: u16| decimal(p as nat))
}

pub open spec fn rule_texts(ports: Seq<u16>) -> Seq<Seq<char>> {
    ports.map_values(|p: u16| "{ host = \"*\", port = "@ + decimal(p as nat) + " }"@)
}

pub open spec fn coalesced_note() -> Seq<char> {
    "# Directories, where many files under one were used: a grant per file\n# is unreadable, and these are hierarchies. Narrow any that are wider\n# than you want.\n"@
}

pub open spec fn terminal_note() -> Seq<char> {
    "# The terminal is not granted: a pty is named per session, and the\n# sandbox provides the one it was started from.\n"@
}

pub open spec fn path_note() -> Seq<char> {
    "\n# Where the programs this ran were found. Without this they are not\n# on PATH inside the sandbox, and a `#!/usr/bin/env` line finds\n# nothing. The rest of the environment is never generated.\n[env]\n"@
}

pub open spec fn sandbox_path_text() -> Seq<char> {
    "/usr/local/bin:/usr/bin:/bin"@
}

/// The profile a selection of findings generates: exactly their grants,
/// many files under one directory coalesced into the directory, the ports
/// they connected to and bound, and where the programs they ran live.
pub open spec fn profile_text(fs: Seq<FindingView>, home: Option<PathView>) -> Seq<char> {
    let (read, rc) = coalesce_spec(in_order(kind_paths(fs, AccessKind::Read)), home);
    let (write, wc) = coalesce_spec(in_order(kind_paths(fs, AccessKind::Write)), home);
    let (exec, xc) = coalesce_spec(in_order(kind_paths(fs, AccessKind::Execute)), home);
    let connect = kind_ports(fs, AccessKind::Connect);
    let bind = kind_ports(fs, AccessKind::Bind);
    let dirs = interpreter_dirs(fs);
    (if rc || wc || xc { coalesced_note() } else { seq![] })
        + (if skipped_terminal(fs) { terminal_note() } else { seq![] })
        + "[filesystem]\n"@
        + string_array("read"@, texts(read))
        + string_array("write"@, texts(write))
        + string_array("execute"@, texts(exec))
        + network_text(connect, bind)
        + env_text(dirs)
}

/// The network section the ports generate.
pub open spec fn network_text(connect: Set<u16>, bind: Set<u16>) -> Seq<char> {
    if connect != Set::<u16>::empty() || bind != Set::<u16>::empty() {
        "\n[network]\n"@
            + (if connect != Set::<u16>::empty() {
                "egress = \"allow\"\n"@ + "egress_allow = ["@ + joined(rule_texts(port_order(connect)), ", "@) + "]\n"@
            } else {
                seq![]
            })
            + (if bind != Set::<u16>::empty() {
                "bind_ports = ["@ + joined(port_texts(port_order(bind)), ", "@) + "]\n"@
            } else {
                seq![]
            })
    } else {
        seq![]
    }
}

/// The env section the interpreter directories generate.
pub open spec fn env_text(dirs: Set<Seq<char>>) -> Seq<char> {
    if dirs != Set::<Seq<char>>::empty() {
        path_note() + "set = { PATH = \""@ + joined(str_order(dirs).push(sandbox_path_text()), ":"@) + "\" }\n"@
    } else {
        seq![]
    }
}

/// A finding that cannot become a grant (unresolved, or a pseudo-terminal)
/// adds no path, port or interpreter directory to what a profile grants.
pub proof fn law_ungrantable_finding_grants_nothing(fs: Seq<FindingView>, g: FindingView, k: AccessKind)
    requires
        !grantable(g),
    ensures
        kind_paths(fs.push(g), k) == kind_paths(fs, k),
        kind_ports(fs.push(g), k) == kind_ports(fs, k),
        interpreter_dirs(fs.push(g)) == interpreter_dirs(fs),
{
    lemma_push_paths(fs, g, k);
    lemma_push_paths(fs, g, AccessKind::Execute);
    assert forall|port: u16| kind_ports(fs.push(g), k).contains(port) implies kind_ports(fs, k).contains(port) by {
        let i = choose|i: int| 0 <= i < fs.push(g).len() && asks_port(#[trigger] fs.push(g)[i], k, port);
        assert(i < fs.len());
        assert(fs.push(g)[i] == fs[i]);
    }
    assert forall|port: u16| kind_ports(fs, k).contains(port) implies kind_ports(fs.push(g), k).contains(port) by {
        let i = choose|i: int| 0 <= i < fs.len() && asks_port(#[trigger] fs[i], k, port);
        assert(fs.push(g)[i] == fs[i]);
    }
    assert(kind_ports(fs.push(g), k) =~= kind_ports(fs, k));
    assert(interpreter_dirs(fs.push(g)) =~= interpreter_dirs(fs));
}

proof fn lemma_push_paths(fs: Seq<FindingView>, g: FindingView, k: AccessKind)
    requires
        !grantable(g),
    ensures
        kind_paths(fs.push(g), k) == kind_paths(fs, k),
{
    assert forall|p: PathView| kind_paths(fs.push(g), k).contains(p) implies kind_paths(fs, k).contains(p) by {
        let i = choose|i: int| 0 <= i < fs.push(g).len() && grantable(#[trigger] fs.push(g)[i]) && fs.push(g)[i].kind == k
            && fs.push(g)[i].resource == ResourceView::Path(p);
        assert(i < fs.len());
        assert(fs.push(g)[i] == fs[i]);
    }
    assert forall|p: PathView| kind_paths(fs, k).contains(p) implies kind_paths(fs.push(g), k).contains(p) by {
        let i = choose|i: int| 0 <= i < fs.len() && grantable(#[trigger] fs[i]) && fs[i].kind == k
            && fs[i].resource == ResourceView::Path(p);
        assert(fs.push(g)[i] == fs[i]);
    }
    assert(kind_paths(fs.push(g), k) =~= kind_paths(fs, k));
}

/// An unresolved finding changes nothing in a generated profile.
pub proof fn law_unresolved_finding_changes_nothing(fs: Seq<FindingView>, g: FindingView, home: Option<PathView>)
    requires
        g.unresolved,
    ensures
        profile_text(fs.push(g), home) == profile_text(fs, home),
{
    law_ungrantable_finding_grants_nothing(fs, g, AccessKind::Read);
    law_ungrantable_finding_grants_nothing(fs, g, AccessKind::Write);
    law_ungrantable_finding_grants_nothing(fs, g, AccessKind::Execute);
    law_ungrantable_finding_grants_nothing(fs, g, AccessKind::Connect);
    law_ungrantable_finding_grants_nothing(fs, g, AccessKind::Bind);
    assert(skipped_terminal(fs.push(g)) == skipped_terminal(fs)) by {
        if skipped_terminal(fs.push(g)) {
            let i = choose|i: int| 0 <= i < fs.push(g).len() && !fs.push(g)[i].unresolved && is_terminal(#[trigger] fs.push(g)[i]);
            assert(fs.push(g)[i] == fs[i]);
        }
        if skipped_terminal(fs) {
            let i = choose|i: int| 0 <= i < fs.len() && !fs[i].unresolved && is_terminal(#[trigger] fs[i]);
            assert(fs.push(g)[i] == fs[i]);
        }
    }
}

/// A profile is never asked to grant a pseudo-terminal: no path the
/// findings ask for lies beneath `/dev/pts`.
pub proof fn law_no_terminal_is_asked_for(fs: Seq<FindingView>, k: AccessKind, p: PathView)
    requires
        kind_paths(fs, k).contains(p),
    ensures
        !starts_with_spec(p, terminal_dir()),
{
    let i = choose|i: int| 0 <= i < fs.len() && grantable(#[trigger] fs[i]) && fs[i].kind == k
        && fs[i].resource == ResourceView::Path(p);
    assert(!is_terminal(fs[i]));
}

/// The ports of `set` below `n`, in increasing order.
pub open spec fn ports_below(set: Set<u16>, n: nat) -> Seq<u16>
    decreases n,
{
    if n == 0 {
        seq![]
    } else {
        let before = ports_below(set, (n - 1) as nat);
        if n - 1 <= u16::MAX && set.contains((n - 1) as u16) { before.push((n - 1) as u16) } else { before }
    }
}

proof fn lemma_ports_below(set: Set<u16>, n: nat)
    ensures
        forall|i: int, j: int| 0 <= i < j < ports_below(set, n).len() ==> #[trigger] ports_below(set, n)[i] < #[trigger] ports_below(set, n)[j],
        forall|i: int| 0 <= i < ports_below(set, n).len() ==> #[trigger] ports_below(set, n)[i] < n,
        forall|p: u16| ports_below(set, n).contains(p) <==> (set.contains(p) && p < n),
    decreases n,
{
    if n > 0 {
        lemma_ports_below(set, (n - 1) as nat);
        let before = ports_below(set, (n - 1) as nat);
        let now = ports_below(set, n);
        assert forall|p: u16| now.contains(p) <==> (set.contains(p) && p < n) by {
            if now.contains(p) {
                let k = choose|k: int| 0 <= k < now.len() && now[k] == p;
                if k < before.len() {
                    assert(before[k] == p);
                    assert(before.contains(p));
                }
            }
            if set.contains(p) && p < n {
                if p < n - 1 {
                    assert(before.contains(p));
                    let k = choose|k: int| 0 <= k < before.len() && before[k] == p;
                    assert(now[k] == p);
                } else {
                    assert(now[now.len() - 1] == p);
                }
            }
        }
    }
}

/// Every set of ports is listed by `port_order`: in increasing order, each
/// port once.
pub proof fn law_ports_listed_in_order(set: Set<u16>)
    ensures
        lists_ports(port_order(set), set),
{
    lemma_ports_below(set, 65536);
    assert(lists_ports(ports_below(set, 65536), set));
}

/// The network section of a generated profile: present exactly when the
/// findings connected or bound; `egress = "allow"` with one rule per
/// connected port, ascending, exactly when they connected; and the bound
/// ports, ascending, exactly when they bound.
pub proof fn law_profile_network_section(fs: Seq<FindingView>)
    ensures
        ({
            let c = kind_ports(fs, AccessKind::Connect);
            let b = kind_ports(fs, AccessKind::Bind);
            &&& lists_ports(port_order(c), c)
            &&& lists_ports(port_order(b), b)
            &&& network_text(c, b) == if c != Set::<u16>::empty() || b != Set::<u16>::empty() {
                "\n[network]\n"@
                    + (if c != Set::<u16>::empty() {
                    "egress = \"allow\"\n"@ + "egress_allow = ["@ + joined(rule_texts(port_order(c)), ", "@) + "]\n"@
                } else {
                    seq![]
                })
                    + (if b != Set::<u16>::empty() {
                    "bind_ports = ["@ + joined(port_texts(port_order(b)), ", "@) + "]\n"@
                } else {
                    seq![]
                })
            } else {
                seq![]
            }
        }),
{
    law_ports_listed_in_order(kind_ports(fs, AccessKind::Connect));
    law_ports_listed_in_order(kind_ports(fs, AccessKind::Bind));
}

proof fn lemma_kind_paths_finite(fs: Seq<FindingView>, k: AccessKind)
    ensures
        kind_paths(fs, k).finite(),
{
    let ps = fs.map_values(|f: FindingView| match f.resource {
        ResourceView::Path(p) => p,
        ResourceView::Net { .. } => parse_spec(seq![]),
    });
    vstd::seq_lib::seq_to_set_is_finite(ps);
    assert forall|p: PathView| #[trigger] kind_paths(fs, k).contains(p) implies ps.to_set().contains(p) by {
        let i = choose|i: int| 0 <= i < fs.len() && grantable(#[trigger] fs[i]) && fs[i].kind == k
            && fs[i].resource == ResourceView::Path(p);
        assert(ps[i] == p);
    }
    vstd::set_lib::lemma_set_subset_finite(ps.to_set(), kind_paths(fs, k));
}

/// A generated profile never grants a pseudo-terminal: no path of its read,
/// write or execute arrays, coalesced or not, lies beneath `/dev/pts`.
pub proof fn law_profile_grants_no_terminal(fs: Seq<FindingView>, k: AccessKind, home: Option<PathView>, o: PathView)
    requires
        coalesce_spec(in_order(kind_paths(fs, k)), home).0.contains(o),
    ensures
        !starts_with_spec(o, terminal_dir()),
{
    let kp = kind_paths(fs, k);
    lemma_kind_paths_finite(fs, k);
    lemma_in_order(kp);
    law_coalesce_only_widens_given_paths(in_order(kp), home, o);
    let i = choose|i: int| 0 <= i < in_order(kp).len() && starts_with_spec(#[trigger] in_order(kp)[i], o);
    let x = in_order(kp)[i];
    assert(in_order(kp).contains(x));
    law_no_terminal_is_asked_for(fs, k, x);
    if starts_with_spec(o, terminal_dir()) {
        lemma_starts_with_trans(x, o, terminal_dir());
    }
}

/// A generated profile grants the home directory, or a directory above it,
/// only where a finding asked for that very path: files of the home
/// directory are never coalesced into a grant of the home directory.
pub proof fn law_profile_never_widens_to_home(fs: Seq<FindingView>, k: AccessKind, h: PathView, o: PathView)
    requires
        coalesce_spec(in_order(kind_paths(fs, k)), Some(h)).0.contains(o),
        starts_with_spec(h, o),
    ensures
        kind_paths(fs, k).contains(o),
{
    let kp = kind_paths(fs, k);
    lemma_kind_paths_finite(fs, k);
    lemma_in_order(kp);
    let t = in_order(kp);
    assert forall|i: int, j: int| 0 <= i < j < t.len() implies #[trigger] t[i] != #[trigger] t[j] by {
        lemma_path_lt_irreflexive(t[i]);
    }
    if !t.contains(o) {
        law_home_is_never_coalesced(t, h, o);
    }
}

/// Two sequences that list the same set of strings in order are the same.
pub proof fn lemma_lists_strs_unique(a: Seq<Seq<char>>, b: Seq<Seq<char>>, set: Set<Seq<char>>)
    requires
        lists_strs(a, set),
        lists_strs(b, set),
    ensures
        a == b,
    decreases a.len(),
{
    if a.len() == 0 {
        if b.len() > 0 {
            assert(set.contains(b[0]));
            assert(a.contains(b[0]));
        }
        assert(a =~= b);
    } else {
        assert(b.contains(a[0]));
        assert(a.contains(b[0]));
        let k = choose|k: int| 0 <= k < b.len() && b[k] == a[0];
        let m = choose|m: int| 0 <= m < a.len() && a[m] == b[0];
        if k > 0 {
            assert(str_lt(b[0], b[k]));
            if m > 0 {
                assert(str_lt(a[0], a[m]));
                lemma_str_lt_transitive(a[0], b[0], a[0]);
            }
            lemma_str_lt_irreflexive(a[0]);
        }
        let rest = set.remove(a[0]);
        let a1 = a.drop_first();
        let b1 = b.drop_first();
        assert forall|p: Seq<char>| a1.contains(p) <==> rest.contains(p) by {
            if a1.contains(p) {
                let j = choose|j: int| 0 <= j < a1.len() && a1[j] == p;
                assert(a[j + 1] == p);
                assert(str_lt(a[0], a[j + 1]));
                if p == a[0] {
                    lemma_str_lt_irreflexive(p);
                }
            }
            if rest.contains(p) {
                assert(a.contains(p));
                let j = choose|j: int| 0 <= j < a.len() && a[j] == p;
                assert(a1[j - 1] == p);
            }
        }
        assert forall|p: Seq<char>| b1.contains(p) <==> rest.contains(p) by {
            if b1.contains(p) {
                let j = choose|j: int| 0 <= j < b1.len() && b1[j] == p;
                assert(b[j + 1] == p);
                assert(str_lt(b[0], b[j + 1]));
                if p == b[0] {
                    lemma_str_lt_irreflexive(p);
                }
            }
            if rest.contains(p) {
                assert(b.contains(p));
                let j = choose|j: int| 0 <= j < b.len() && b[j] == p;
                assert(b1[j - 1] == p);
            }
        }
        assert forall|i: int, j: int| 0 <= i < j < a1.len() implies str_lt(#[trigger] a1[i], #[trigger] a1[j]) by {
            assert(a1[i] == a[i + 1] && a1[j] == a[j + 1]);
        }
        assert forall|i: int, j: int| 0 <= i < j < b1.len() implies str_lt(#[trigger] b1[i], #[trigger] b1[j]) by {
            assert(b1[i] == b[i + 1] && b1[j] == b[j + 1]);
        }
        lemma_lists_strs_unique(a1, b1, rest);
        assert(a =~= seq![a[0]] + a1);
        assert(b =~= seq![b[0]] + b1);
    }
}

/// Two sequences that list the same set of ports in order are the same.
pub proof fn lemma_lists_ports_unique(a: Seq<u16>, b: Seq<u16>, set: Set<u16>)
    requires
        lists_ports(a, set),
        lists_ports(b, set),
    ensures
        a == b,
    decreases a.len(),
{
    if a.len() == 0 {
        if b.len() > 0 {
            assert(set.contains(b[0]));
            assert(a.contains(b[0]));
        }
        assert(a =~= b);
    } else {
        assert(b.contains(a[0]));
        assert(a.contains(b[0]));
        let k = choose|k: int| 0 <= k < b.len() && b[k] == a[0];
        let m = choose|m: int| 0 <= m < a.len() && a[m] == b[0];
        if k > 0 {
            assert(b[0] < b[k]);
            if m > 0 {
                assert(a[0] < a[m]);
            }
        }
        let rest = set.remove(a[0]);
        let a1 = a.drop_first();
        let b1 = b.drop_first();
        assert forall|p: u16| a1.contains(p) <==> rest.contains(p) by {
            if a1.contains(p) {
                let j = choose|j: int| 0 <= j < a1.len() && a1[j] == p;
                assert(a[j + 1] == p);
                assert(a[0] < a[j + 1]);
            }
            if rest.contains(p) {
                assert(a.contains(p));
                let j = choose|j: int| 0 <= j < a.len() && a[j] == p;
                assert(a1[j - 1] == p);
            }
        }
        assert forall|p: u16| b1.contains(p) <==> rest.contains(p) by {
            if b1.contains(p) {
                let j = choose|j: int| 0 <= j < b1.len() && b1[j] == p;
                assert(b[j + 1] == p);
                assert(b[0] < b[j + 1]);
            }
            if rest.contains(p) {
                assert(b.contains(p));
                let j = choose|j: int| 0 <= j < b.len() && b[j] == p;
                assert(b1[j - 1] == p);
            }
        }
        assert forall|i: int, j: int| 0 <= i < j < a1.len() implies #[trigger] a1[i] < #[trigger] a1[j] by {
            assert(a1[i] == a[i + 1] && a1[j] == a[j + 1]);
        }
        assert forall|i: int, j: int| 0 <= i < j < b1.len() implies #[trigger] b1[i] < #[trigger] b1[j] by {
            assert(b1[i] == b[i + 1] && b1[j] == b[j + 1]);
        }
        lemma_lists_ports_unique(a1, b1, rest);
        assert(a =~= seq![a[0]] + a1);
        assert(b =~= seq![b[0]] + b1);
    }
}

/// Adds `p` to a strictly increasing list of ports.
#[verifier::spinoff_prover]
fn insert_port(v: &mut Vec<u16>, p: u16)
    requires
        forall|i: int, j: int| 0 <= i < j < old(v)@.len() ==> #[trigger] old(v)@[i] < #[trigger] old(v)@[j],
    ensures
        forall|i: int, j: int| 0 <= i < j < final(v)@.len() ==> #[trigger] final(v)@[i] < #[trigger] final(v)@[j],
        forall|q: u16| final(v)@.contains(q) <==> (old(v)@.contains(q) || q == p),
{
    let mut k: usize = 0;
    while k < v.len() && v[k] < p
        invariant
            k <= v@.len(),
            forall|i: int| 0 <= i < k ==> v@[i] < p,
        decreases v@.len() - k,
    {
        k = k + 1;
    }
    if k < v.len() && v[k] == p {
        return;
    }
    let ghost before = v@;
    v.insert(k, p);
    assert(v@ =~= before.subrange(0, k as int).push(p) + before.subrange(k as int, before.len() as int));
    assert forall|q: u16| v@.contains(q) <==> (before.contains(q) || q == p) by {
        if v@.contains(q) {
            let j = choose|j: int| 0 <= j < v@.len() && v@[j] == q;
            if j < k {
                assert(before[j] == q);
            } else if j > k {
                assert(before[j - 1] == q);
            }
        }
        if before.contains(q) {
            let j = choose|j: int| 0 <= j < before.len() && before[j] == q;
            if j < k {
                assert(v@[j] == q);
            } else {
                assert(v@[j + 1] == q);
            }
        }
        if q == p {
            assert(v@[k as int] == q);
        }
    }
    assert forall|i: int, j: int| 0 <= i < j < v@.len() implies #[trigger] v@[i] < #[trigger] v@[j] by {
        if j < k {
        } else if i < k && j == k {
        } else if i < k {
            assert(v@[j] == before[j - 1]);
        } else if i == k {
            assert(v@[j] == before[j - 1]);
            assert(before[k as int] > p);
            if j - 1 > k {
                assert(before[k as int] < before[j - 1]);
            }
        } else {
            assert(v@[i] == before[i - 1] && v@[j] == before[j - 1]);
        }
    }
}

/// What the findings ask for, gathered by kind.
pub struct Wanted {
    pub read: PathMap<()>,
    pub write: PathMap<()>,
    pub execute: PathMap<()>,
    pub connect: Vec<u16>,
    pub bind: Vec<u16>,
    pub skipped_terminal: bool,
}

/// Gathers what the findings ask for.
fn wanted(findings: &Vec<Finding>) -> (w: Wanted)
    ensures
        w.read.wf() && w.write.wf() && w.execute.wf(),
        w.read.map().dom() == kind_paths(crate::reconcile::findings_view(findings@), AccessKind::Read),
        w.write.map().dom() == kind_paths(crate::reconcile::findings_view(findings@), AccessKind::Write),
        w.execute.map().dom() == kind_paths(crate::reconcile::findings_view(findings@), AccessKind::Execute),
        lists_ports(w.connect@, kind_ports(crate::reconcile::findings_view(findings@), AccessKind::Connect)),
        lists_ports(w.bind@, kind_ports(crate::reconcile::findings_view(findings@), AccessKind::Bind)),
        w.skipped_terminal == skipped_terminal(crate::reconcile::findings_view(findings@)),
{
    let ghost fs = crate::reconcile::findings_view(findings@);
    let pts = PathBuf::parse("/dev/pts");
    let mut w = Wanted {
        read: PathMap::new(),
        write: PathMap::new(),
        execute: PathMap::new(),
        connect: Vec::new(),
        bind: Vec::new(),
        skipped_terminal: false,
    };
    let mut i: usize = 0;
    while i < findings.len()
        invariant
            i <= fs.len(),
            fs == crate::reconcile::findings_view(findings@),
            pts@ == terminal_dir(),
            w.read.wf() && w.write.wf() && w.execute.wf(),
            w.read.map().dom() == kind_paths(fs.subrange(0, i as int), AccessKind::Read),
            w.write.map().dom() == kind_paths(fs.subrange(0, i as int), AccessKind::Write),
            w.execute.map().dom() == kind_paths(fs.subrange(0, i as int), AccessKind::Execute),
            lists_ports(w.connect@, kind_ports(fs.subrange(0, i as int), AccessKind::Connect)),
            lists_ports(w.bind@, kind_ports(fs.subrange(0, i as int), AccessKind::Bind)),
            w.skipped_terminal == skipped_terminal(fs.subrange(0, i as int)),
        decreases fs.len() - i,
    {
        let f = &findings[i];
        let ghost now = fs.subrange(0, i + 1);
        let ghost was = fs.subrange(0, i as int);
        assert(now =~= was.push(f@));
        assert(fs[i as int] == f@);
        if !f.unresolved {
            let terminal = match &f.resource {
                Resource::Path(p) => p.starts_with(&pts),
                _ => false,
            };
            if terminal {
                w.skipped_terminal = true;
            } else {
                match (&f.kind, &f.resource) {
                    (AccessKind::Read, Resource::Path(p)) => w.read.insert(p.duplicate(), ()),
                    (AccessKind::Write, Resource::Path(p)) => w.write.insert(p.duplicate(), ()),
                    (AccessKind::Execute, Resource::Path(p)) => w.execute.insert(p.duplicate(), ()),
                    (AccessKind::Connect, Resource::Net { port, .. }) => insert_port(&mut w.connect, *port),
                    (AccessKind::Bind, Resource::Net { port, .. }) => insert_port(&mut w.bind, *port),
                    _ => {},
                }
            }
        }
        i = i + 1;
        proof {
            lemma_wanted_step(was, f@);
            assert(w.read.map().dom() =~= kind_paths(now, AccessKind::Read));
            assert(w.write.map().dom() =~= kind_paths(now, AccessKind::Write));
            assert(w.execute.map().dom() =~= kind_paths(now, AccessKind::Execute));
        }
    }
    assert(fs.subrange(0, fs.len() as int) =~= fs);
    w
}

/// What one more finding adds to what the ones before it asked for.
proof fn lemma_wanted_step(was: Seq<FindingView>, f: FindingView)
    ensures
        ({
            let now = was.push(f);
            &&& forall|k: AccessKind, p: PathView| #[trigger] kind_paths(now, k).contains(p) <==> (kind_paths(was, k).contains(p)
                || (grantable(f) && f.kind == k && f.resource == ResourceView::Path(p)))
            &&& forall|k: AccessKind, q: u16| #[trigger] kind_ports(now, k).contains(q) <==> (kind_ports(was, k).contains(q)
                || asks_port(f, k, q))
            &&& skipped_terminal(now) == (skipped_terminal(was) || (!f.unresolved && is_terminal(f)))
        }),
{
    let now = was.push(f);
    assert forall|k: AccessKind, p: PathView| #[trigger] kind_paths(now, k).contains(p) <==> (kind_paths(was, k).contains(p)
        || (grantable(f) && f.kind == k && f.resource == ResourceView::Path(p))) by {
        if kind_paths(now, k).contains(p) {
            let i = choose|i: int| 0 <= i < now.len() && grantable(#[trigger] now[i]) && now[i].kind == k
                && now[i].resource == ResourceView::Path(p);
            if i < was.len() {
                assert(was[i] == now[i]);
            }
        }
        if kind_paths(was, k).contains(p) {
            let i = choose|i: int| 0 <= i < was.len() && grantable(#[trigger] was[i]) && was[i].kind == k
                && was[i].resource == ResourceView::Path(p);
            assert(now[i] == was[i]);
        }
        if grantable(f) && f.kind == k && f.resource == ResourceView::Path(p) {
            assert(now[was.len() as int] == f);
        }
    }
    assert forall|k: AccessKind, q: u16| #[trigger] kind_ports(now, k).contains(q) <==> (kind_ports(was, k).contains(q)
        || asks_port(f, k, q)) by {
        if kind_ports(now, k).contains(q) {
            let i = choose|i: int| 0 <= i < now.len() && asks_port(#[trigger] now[i], k, q);
            if i < was.len() {
                assert(was[i] == now[i]);
            }
        }
        if kind_ports(was, k).contains(q) {
            let i = choose|i: int| 0 <= i < was.len() && asks_port(#[trigger] was[i], k, q);
            assert(now[i] == was[i]);
        }
        if asks_port(f, k, q) {
            assert(now[was.len() as int] == f);
        }
    }
    if skipped_terminal(now) {
        let i = choose|i: int| 0 <= i < now.len() && !now[i].unresolved && is_terminal(#[trigger] now[i]);
        if i < was.len() {
            assert(was[i] == now[i]);
        }
    }
    if skipped_terminal(was) {
        let i = choose|i: int| 0 <= i < was.len() && !was[i].unresolved && is_terminal(#[trigger] was[i]);
        assert(now[i] == was[i]);
    }
    if !f.unresolved && is_terminal(f) {
        assert(now[was.len() as int] == f);
    }
}

/// The names of a string set, in order.
pub open spec fn name_seq(m: StrMap<()>) -> Seq<Seq<char>> {
    m.seq().map_values(|e: (Seq<char>, ())| e.0)
}

proof fn lemma_name_seq_lists(m: StrMap<()>)
    requires
        m.wf(),
    ensures
        lists_strs(name_seq(m), m.map().dom()),
        name_seq(m) == str_order(m.map().dom()),
{
    m.lemma_wf();
    let s = m.seq();
    let ns = name_seq(m);
    assert forall|t: Seq<char>| ns.contains(t) <==> m.map().dom().contains(t) by {
        if ns.contains(t) {
            let i = choose|i: int| 0 <= i < ns.len() && ns[i] == t;
            assert(s[i].0 == t);
            assert(has_name(s, t));
        }
        if m.map().dom().contains(t) {
            assert(has_name(s, t));
            let i = choose|i: int| 0 <= i < s.len() && #[trigger] s[i].0 == t;
            assert(ns[i] == t);
        }
    }
    assert forall|i: int, j: int| 0 <= i < j < ns.len() implies str_lt(#[trigger] ns[i], #[trigger] ns[j]) by {
        assert(ns[i] == s[i].0 && ns[j] == s[j].0);
    }
    assert(lists_strs(ns, m.map().dom()));
    assert(lists_strs(str_order(m.map().dom()), m.map().dom()));
    lemma_lists_strs_unique(ns, str_order(m.map().dom()), m.map().dom());
}

/// The texts of a set of paths, as a string set.
fn texts_of(set: &PathMap<()>) -> (r: StrMap<()>)
    requires
        set.wf(),
    ensures
        r.wf(),
        r.map().dom() == texts(set.map().dom()),
{
    let ghost ks = key_seq(*set);
    proof {
        lemma_key_seq_lists(*set);
    }
    let mut r: StrMap<()> = StrMap::new();
    let mut i: usize = 0;
    while i < set.len()
        invariant
            i <= ks.len(),
            ks == key_seq(*set),
            ks.len() == set.seq().len(),
            r.wf(),
            forall|t: Seq<char>| #[trigger] r.map().dom().contains(t) <==> exists|j: int| 0 <= j < i && render(#[trigger] ks[j]) == t,
        decreases ks.len() - i,
    {
        let p = set.key_at(i);
        assert(ks[i as int] == p@);
        r.insert(p.display(), ());
        i = i + 1;
    }
    proof {
        assert forall|t: Seq<char>| r.map().dom().contains(t) <==> texts(set.map().dom()).contains(t) by {
            if r.map().dom().contains(t) {
                let j = choose|j: int| 0 <= j < ks.len() && render(#[trigger] ks[j]) == t;
                assert(ks.contains(ks[j]));
            }
            if texts(set.map().dom()).contains(t) {
                let p = choose|p: PathView| set.map().dom().contains(p) && #[trigger] render(p) == t;
                assert(ks.contains(p));
                let j = choose|j: int| 0 <= j < ks.len() && ks[j] == p;
                assert(render(ks[j]) == t);
            }
        }
        assert(r.map().dom() =~= texts(set.map().dom()));
    }
    r
}

/// The directories programs were executed from, outside the sandbox
/// `PATH`, as a string set.
fn dirs_of(execute: &PathMap<()>) -> (r: StrMap<()>)
    requires
        execute.wf(),
    ensures
        r.wf(),
        forall|t: Seq<char>| #[trigger] r.map().dom().contains(t) <==> exists|p: PathView, d: PathView|
            #[trigger] execute.map().dom().contains(p) && parent_spec(p) == Some(d) && !sandbox_dirs().contains(d)
                && #[trigger] render(d) == t,
{
    let ghost ks = key_seq(*execute);
    proof {
        lemma_key_seq_lists(*execute);
    }
    let known = vec![PathBuf::parse("/usr/local/bin"), PathBuf::parse("/usr/bin"), PathBuf::parse("/bin")];
    assert(crate::policy::paths_view(known@) =~= sandbox_dirs());
    let mut r: StrMap<()> = StrMap::new();
    let mut i: usize = 0;
    while i < execute.len()
        invariant
            i <= ks.len(),
            ks == key_seq(*execute),
            ks.len() == execute.seq().len(),
            crate::policy::paths_view(known@) == sandbox_dirs(),
            r.wf(),
            forall|t: Seq<char>| #[trigger] r.map().dom().contains(t) <==> exists|j: int, d: PathView| 0 <= j < i
                && parent_spec(#[trigger] ks[j]) == Some(d) && !sandbox_dirs().contains(d) && #[trigger] render(d) == t,
        decreases ks.len() - i,
    {
        let p = execute.key_at(i);
        assert(ks[i as int] == p@);
        match p.parent() {
            None => {},
            Some(d) => {
                let mut in_path = false;
                let mut k: usize = 0;
                while k < known.len()
                    invariant
                        k <= known@.len(),
                        crate::policy::paths_view(known@) == sandbox_dirs(),
                        in_path == exists|m: int| 0 <= m < k && #[trigger] sandbox_dirs()[m] == d@,
                    decreases known@.len() - k,
                {
                    assert(sandbox_dirs()[k as int] == known@[k as int]@);
                    if known[k].same(&d) {
                        in_path = true;
                    }
                    k = k + 1;
                }
                if !in_path {
                    let ghost dv = d@;
                    r.insert(d.display(), ());
                    assert(parent_spec(ks[i as int]) == Some(dv) && !sandbox_dirs().contains(dv));
                }
            },
        }
        i = i + 1;
    }
    proof {
        let dom = execute.map().dom();
        assert forall|t: Seq<char>| #[trigger] r.map().dom().contains(t) <==> exists|p: PathView, d: PathView|
            #[trigger] dom.contains(p) && parent_spec(p) == Some(d) && !sandbox_dirs().contains(d) && #[trigger] render(d) == t by {
            if r.map().dom().contains(t) {
                let (j, d) = choose|j: int, d: PathView| 0 <= j < ks.len() && parent_spec(#[trigger] ks[j]) == Some(d)
                    && !sandbox_dirs().contains(d) && #[trigger] render(d) == t;
                assert(ks.contains(ks[j]));
                assert(dom.contains(ks[j]));
            }
            if exists|p: PathView, d: PathView| #[trigger] dom.contains(p) && parent_spec(p) == Some(d) && !sandbox_dirs().contains(d)
                && #[trigger] render(d) == t {
                let (p, d) = choose|p: PathView, d: PathView| #[trigger] dom.contains(p) && parent_spec(p) == Some(d)
                    && !sandbox_dirs().contains(d) && #[trigger] render(d) == t;
                assert(ks.contains(p));
                let j = choose|j: int| 0 <= j < ks.len() && ks[j] == p;
                assert(parent_spec(ks[j]) == Some(d));
            }
        }
    }
    r
}

/// Appends `items` separated by `sep`.
pub(crate) fn push_joined(out: &mut Vec<char>, items: &Vec<String>, sep: &str)
    ensures
        final(out)@ == old(out)@ + joined(crate::merge::strs(items@), sep@),
{
    let ghost start = out@;
    let ghost it = crate::merge::strs(items@);
    let mut i: usize = 0;
    assert(it.subrange(0, 0) =~= Seq::<Seq<char>>::empty());
    while i < items.len()
        invariant
            i <= items@.len(),
            it == crate::merge::strs(items@),
            out@ == start + joined(it.subrange(0, i as int), sep@),
        decreases items@.len() - i,
    {
        let ghost now = it.subrange(0, i + 1);
        assert(now.drop_last() =~= it.subrange(0, i as int));
        assert(now.last() == items@[i as int]@);
        if i > 0 {
            push_str(out, sep);
        }
        push_str(out, items[i].as_str());
        i = i + 1;
        proof {
            if i == 1 {
                assert(now.len() == 1);
                assert(joined(now, sep@) == now[0]);
                assert(it.subrange(0, 0) =~= Seq::<Seq<char>>::empty());
            }
            assert(out@ =~= start + joined(it.subrange(0, i as int), sep@));
        }
    }
    assert(it.subrange(0, items@.len() as int) =~= it);
}

/// The names of a string set, in order, each wrapped by `before` and
/// `after`.
fn wrapped_names(m: &StrMap<()>, before: &str, after: &str) -> (r: Vec<String>)
    requires
        m.wf(),
    ensures
        crate::merge::strs(r@) == name_seq(*m).map_values(|t: Seq<char>| before@ + t + after@),
{
    let mut r: Vec<String> = Vec::new();
    let mut i: usize = 0;
    while i < m.len()
        invariant
            i <= m.seq().len(),
            r@.len() == i,
            forall|j: int| 0 <= j < i ==> (#[trigger] r@[j])@ == before@ + m.seq()[j].0 + after@,
        decreases m.seq().len() - i,
    {
        let mut out: Vec<char> = Vec::new();
        push_str(&mut out, before);
        push_str(&mut out, m.key_at(i).as_str());
        push_str(&mut out, after);
        let t = string_of(&out);
        r.push(t);
        i = i + 1;
    }
    assert(crate::merge::strs(r@) =~= name_seq(*m).map_values(|t: Seq<char>| before@ + t + after@));
    r
}

/// Ports, each wrapped by `before` and `after`.
fn wrapped_ports(v: &Vec<u16>, before: &str, after: &str) -> (r: Vec<String>)
    ensures
        crate::merge::strs(r@) == v@.map_values(|p: u16| before@ + decimal(p as nat) + after@),
{
    let mut r: Vec<String> = Vec::new();
    let mut i: usize = 0;
    while i < v.len()
        invariant
            i <= v@.len(),
            r@.len() == i,
            forall|j: int| 0 <= j < i ==> (#[trigger] r@[j])@ == before@ + decimal(v@[j] as nat) + after@,
        decreases v@.len() - i,
    {
        let mut out: Vec<char> = Vec::new();
        push_str(&mut out, before);
        push_decimal(&mut out, v[i] as u64);
        push_str(&mut out, after);
        let t = string_of(&out);
        r.push(t);
        i = i + 1;
    }
    assert(crate::merge::strs(r@) =~= v@.map_values(|p: u16| before@ + decimal(p as nat) + after@));
    r
}

/// Appends the array of strings `m` holds under `key`, if it holds any.
fn push_string_array(out: &mut Vec<char>, key: &str, m: &StrMap<()>)
    requires
        m.wf(),
    ensures
        final(out)@ == old(out)@ + string_array(key@, m.map().dom()),
{
    proof {
        lemma_name_seq_lists(*m);
        m.lemma_wf();
    }
    if m.len() == 0 {
        assert(m.map().dom() =~= Set::<Seq<char>>::empty()) by {
            assert forall|t: Seq<char>| !m.map().dom().contains(t) by {
                if m.map().dom().contains(t) {
                    assert(name_seq(*m).contains(t));
                }
            }
        }
        return;
    }
    assert(m.map().dom() != Set::<Seq<char>>::empty()) by {
        assert(name_seq(*m).contains(name_seq(*m)[0]));
        assert(m.map().dom().contains(name_seq(*m)[0]));
    }
    let items = wrapped_names(m, "\"", "\"");
    assert(name_seq(*m).map_values(|t: Seq<char>| "\""@ + t + "\""@) =~= quote_all(str_order(m.map().dom())));
    push_str(out, key);
    push_str(out, " = [");
    push_joined(out, &items, ", ");
    push_str(out, "]\n");
}

/// Appends the network section the ports generate.
fn push_network(out: &mut Vec<char>, connect: &Vec<u16>, bind: &Vec<u16>, cs: Ghost<Set<u16>>, bs: Ghost<Set<u16>>)
    requires
        lists_ports(connect@, cs@),
        lists_ports(bind@, bs@),
    ensures
        final(out)@ == old(out)@ + network_text(cs@, bs@),
{
    proof {
        reveal_strlit("");
        assert(""@ =~= Seq::<char>::empty());
        assert(lists_ports(port_order(cs@), cs@));
        lemma_lists_ports_unique(connect@, port_order(cs@), cs@);
        assert(lists_ports(port_order(bs@), bs@));
        lemma_lists_ports_unique(bind@, port_order(bs@), bs@);
        if connect@.len() == 0 {
            assert(cs@ =~= Set::<u16>::empty());
        } else {
            assert(cs@.contains(connect@[0]));
        }
        if bind@.len() == 0 {
            assert(bs@ =~= Set::<u16>::empty());
        } else {
            assert(bs@.contains(bind@[0]));
        }
    }
    let ghost start = out@;
    if connect.len() > 0 || bind.len() > 0 {
        push_str(out, "\n[network]\n");
        let ghost mid = out@;
        if connect.len() > 0 {
            push_str(out, "egress = \"allow\"\n");
            push_str(out, "egress_allow = [");
            let rules = wrapped_ports(connect, "{ host = \"*\", port = ", " }");
            assert(connect@.map_values(|p: u16| "{ host = \"*\", port = "@ + decimal(p as nat) + " }"@) =~= rule_texts(port_order(cs@)));
            push_joined(out, &rules, ", ");
            push_str(out, "]\n");
        }
        let ghost mid2 = out@;
        if bind.len() > 0 {
            push_str(out, "bind_ports = [");
            let ports = wrapped_ports(bind, "", "");
            assert(bind@.map_values(|p: u16| ""@ + decimal(p as nat) + ""@) =~= port_texts(port_order(bs@)));
            push_joined(out, &ports, ", ");
            push_str(out, "]\n");
        }
        assert(out@ =~= start + network_text(cs@, bs@));
    } else {
        assert(out@ =~= start + network_text(cs@, bs@));
    }
}

/// Appends the env section the interpreter directories generate.
fn push_env(out: &mut Vec<char>, dirs: &StrMap<()>)
    requires
        dirs.wf(),
    ensures
        final(out)@ == old(out)@ + env_text(dirs.map().dom()),
{
    proof {
        reveal_strlit("");
        assert(""@ =~= Seq::<char>::empty());
        dirs.lemma_wf();
        lemma_name_seq_lists(*dirs);
    }
    if dirs.len() > 0 {
        assert(name_seq(*dirs).len() > 0);
        assert(dirs.map().dom().contains(name_seq(*dirs)[0]));
        push_str(
            out,
            "\n# Where the programs this ran were found. Without this they are not\n# on PATH inside the sandbox, and a `#!/usr/bin/env` line finds\n# nothing. The rest of the environment is never generated.\n[env]\n",
        );
        push_str(out, "set = { PATH = \"");
        let mut parts = wrapped_names(dirs, "", "");
        assert(crate::merge::strs(parts@) =~= name_seq(*dirs));
        let ghost before = crate::merge::strs(parts@);
        parts.push(crate::text::owned("/usr/local/bin:/usr/bin:/bin"));
        assert(crate::merge::strs(parts@) =~= before.push(sandbox_path_text()));
        push_joined(out, &parts, ":");
        push_str(out, "\" }\n");
    } else {
        assert(dirs.map().dom() =~= Set::<Seq<char>>::empty()) by {
            assert forall|t: Seq<char>| !dirs.map().dom().contains(t) by {
                if dirs.map().dom().contains(t) {
                    assert(name_seq(*dirs).contains(t));
                }
            }
        }
    }
}

/// The paths of a set, as a sequence in order, are its in-order listing.
proof fn lemma_key_seq_in_order(m: PathMap<()>)
    requires
        m.wf(),
    ensures
        key_seq(m) == in_order(m.map().dom()),
{
    lemma_key_seq_lists(m);
    assert(lists_set(in_order(m.map().dom()), m.map().dom()));
    lemma_lists_set_unique(key_seq(m), in_order(m.map().dom()), m.map().dom());
}

/// Generates a deny-by-default TOML profile granting exactly `findings`,
/// with many files under one directory coalesced into the directory. The
/// caller decides which findings to include; nothing here is implicit.
/// `env` supplies the home directory, which is never named.
pub fn generate_profile(findings: &Vec<Finding>, env: &HostEnv) -> (r: String)
    ensures
        r@ == profile_text(crate::reconcile::findings_view(findings@), home_dir(*env)),
{
    let ghost fs = crate::reconcile::findings_view(findings@);
    proof {
        reveal_strlit("");
        assert(""@ =~= Seq::<char>::empty());
    }
    let home = match env.var("HOME") {
        Some(h) => Some(PathBuf::parse(h.as_str())),
        None => None,
    };
    assert(crate::merge::opt_path_view(home) == home_dir(*env));
    let w = wanted(findings);
    let dirs = dirs_of(&w.execute);
    assert(dirs.map().dom() =~= interpreter_dirs(fs));
    proof {
        lemma_key_seq_in_order(w.read);
        lemma_key_seq_in_order(w.write);
        lemma_key_seq_in_order(w.execute);
    }
    let (read, rc) = coalesce(w.read, &home);
    let (write, wc) = coalesce(w.write, &home);
    let (exec, xc) = coalesce(w.execute, &home);
    let read_t = texts_of(&read);
    let write_t = texts_of(&write);
    let exec_t = texts_of(&exec);
    let mut out: Vec<char> = Vec::new();
    if rc || wc || xc {
        push_str(
            &mut out,
            "# Directories, where many files under one were used: a grant per file\n# is unreadable, and these are hierarchies. Narrow any that are wider\n# than you want.\n",
        );
    }
    if w.skipped_terminal {
        push_str(
            &mut out,
            "# The terminal is not granted: a pty is named per session, and the\n# sandbox provides the one it was started from.\n",
        );
    }
    push_str(&mut out, "[filesystem]\n");
    push_string_array(&mut out, "read", &read_t);
    push_string_array(&mut out, "write", &write_t);
    push_string_array(&mut out, "execute", &exec_t);
    push_network(&mut out, &w.connect, &w.bind, Ghost(kind_ports(fs, AccessKind::Connect)), Ghost(kind_ports(fs, AccessKind::Bind)));
    push_env(&mut out, &dirs);
    let r = string_of(&out);
    assert(r@ =~= profile_text(fs, home_dir(*env)));
    r
}

} // verus!
