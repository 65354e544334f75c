//! Filesystem paths as the policy sees them.
//!
//! A path is held by its components: whether it is rooted, and the names
//! below the root. Two spellings of one path (`/a//b`, `/a/./b/`) are the same
//! value, which is what makes a path usable as a key when config layers merge.
//! Equality, `starts_with` and ordering are component-wise, as for the
//! standard library's paths.

use vstd::prelude::*;
use vstd::string::*;

use crate::text::{chars_of, lemma_str_lt_irreflexive, lemma_str_lt_total, lemma_str_lt_transitive, push_all, str_lt, string_less, string_of};

verus! {

/// A path: rooted or relative, with its components in order.
#[derive(Debug, Clone, PartialEq, Eq, Hash)]
pub struct PathBuf {
    /// Whether the path starts at the root.
    pub absolute: bool,
    /// The components below the root (or below the current directory), none
    /// of them empty or `.`.
    pub parts: Vec<String>,
}

/// The mathematical value of a path.
pub struct PathView {
    pub absolute: bool,
    pub parts: Seq<Seq<char>>,
}

impl View for PathBuf {
    type V = PathView;

    open spec fn view(&self) -> PathView {
        PathView { absolute: self.absolute, parts: self.parts.deep_view() }
    }
}

/// Adds the segment read so far to the finished components, unless it is
/// empty or `.`, which name nothing.
pub open spec fn flush(done: Seq<Seq<char>>, cur: Seq<char>) -> Seq<Seq<char>> {
    if cur.len() == 0 || cur == seq!['.'] {
        done
    } else {
        done.push(cur)
    }
}

/// Splitting a path's text from the left: the finished components and the
/// segment being read.
pub open spec fn split_state(p: Seq<char>) -> (Seq<Seq<char>>, Seq<char>)
    decreases p.len(),
{
    if p.len() == 0 {
        (seq![], seq![])
    } else {
        let (done, cur) = split_state(p.drop_last());
        if p.last() == '/' {
            (flush(done, cur), seq![])
        } else {
            (done, cur.push(p.last()))
        }
    }
}

/// The components of a path's text.
pub open spec fn components(p: Seq<char>) -> Seq<Seq<char>> {
    let (done, cur) = split_state(p);
    flush(done, cur)
}

/// The path a text names.
pub open spec fn parse_spec(p: Seq<char>) -> PathView {
    PathView { absolute: p.len() > 0 && p[0] == '/', parts: components(p) }
}

/// Components joined by `/`.
pub open spec fn join_parts(parts: Seq<Seq<char>>) -> Seq<char>
    decreases parts.len(),
{
    if parts.len() == 0 {
        seq![]
    } else if parts.len() == 1 {
        parts[0]
    } else {
        join_parts(parts.drop_last()) + seq!['/'] + parts.last()
    }
}

/// The canonical text of a path.
pub open spec fn render(v: PathView) -> Seq<char> {
    if v.absolute {
        seq!['/'] + join_parts(v.parts)
    } else {
        join_parts(v.parts)
    }
}

/// Whether `base`'s components are a prefix of `p`'s. The empty path is a
/// prefix of every path.
pub open spec fn starts_with_spec(p: PathView, base: PathView) -> bool {
    ||| (!base.absolute && base.parts.len() == 0)
    ||| (p.absolute == base.absolute && base.parts.len() <= p.parts.len()
        && p.parts.subrange(0, base.parts.len() as int) == base.parts)
}

/// `rel` placed under `base`; an absolute `rel` replaces `base`.
pub open spec fn join_spec(base: PathView, rel: PathView) -> PathView {
    if rel.absolute {
        rel
    } else {
        PathView { absolute: base.absolute, parts: base.parts + rel.parts }
    }
}

/// Components with `.` and `..` collapsed lexically: a `.` names nothing and
/// goes; a `..` removes the name before it; with no name before it, it is dropped at the root of an
/// absolute path and kept in a relative one.
pub open spec fn normalize_parts(parts: Seq<Seq<char>>, absolute: bool) -> Seq<Seq<char>>
    decreases parts.len(),
{
    if parts.len() == 0 {
        seq![]
    } else {
        let before = normalize_parts(parts.drop_last(), absolute);
        if parts.last() == seq!['.'] {
            before
        } else if parts.last() == seq!['.', '.'] {
            if before.len() > 0 && before.last() != seq!['.', '.'] {
                before.drop_last()
            } else if absolute {
                before
            } else {
                before.push(parts.last())
            }
        } else {
            before.push(parts.last())
        }
    }
}

pub open spec fn normalize_spec(p: PathView) -> PathView {
    PathView { absolute: p.absolute, parts: normalize_parts(p.parts, p.absolute) }
}

/// A normalized absolute path holds no `.` and no `..`, and normalizing it
/// again changes nothing.
pub proof fn law_normalize_absolute(parts: Seq<Seq<char>>)
    ensures
        forall|i: int| 0 <= i < normalize_parts(parts, true).len() ==> #[trigger] normalize_parts(parts, true)[i] != seq!['.', '.']
            && normalize_parts(parts, true)[i] != seq!['.'],
        normalize_parts(normalize_parts(parts, true), true) == normalize_parts(parts, true),
    decreases parts.len(),
{
    if parts.len() > 0 {
        law_normalize_absolute(parts.drop_last());
    }
    lemma_normalize_clean(normalize_parts(parts, true));
}

/// Normalizing components that hold no `.` or `..` keeps them as they are.
proof fn lemma_normalize_clean(parts: Seq<Seq<char>>)
    requires
        forall|i: int| 0 <= i < parts.len() ==> #[trigger] parts[i] != seq!['.', '.'] && parts[i] != seq!['.'],
    ensures
        normalize_parts(parts, true) == parts,
    decreases parts.len(),
{
    if parts.len() > 0 {
        lemma_normalize_clean(parts.drop_last());
        assert(parts.drop_last().push(parts.last()) =~= parts);
    }
}

/// The path without its last component, if it has one.
pub open spec fn parent_spec(p: PathView) -> Option<PathView> {
    if p.parts.len() == 0 {
        None
    } else {
        Some(PathView { absolute: p.absolute, parts: p.parts.drop_last() })
    }
}

/// The last component, unless there is none or it is `..`.
pub open spec fn file_name_spec(p: PathView) -> Option<Seq<char>> {
    if p.parts.len() == 0 || p.parts.last() == seq!['.', '.'] {
        None
    } else {
        Some(p.parts.last())
    }
}

/// Order on components: `..` first, then names by code point.
pub open spec fn part_lt(a: Seq<char>, b: Seq<char>) -> bool {
    if a == seq!['.', '.'] {
        b != seq!['.', '.']
    } else if b == seq!['.', '.'] {
        false
    } else {
        str_lt(a, b)
    }
}

/// Lexicographic order on component sequences.
pub open spec fn parts_lt(a: Seq<Seq<char>>, b: Seq<Seq<char>>) -> bool
    decreases a.len(),
{
    if b.len() == 0 {
        false
    } else if a.len() == 0 {
        true
    } else if part_lt(a[0], b[0]) {
        true
    } else if a[0] == b[0] {
        parts_lt(a.drop_first(), b.drop_first())
    } else {
        false
    }
}

/// The order paths sort in: component by component, the root before any
/// name, and the empty path first of all.
pub open spec fn path_lt(a: PathView, b: PathView) -> bool {
    if a.absolute == b.absolute {
        parts_lt(a.parts, b.parts)
    } else if a.absolute {
        b.parts.len() > 0
    } else {
        a.parts.len() == 0
    }
}

pub proof fn lemma_part_lt_irreflexive(a: Seq<char>)
    ensures
        !part_lt(a, a),
{
    lemma_str_lt_irreflexive(a);
}

pub proof fn lemma_part_lt_transitive(a: Seq<char>, b: Seq<char>, c: Seq<char>)
    requires
        part_lt(a, b),
        part_lt(b, c),
    ensures
        part_lt(a, c),
{
    if a != seq!['.', '.'] && b != seq!['.', '.'] && c != seq!['.', '.'] {
        lemma_str_lt_transitive(a, b, c);
    }
}

pub proof fn lemma_part_lt_total(a: Seq<char>, b: Seq<char>)
    ensures
        a == b || part_lt(a, b) || part_lt(b, a),
{
    lemma_str_lt_total(a, b);
}

pub proof fn lemma_parts_lt_irreflexive(a: Seq<Seq<char>>)
    ensures
        !parts_lt(a, a),
    decreases a.len(),
{
    if a.len() > 0 {
        lemma_part_lt_irreflexive(a[0]);
        lemma_parts_lt_irreflexive(a.drop_first());
    }
}

pub proof fn lemma_parts_lt_transitive(a: Seq<Seq<char>>, b: Seq<Seq<char>>, c: Seq<Seq<char>>)
    requires
        parts_lt(a, b),
        parts_lt(b, c),
    ensures
        parts_lt(a, c),
    decreases a.len(),
{
    if a.len() > 0 && b.len() > 0 && c.len() > 0 {
        if part_lt(a[0], b[0]) && part_lt(b[0], c[0]) {
            lemma_part_lt_transitive(a[0], b[0], c[0]);
        } else if a[0] == b[0] && b[0] == c[0] {
            lemma_parts_lt_transitive(a.drop_first(), b.drop_first(), c.drop_first());
        }
    }
}

pub proof fn lemma_parts_lt_total(a: Seq<Seq<char>>, b: Seq<Seq<char>>)
    ensures
        a == b || parts_lt(a, b) || parts_lt(b, a),
    decreases a.len(),
{
    if a.len() > 0 && b.len() > 0 {
        lemma_part_lt_total(a[0], b[0]);
        if a[0] == b[0] {
            lemma_parts_lt_total(a.drop_first(), b.drop_first());
            if a.drop_first() == b.drop_first() {
                assert(a =~= seq![a[0]] + a.drop_first());
                assert(b =~= seq![b[0]] + b.drop_first());
            }
        }
    } else if a.len() == 0 && b.len() == 0 {
        assert(a =~= b);
    }
}

pub proof fn lemma_path_lt_irreflexive(a: PathView)
    ensures
        !path_lt(a, a),
{
    lemma_parts_lt_irreflexive(a.parts);
}

pub proof fn lemma_path_lt_transitive(a: PathView, b: PathView, c: PathView)
    requires
        path_lt(a, b),
        path_lt(b, c),
    ensures
        path_lt(a, c),
{
    if a.absolute == b.absolute && b.absolute == c.absolute {
        lemma_parts_lt_transitive(a.parts, b.parts, c.parts);
    }
}

pub proof fn lemma_path_lt_total(a: PathView, b: PathView)
    ensures
        a == b || path_lt(a, b) || path_lt(b, a),
{
    lemma_parts_lt_total(a.parts, b.parts);
}

fn is_dot(s: &String) -> (r: bool)
    ensures
        r == (s@ == seq!['.']),
{
    let cs = chars_of(s.as_str());
    if cs.len() == 1 && cs[0] == '.' {
        assert(s@ =~= seq!['.']);
        true
    } else {
        false
    }
}

fn is_dot_dot(s: &String) -> (r: bool)
    ensures
        r == (s@ == seq!['.', '.']),
{
    let cs = chars_of(s.as_str());
    if cs.len() == 2 && cs[0] == '.' && cs[1] == '.' {
        assert(cs@ =~= seq!['.', '.']);
        true
    } else {
        false
    }
}

fn flush_exec(done: &mut Vec<String>, cur: &Vec<char>)
    ensures
        final(done).deep_view() == flush(old(done).deep_view(), cur@),
{
    if cur.len() == 0 || (cur.len() == 1 && cur[0] == '.') {
        proof {
            if cur.len() == 1 {
                assert(cur@ =~= seq!['.']);
            }
        }
    } else {
        assert(cur@ != seq!['.']);
        let s = string_of(cur);
        let ghost before = done.deep_view();
        done.push(s);
        assert(done.deep_view() =~= before.push(cur@));
    }
}

/// Two-character equality helper used by the component readers.
pub open spec fn is_root_text(p: Seq<char>) -> bool {
    p.len() > 0 && p[0] == '/'
}

impl PathBuf {
    /// The path `text` names. `.` components and repeated separators name
    /// nothing and are dropped; `..` is kept.
    pub fn parse(text: &str) -> (r: PathBuf)
        ensures
            r@ == parse_spec(text@),
    {
        let cs = chars_of(text);
        let mut done: Vec<String> = Vec::new();
        let mut cur: Vec<char> = Vec::new();
        let mut i: usize = 0;
        while i < cs.len()
            invariant
                i <= cs.len(),
                cs@ == text@,
                (done.deep_view(), cur@) == split_state(cs@.subrange(0, i as int)),
            decreases cs.len() - i,
        {
            let c = cs[i];
            let ghost prefix = cs@.subrange(0, i + 1);
            assert(prefix.drop_last() =~= cs@.subrange(0, i as int));
            if c == '/' {
                flush_exec(&mut done, &cur);
                cur = Vec::new();
                assert(cur@ =~= seq![]);
            } else {
                cur.push(c);
            }
            i = i + 1;
        }
        flush_exec(&mut done, &cur);
        assert(cs@.subrange(0, cs.len() as int) =~= cs@);
        let absolute = cs.len() > 0 && cs[0] == '/';
        PathBuf { absolute, parts: done }
    }

    /// An exact copy.
    pub fn duplicate(&self) -> (r: PathBuf)
        ensures
            r@ == self@,
    {
        PathBuf { absolute: self.absolute, parts: copy_strings(&self.parts) }
    }

    /// Whether two paths are the same, component by component.
    pub fn same(&self, other: &PathBuf) -> (r: bool)
        ensures
            r == (self@ == other@),
    {
        if self.absolute != other.absolute || self.parts.len() != other.parts.len() {
            proof {
                if self.parts.len() != other.parts.len() {
                    assert(self@.parts.len() != other@.parts.len());
                }
            }
            return false;
        }
        let mut i: usize = 0;
        while i < self.parts.len()
            invariant
                i <= self.parts.len(),
                self.parts.len() == other.parts.len(),
                forall|j: int| 0 <= j < i ==> self.parts@[j]@ == other.parts@[j]@,
            decreases self.parts.len() - i,
        {
            if self.parts[i] != other.parts[i] {
                assert(self@.parts[i as int] != other@.parts[i as int]);
                return false;
            }
            i = i + 1;
        }
        assert(self@.parts =~= other@.parts);
        true
    }

    /// The canonical text of the path.
    pub fn display(&self) -> (r: String)
        ensures
            r@ == render(self@),
    {
        let mut out: Vec<char> = Vec::new();
        if self.absolute {
            out.push('/');
        }
        let ghost start = out@;
        let mut i: usize = 0;
        while i < self.parts.len()
            invariant
                i <= self.parts.len(),
                out@ == start + join_parts(self@.parts.subrange(0, i as int)),
            decreases self.parts.len() - i,
        {
            let ghost before = out@;
            if i > 0 {
                out.push('/');
            }
            let cs = chars_of(self.parts[i].as_str());
            push_all(&mut out, &cs);
            proof {
                let s = self@.parts.subrange(0, i + 1);
                assert(s.drop_last() =~= self@.parts.subrange(0, i as int));
                if i == 0 {
                    assert(join_parts(self@.parts.subrange(0, 0)) =~= seq![]);
                    assert(out@ =~= start + join_parts(s));
                } else {
                    assert(out@ =~= start + join_parts(s));
                }
            }
            i = i + 1;
        }
        assert(self@.parts.subrange(0, self.parts.len() as int) =~= self@.parts);
        proof {
            if self.absolute {
                assert(out@ =~= render(self@));
            } else {
                assert(out@ =~= render(self@));
            }
        }
        string_of(&out)
    }

    /// Whether `base` is a prefix of this path, component by component.
    pub fn starts_with(&self, base: &PathBuf) -> (r: bool)
        ensures
            r == starts_with_spec(self@, base@),
    {
        if !base.absolute && base.parts.len() == 0 {
            return true;
        }
        if self.absolute != base.absolute || base.parts.len() > self.parts.len() {
            return false;
        }
        let mut i: usize = 0;
        while i < base.parts.len()
            invariant
                i <= base.parts.len(),
                base.parts.len() <= self.parts.len(),
                forall|j: int| 0 <= j < i ==> self.parts@[j]@ == base.parts@[j]@,
            decreases base.parts.len() - i,
        {
            if self.parts[i] != base.parts[i] {
                assert(self@.parts.subrange(0, base@.parts.len() as int)[i as int] != base@.parts[i as int]);
                return false;
            }
            i = i + 1;
        }
        assert(self@.parts.subrange(0, base@.parts.len() as int) =~= base@.parts);
        true
    }

    /// `rel` placed under this path; an absolute `rel` replaces it.
    pub fn join(&self, rel: &PathBuf) -> (r: PathBuf)
        ensures
            r@ == join_spec(self@, rel@),
    {
        if rel.absolute {
            return rel.duplicate();
        }
        let mut parts = copy_strings(&self.parts);
        let ghost start = parts.deep_view();
        let mut i: usize = 0;
        while i < rel.parts.len()
            invariant
                i <= rel.parts.len(),
                parts.deep_view() == start + rel@.parts.subrange(0, i as int),
            decreases rel.parts.len() - i,
        {
            let s = rel.parts[i].clone();
            let ghost before = parts.deep_view();
            parts.push(s);
            assert(parts.deep_view() =~= before.push(rel@.parts[i as int]));
            assert(rel@.parts.subrange(0, i + 1) =~= rel@.parts.subrange(0, i as int).push(rel@.parts[i as int]));
            i = i + 1;
            assert(parts.deep_view() =~= start + rel@.parts.subrange(0, i as int));
        }
        assert(rel@.parts.subrange(0, rel.parts.len() as int) =~= rel@.parts);
        PathBuf { absolute: self.absolute, parts }
    }

    /// The path with `..` resolved lexically, without touching the
    /// filesystem.
    pub fn normalize(&self) -> (r: PathBuf)
        ensures
            r@ == normalize_spec(self@),
    {
        let mut out: Vec<String> = Vec::new();
        let mut i: usize = 0;
        while i < self.parts.len()
            invariant
                i <= self.parts.len(),
                out.deep_view() == normalize_parts(self@.parts.subrange(0, i as int), self@.absolute),
            decreases self.parts.len() - i,
        {
            let ghost s = self@.parts.subrange(0, i + 1);
            assert(s.drop_last() =~= self@.parts.subrange(0, i as int));
            let ghost before = out.deep_view();
            if is_dot(&self.parts[i]) {
            } else if is_dot_dot(&self.parts[i]) {
                let last_is_up = out.len() > 0 && is_dot_dot(&out[out.len() - 1]);
                if out.len() > 0 && !last_is_up {
                    out.pop();
                    assert(out.deep_view() =~= before.drop_last());
                } else if !self.absolute {
                    out.push(self.parts[i].clone());
                    assert(out.deep_view() =~= before.push(self@.parts[i as int]));
                }
            } else {
                out.push(self.parts[i].clone());
                assert(out.deep_view() =~= before.push(self@.parts[i as int]));
            }
            i = i + 1;
        }
        assert(self@.parts.subrange(0, self.parts.len() as int) =~= self@.parts);
        PathBuf { absolute: self.absolute, parts: out }
    }

    /// The path without its last component.
    pub fn parent(&self) -> (r: Option<PathBuf>)
        ensures
            r.is_some() == parent_spec(self@).is_some(),
            r matches Some(p) ==> p@ == parent_spec(self@)->0,
    {
        if self.parts.len() == 0 {
            return None;
        }
        let mut parts = copy_strings(&self.parts);
        parts.pop();
        assert(parts.deep_view() =~= self@.parts.drop_last());
        Some(PathBuf { absolute: self.absolute, parts })
    }

    /// The last component, unless there is none or it is `..`.
    pub fn file_name(&self) -> (r: Option<String>)
        ensures
            r.is_some() == file_name_spec(self@).is_some(),
            r matches Some(n) ==> n@ == file_name_spec(self@)->0,
    {
        if self.parts.len() == 0 {
            return None;
        }
        let last = &self.parts[self.parts.len() - 1];
        if is_dot_dot(last) {
            None
        } else {
            Some(last.clone())
        }
    }

    /// The number of components, counting the root.
    pub fn component_count(&self) -> (r: usize)
        requires
            self.parts.len() < usize::MAX,
        ensures
            r == self@.parts.len() + if self@.absolute { 1int } else { 0int },
    {
        if self.absolute { self.parts.len() + 1 } else { self.parts.len() }
    }

    /// Whether this path sorts strictly before `other`.
    pub fn less(&self, other: &PathBuf) -> (r: bool)
        ensures
            r == path_lt(self@, other@),
    {
        if self.absolute != other.absolute {
            if self.absolute {
                return other.parts.len() > 0;
            } else {
                return self.parts.len() == 0;
            }
        }
        let mut i: usize = 0;
        assert(self@.parts.subrange(0, self.parts.len() as int) =~= self@.parts);
        assert(other@.parts.subrange(0, other.parts.len() as int) =~= other@.parts);
        while i < self.parts.len() && i < other.parts.len()
            invariant
                i <= self.parts.len(),
                i <= other.parts.len(),
                self.absolute == other.absolute,
                self@.parts.subrange(0, i as int) == other@.parts.subrange(0, i as int),
                parts_lt(self@.parts, other@.parts) == parts_lt(
                    self@.parts.subrange(i as int, self.parts.len() as int),
                    other@.parts.subrange(i as int, other.parts.len() as int),
                ),
            decreases self.parts.len() - i,
        {
            let a = &self.parts[i];
            let b = &other.parts[i];
            let ghost sa = self@.parts.subrange(i as int, self.parts.len() as int);
            let ghost sb = other@.parts.subrange(i as int, other.parts.len() as int);
            assert(sa[0] == a@);
            assert(sb[0] == b@);
            if part_less(a, b) {
                assert(parts_lt(sa, sb));
                return true;
            }
            if *a != *b {
                proof {
                    lemma_part_lt_total(a@, b@);
                }
                assert(!parts_lt(sa, sb));
                return false;
            }
            assert(sa.drop_first() =~= self@.parts.subrange(i + 1, self.parts.len() as int));
            assert(sb.drop_first() =~= other@.parts.subrange(i + 1, other.parts.len() as int));
            assert(self@.parts.subrange(0, i + 1) =~= self@.parts.subrange(0, i as int).push(a@));
            assert(other@.parts.subrange(0, i + 1) =~= other@.parts.subrange(0, i as int).push(b@));
            i = i + 1;
        }
        i < other.parts.len()
    }
}

fn part_less(a: &String, b: &String) -> (r: bool)
    ensures
        r == part_lt(a@, b@),
{
    let da = is_dot_dot(a);
    let db = is_dot_dot(b);
    if da {
        !db
    } else if db {
        false
    } else {
        string_less(a, b)
    }
}

/// A copy of a list of strings.
pub fn copy_strings(v: &Vec<String>) -> (r: Vec<String>)
    ensures
        r.deep_view() == v.deep_view(),
        r@.len() == v@.len(),
        forall|i: int| 0 <= i < v.len() ==> #[trigger] r@[i]@ == v@[i]@,
{
    let mut r: Vec<String> = Vec::new();
    let mut i: usize = 0;
    while i < v.len()
        invariant
            i <= v.len(),
            r@.len() == i,
            forall|j: int| 0 <= j < i ==> #[trigger] r@[j]@ == v@[j]@,
        decreases v.len() - i,
    {
        r.push(v[i].clone());
        i = i + 1;
    }
    assert(r.deep_view() =~= v.deep_view());
    r
}

} // verus!
