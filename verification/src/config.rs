//! Cascading configuration: reading layers, and merging them into one
//! policy.
//!
//! Layers merge in order of increasing precedence: bundled profile bases,
//! then the global config, then per-directory `bailey.toml` files from the
//! outermost directory inwards, then an explicit config. Filesystem and device
//! grants accumulate; a layer may clear accumulated filesystem state with
//! `filesystem.reset = true`. A `filesystem.deny` entry retracts a grant of the
//! same path and records a denial, so a path nested beneath a surviving grant
//! is still refused. Scalar settings from a later layer override earlier ones.
//!
//! Reading the environment and the filesystem is the caller's: the resolver
//! takes the caller's variables and working directory as a [`HostEnv`], and
//! config files as text.

use vstd::prelude::*;

use crate::path::{
    join_spec, normalize_spec, parse_spec, render, starts_with_spec, PathBuf, PathView,
};
use crate::policy::Access;
use crate::text::{chars_of, owned, push_all, push_str, string_of};

verus! {

/// What the resolver needs to know about the process it runs in.
#[derive(Debug, Clone, PartialEq, Eq)]
pub struct HostEnv {
    /// The caller's environment variables, as name and value.
    pub vars: Vec<(String, String)>,
    /// The working directory, when it could be read.
    pub cwd: Option<PathBuf>,
}

pub open spec fn vars_view(vars: Seq<(String, String)>) -> Seq<(Seq<char>, Seq<char>)> {
    vars.map_values(|p: (String, String)| (p.0@, p.1@))
}

/// The first position of `name` among the variables.
pub open spec fn is_first_var(vars: Seq<(Seq<char>, Seq<char>)>, name: Seq<char>, i: int) -> bool {
    0 <= i < vars.len() && vars[i].0 == name && forall|j: int| 0 <= j < i ==> vars[j].0 != name
}

/// The value of the variable `name`, if it is set.
pub open spec fn var_spec(vars: Seq<(Seq<char>, Seq<char>)>, name: Seq<char>) -> Option<Seq<char>> {
    if exists|i: int| is_first_var(vars, name, i) {
        Some(vars[choose|i: int| is_first_var(vars, name, i)].1)
    } else {
        None
    }
}

impl HostEnv {
    /// The value of the variable `name`, if it is set.
    pub fn var(&self, name: &str) -> (r: Option<String>)
        ensures
            r matches Some(v) ==> var_spec(vars_view(self.vars@), name@) == Some(v@),
            r is None ==> var_spec(vars_view(self.vars@), name@) is None,
    {
        let k = owned(name);
        let ghost vs = vars_view(self.vars@);
        let mut i: usize = 0;
        while i < self.vars.len()
            invariant
                i <= self.vars.len(),
                k@ == name@,
                vs == vars_view(self.vars@),
                forall|j: int| 0 <= j < i ==> vs[j].0 != name@,
            decreases self.vars.len() - i,
        {
            if self.vars[i].0 == k {
                assert(is_first_var(vs, name@, i as int));
                assert forall|m: int| is_first_var(vs, name@, m) implies m == i by {
                    if m > i {
                        assert(vs[i as int].0 == name@);
                    }
                }
                return Some(self.vars[i].1.clone());
            }
            i = i + 1;
        }
        assert(!exists|m: int| is_first_var(vs, name@, m));
        None
    }
}

// ---------------------------------------------------------------------------
// `${VAR}` expansion.

pub open spec fn opens_at(s: Seq<char>, i: int) -> bool {
    0 <= i && i + 1 < s.len() && s[i] == '$' && s[i + 1] == '{'
}

pub open spec fn first_open(s: Seq<char>, i: int) -> bool {
    opens_at(s, i) && forall|j: int| 0 <= j < i ==> !opens_at(s, j)
}

pub open spec fn first_close(s: Seq<char>, i: int) -> bool {
    0 <= i < s.len() && s[i] == '}' && forall|j: int| 0 <= j < i ==> s[j] != '}'
}

/// What `${name}` expands to: the variable's value; for an unset `PWD`, the
/// working directory; otherwise nothing.
pub open spec fn var_value(env: HostEnv, name: Seq<char>) -> Seq<char> {
    match var_spec(vars_view(env.vars@), name) {
        Some(v) => v,
        None => if name == "PWD"@ {
            match env.cwd {
                Some(c) => render(c@),
                None => seq![],
            }
        } else {
            seq![]
        },
    }
}

/// `s` with each `${NAME}` replaced by what it expands to. An opening `${`
/// with no closing brace is left as written, with the rest of the text.
pub open spec fn expand_spec(s: Seq<char>, env: HostEnv) -> Seq<char>
    decreases s.len(),
{
    if exists|i: int| first_open(s, i) {
        let i = choose|i: int| first_open(s, i);
        let after = s.subrange(i + 2, s.len() as int);
        if exists|e: int| first_close(after, e) {
            let e = choose|e: int| first_close(after, e);
            s.subrange(0, i) + var_value(env, after.subrange(0, e)) + expand_spec(
                after.subrange(e + 1, after.len() as int),
                env,
            )
        } else {
            s
        }
    } else {
        s
    }
}

/// Text with no `$` in it expands to itself.
pub proof fn law_text_without_variables_is_kept(s: Seq<char>, env: HostEnv)
    requires
        !s.contains('$'),
    ensures
        expand_spec(s, env) == s,
{
    assert forall|i: int| !first_open(s, i) by {
        if 0 <= i < s.len() {
            assert(s[i] != '$');
        }
    }
}

/// Expansion replaces the first `${NAME}` by what it names and goes on with
/// the rest: text before it without a `$` is kept as written, and the
/// variable's value is not expanded again.
pub proof fn law_variable_is_replaced(prefix: Seq<char>, name: Seq<char>, rest: Seq<char>, env: HostEnv)
    requires
        !prefix.contains('$'),
        !name.contains('}'),
    ensures
        expand_spec(prefix + seq!['$', '{'] + name + seq!['}'] + rest, env)
            == prefix + var_value(env, name) + expand_spec(rest, env),
{
    let s = prefix + seq!['$', '{'] + name + seq!['}'] + rest;
    let k = prefix.len() as int;
    assert(s[k] == '$' && s[k + 1] == '{');
    assert(opens_at(s, k));
    assert forall|j: int| 0 <= j < k implies !opens_at(s, j) by {
        assert(s[j] == prefix[j]);
    }
    assert(first_open(s, k));
    let i = choose|i: int| first_open(s, i);
    if i < k {
        assert(s[i] == prefix[i]);
    }
    assert(i == k);
    let after = s.subrange(i + 2, s.len() as int);
    assert(after =~= name + seq!['}'] + rest);
    let n = name.len() as int;
    assert(after[n] == '}');
    assert forall|j: int| 0 <= j < n implies after[j] != '}' by {
        assert(after[j] == name[j]);
    }
    assert(first_close(after, n));
    let e = choose|e: int| first_close(after, e);
    if e < n {
        assert(after[e] == name[e]);
    }
    assert(e == n);
    assert(s.subrange(0, i) =~= prefix);
    assert(after.subrange(0, e) =~= name);
    assert(after.subrange(e + 1, after.len() as int) =~= rest);
}

/// An opening `${` with no closing brace after it is left as written, with
/// the rest of the text.
pub proof fn law_unclosed_variable_is_kept(prefix: Seq<char>, tail: Seq<char>, env: HostEnv)
    requires
        !prefix.contains('$'),
        !tail.contains('}'),
    ensures
        expand_spec(prefix + seq!['$', '{'] + tail, env) == prefix + seq!['$', '{'] + tail,
{
    let s = prefix + seq!['$', '{'] + tail;
    let k = prefix.len() as int;
    assert(s[k] == '$' && s[k + 1] == '{');
    assert forall|j: int| 0 <= j < k implies !opens_at(s, j) by {
        assert(s[j] == prefix[j]);
    }
    assert(first_open(s, k));
    let i = choose|i: int| first_open(s, i);
    if i < k {
        assert(s[i] == prefix[i]);
    }
    assert(i == k);
    let after = s.subrange(i + 2, s.len() as int);
    assert(after =~= tail);
    assert forall|e: int| !first_close(after, e) by {
        if 0 <= e < after.len() {
            assert(after[e] == tail[e]);
        }
    }
}

/// Where the first `${` at or after `from` starts.
fn find_open(cs: &Vec<char>, from: usize) -> (r: Option<usize>)
    requires
        from <= cs.len(),
    ensures
        r matches Some(i) ==> from <= i && first_open(cs@.subrange(from as int, cs.len() as int), i - from),
        r is None ==> !exists|i: int| first_open(cs@.subrange(from as int, cs.len() as int), i),
{
    let ghost s = cs@.subrange(from as int, cs.len() as int);
    let mut i: usize = from;
    while cs.len() > 0 && i < cs.len() - 1
        invariant
            from <= i <= cs.len(),
            s == cs@.subrange(from as int, cs.len() as int),
            forall|j: int| 0 <= j < i - from ==> !opens_at(s, j),
        decreases cs.len() - i,
    {
        if cs[i] == '$' && cs[i + 1] == '{' {
            assert(opens_at(s, i - from));
            return Some(i);
        }
        assert(!opens_at(s, i - from));
        i = i + 1;
    }
    assert forall|j: int| first_open(s, j) implies false by {
        if j >= i - from {
            assert(j + 1 >= s.len());
        }
    }
    None
}

/// Where the first `}` at or after `from` is.
fn find_close(cs: &Vec<char>, from: usize) -> (r: Option<usize>)
    requires
        from <= cs.len(),
    ensures
        r matches Some(i) ==> from <= i && first_close(cs@.subrange(from as int, cs.len() as int), i - from),
        r is None ==> !exists|i: int| first_close(cs@.subrange(from as int, cs.len() as int), i),
{
    let ghost s = cs@.subrange(from as int, cs.len() as int);
    let mut i: usize = from;
    while i < cs.len()
        invariant
            from <= i <= cs.len(),
            s == cs@.subrange(from as int, cs.len() as int),
            forall|j: int| 0 <= j < i - from ==> s[j] != '}',
        decreases cs.len() - i,
    {
        if cs[i] == '}' {
            assert(first_close(s, i - from));
            return Some(i);
        }
        i = i + 1;
    }
    None
}

proof fn lemma_first_open_unique(s: Seq<char>, i: int, k: int)
    requires
        first_open(s, i),
        first_open(s, k),
    ensures
        i == k,
{
}

proof fn lemma_first_close_unique(s: Seq<char>, i: int, k: int)
    requires
        first_close(s, i),
        first_close(s, k),
    ensures
        i == k,
{
}

/// What `${name}` expands to.
fn variable_value(env: &HostEnv, name: &Vec<char>) -> (r: Vec<char>)
    ensures
        r@ == var_value(*env, name@),
{
    let n = string_of(name);
    match env.var(n.as_str()) {
        Some(v) => chars_of(v.as_str()),
        None => {
            let pwd = owned("PWD");
            if n == pwd {
                match &env.cwd {
                    Some(c) => {
                        let t = c.display();
                        chars_of(t.as_str())
                    },
                    None => Vec::new(),
                }
            } else {
                Vec::new()
            }
        },
    }
}

fn copy_range(out: &mut Vec<char>, cs: &Vec<char>, from: usize, to: usize)
    requires
        from <= to <= cs.len(),
    ensures
        final(out)@ == old(out)@ + cs@.subrange(from as int, to as int),
{
    let ghost start = out@;
    let mut i: usize = from;
    while i < to
        invariant
            from <= i <= to,
            to <= cs.len(),
            out@ == start + cs@.subrange(from as int, i as int),
        decreases to - i,
    {
        out.push(cs[i]);
        i = i + 1;
        assert(out@ =~= start + cs@.subrange(from as int, i as int));
    }
}

/// `raw` with each `${NAME}` expanded.
pub fn expand_variables(raw: &str, env: &HostEnv) -> (r: String)
    ensures
        r@ == expand_spec(raw@, *env),
{
    let cs = chars_of(raw);
    let mut out: Vec<char> = Vec::new();
    let mut pos: usize = 0;
    assert(cs@.subrange(0, cs.len() as int) =~= raw@);
    assert(out@ + expand_spec(raw@, *env) =~= expand_spec(raw@, *env));
    loop
        invariant
            pos <= cs.len(),
            cs@ == raw@,
            out@ + expand_spec(cs@.subrange(pos as int, cs.len() as int), *env) == expand_spec(raw@, *env),
        decreases cs.len() - pos,
    {
        let ghost rest = cs@.subrange(pos as int, cs.len() as int);
        match find_open(&cs, pos) {
            None => {
                copy_range(&mut out, &cs, pos, cs.len());
                assert(expand_spec(rest, *env) == rest);
                return string_of(&out);
            },
            Some(i) => {
                let ghost ri = i - pos;
                proof {
                    let c = choose|k: int| first_open(rest, k);
                    lemma_first_open_unique(rest, ri, c);
                }
                let ghost after = rest.subrange(ri + 2, rest.len() as int);
                assert(after =~= cs@.subrange(i + 2, cs.len() as int));
                match find_close(&cs, i + 2) {
                    None => {
                        copy_range(&mut out, &cs, pos, cs.len());
                        assert(expand_spec(rest, *env) == rest);
                        return string_of(&out);
                    },
                    Some(e) => {
                        let ghost re = e - (i + 2);
                        proof {
                            let c = choose|k: int| first_close(after, k);
                            lemma_first_close_unique(after, re, c);
                        }
                        let ghost before = out@;
                        copy_range(&mut out, &cs, pos, i);
                        let mut name: Vec<char> = Vec::new();
                        copy_range(&mut name, &cs, i + 2, e);
                        assert(name@ =~= after.subrange(0, re));
                        let value = variable_value(env, &name);
                        push_all(&mut out, &value);
                        assert(rest.subrange(0, ri) =~= cs@.subrange(pos as int, i as int));
                        assert(after.subrange(re + 1, after.len() as int) =~= cs@.subrange(e + 1, cs.len() as int));
                        assert(expand_spec(rest, *env) == rest.subrange(0, ri) + var_value(*env, after.subrange(0, re))
                            + expand_spec(after.subrange(re + 1, after.len() as int), *env));
                        assert(out@ =~= before + rest.subrange(0, ri) + var_value(*env, after.subrange(0, re)));
                        pos = e + 1;
                    },
                }
            },
        }
    }
}


// ---------------------------------------------------------------------------
// Paths written in config.

pub open spec fn home_of(env: HostEnv) -> Option<Seq<char>> {
    var_spec(vars_view(env.vars@), "HOME"@)
}

/// A path with a leading `~` expanded to the home directory.
pub open spec fn tilde_spec(raw: Seq<char>, env: HostEnv) -> PathView {
    match home_of(env) {
        Some(h) => if raw == "~"@ {
            parse_spec(h)
        } else if raw.len() >= 2 && raw[0] == '~' && raw[1] == '/' {
            join_spec(parse_spec(h), parse_spec(raw.subrange(2, raw.len() as int)))
        } else {
            parse_spec(raw)
        },
        None => parse_spec(raw),
    }
}

/// A path written in a layer whose relative paths resolve against `base`:
/// variables expanded, `~` expanded, made absolute against `base`, and `.`
/// and `..` collapsed lexically.
pub open spec fn resolve_spec(raw: Seq<char>, base: PathView, env: HostEnv) -> PathView {
    normalize_spec(join_spec(base, tilde_spec(expand_spec(raw, env), env)))
}

fn expand_tilde(raw: &String, env: &HostEnv) -> (r: PathBuf)
    ensures
        r@ == tilde_spec(raw@, *env),
{
    let cs = chars_of(raw.as_str());
    match env.var("HOME") {
        Some(h) => {
            if cs.len() == 1 && cs[0] == '~' {
                proof {
                    reveal_strlit("~");
                }
                assert(raw@ =~= "~"@);
                PathBuf::parse(h.as_str())
            } else if cs.len() >= 2 && cs[0] == '~' && cs[1] == '/' {
                proof {
                    reveal_strlit("~");
                }
                let mut rest: Vec<char> = Vec::new();
                copy_range(&mut rest, &cs, 2, cs.len());
                let rest_text = string_of(&rest);
                let home = PathBuf::parse(h.as_str());
                let tail = PathBuf::parse(rest_text.as_str());
                home.join(&tail)
            } else {
                proof {
                    reveal_strlit("~");
                    if raw@ == "~"@ {
                        assert(raw@.len() == 1);
                    }
                }
                PathBuf::parse(raw.as_str())
            }
        },
        None => PathBuf::parse(raw.as_str()),
    }
}

/// Resolves a path written in a layer against the layer's base directory.
pub fn resolve_path(raw: &String, base: &PathBuf, env: &HostEnv) -> (r: PathBuf)
    ensures
        r@ == resolve_spec(raw@, base@, *env),
{
    let expanded = expand_variables(raw.as_str(), env);
    let tilde = expand_tilde(&expanded, env);
    let joined = base.join(&tilde);
    joined.normalize()
}

/// A value written in `[env]`, expanded the way a path is: variables, and a
/// leading `~/`.
pub open spec fn expand_value_spec(raw: Seq<char>, env: HostEnv) -> Seq<char> {
    let e = expand_spec(raw, env);
    if e.len() >= 2 && e[0] == '~' && e[1] == '/' {
        match home_of(env) {
            Some(h) => h + seq!['/'] + e.subrange(2, e.len() as int),
            None => e,
        }
    } else {
        e
    }
}

/// Expands a value written in `[env]`.
pub fn expand_value(raw: &String, env: &HostEnv) -> (r: String)
    ensures
        r@ == expand_value_spec(raw@, *env),
{
    let expanded = expand_variables(raw.as_str(), env);
    let cs = chars_of(expanded.as_str());
    if cs.len() >= 2 && cs[0] == '~' && cs[1] == '/' {
        match env.var("HOME") {
            Some(h) => {
                let mut out = chars_of(h.as_str());
                out.push('/');
                copy_range(&mut out, &cs, 2, cs.len());
                string_of(&out)
            },
            None => expanded,
        }
    } else {
        expanded
    }
}


// ---------------------------------------------------------------------------
// Device access specifiers.

pub open spec fn access_char(c: char) -> bool {
    c == 'r' || c == 'w' || c == 'x'
}

pub open spec fn first_bad_access(s: Seq<char>, i: int) -> bool {
    0 <= i < s.len() && !access_char(s[i]) && forall|j: int| 0 <= j < i ==> access_char(s[j])
}

/// What an access specifier such as `rw` grants, or why it is invalid.
pub open spec fn parse_access_spec(s: Seq<char>) -> Result<Access, Seq<char>> {
    if exists|i: int| first_bad_access(s, i) {
        let i = choose|i: int| first_bad_access(s, i);
        Err("unknown access character `"@ + seq![s[i]] + "` in `"@ + s + "`"@)
    } else if s.len() == 0 {
        Err("empty access specifier `"@ + s + "`"@)
    } else {
        Ok(Access { read: s.contains('r'), write: s.contains('w'), execute: s.contains('x') })
    }
}

/// Reads an access specifier made of `r`, `w` and `x`.
pub fn parse_access(spec: &String) -> (r: Result<Access, String>)
    ensures
        match r {
            Ok(a) => parse_access_spec(spec@) == Ok::<Access, Seq<char>>(a),
            Err(e) => parse_access_spec(spec@) == Err::<Access, Seq<char>>(e@),
        },
{
    let cs = chars_of(spec.as_str());
    let mut access = Access::empty();
    let mut i: usize = 0;
    while i < cs.len()
        invariant
            i <= cs.len(),
            cs@ == spec@,
            forall|j: int| 0 <= j < i ==> access_char(cs@[j]),
            access.read == cs@.subrange(0, i as int).contains('r'),
            access.write == cs@.subrange(0, i as int).contains('w'),
            access.execute == cs@.subrange(0, i as int).contains('x'),
        decreases cs.len() - i,
    {
        let c = cs[i];
        let ghost prefix = cs@.subrange(0, i + 1);
        assert(prefix =~= cs@.subrange(0, i as int).push(c));
        if c == 'r' {
            access = access.union(Access::read_only());
        } else if c == 'w' {
            access = access.union(Access::write_only());
        } else if c == 'x' {
            access = access.union(Access::execute_only());
        } else {
            assert(first_bad_access(spec@, i as int));
            assert forall|k: int| first_bad_access(spec@, k) implies k == i by {}
            let mut out = chars_of("unknown access character `");
            out.push(c);
            push_str(&mut out, "` in `");
            push_str(&mut out, spec.as_str());
            push_str(&mut out, "`");
            let ghost k = choose|k: int| first_bad_access(spec@, k);
            assert(k == i);
            assert(out@ =~= "unknown access character `"@ + seq![spec@[k]] + "` in `"@ + spec@ + "`"@);
            return Err(string_of(&out));
        }
        proof {
            assert forall|d: char| prefix.contains(d) <==> cs@.subrange(0, i as int).contains(d) || d == c by {
                if prefix.contains(d) {
                    let k = choose|k: int| 0 <= k < prefix.len() && prefix[k] == d;
                    if k < i {
                        assert(cs@.subrange(0, i as int)[k] == d);
                    }
                }
                if d == c {
                    assert(prefix[i as int] == d);
                }
                if cs@.subrange(0, i as int).contains(d) {
                    let k = choose|k: int| 0 <= k < i && cs@.subrange(0, i as int)[k] == d;
                    assert(prefix[k] == d);
                }
            }
        }
        i = i + 1;
    }
    assert(cs@.subrange(0, cs.len() as int) =~= spec@);
    assert(!exists|k: int| first_bad_access(spec@, k));
    if cs.len() == 0 {
        let mut out = chars_of("empty access specifier `");
        push_str(&mut out, spec.as_str());
        push_str(&mut out, "`");
        return Err(string_of(&out));
    }
    Ok(access)
}

} // verus!
