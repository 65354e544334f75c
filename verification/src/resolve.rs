//! Resolving the effective configuration for a target.
//!
//! Layers come, lowest precedence first, from bundled profile bases, the
//! global config, the per-directory `bailey.toml` files found by walking up
//! from the target and from the working directory, and an explicit config.
//! Finding and reading those files is the caller's; this module says where to
//! look, reads each text as a layer, and merges them.

use vstd::prelude::*;

use crate::config::{home_of, var_spec, vars_view, HostEnv};
use crate::merge::{
    acc_empty, merge, merge_spec, resolved_from, AccView, ConfigError, ConfigErrorView, Layer,
    Resolved,
};
use crate::lines::{split_chars, split_pieces};
use crate::path::{join_spec, parent_spec, parse_spec, PathBuf, PathView};
use crate::text::{chars_of, push_str, string_of};
use crate::schema::{decode_layer, layer_is, schema_message};
use crate::tomldoc::{parse_document, toml_document};
use crate::trust::{opt_rejected_view, Rejected, RejectedView};

verus! {

/// Which discovery rule found a config layer.
#[derive(Debug, Clone, Copy, PartialEq, Eq)]
pub enum Origin {
    /// The global config.
    Global,
    /// Found walking up from the target executable's directory.
    Target,
    /// Found walking up from the working directory.
    WorkingDir,
    /// Named on the command line.
    Explicit,
}

pub open spec fn label_spec(o: Origin) -> Seq<char> {
    match o {
        Origin::Global => "global"@,
        Origin::Target => "target"@,
        Origin::WorkingDir => "working dir"@,
        Origin::Explicit => "explicit"@,
    }
}

impl Origin {
    /// A short label for display.
    pub fn label(self) -> (r: &'static str)
        ensures
            r@ == label_spec(self),
    {
        match self {
            Origin::Global => "global",
            Origin::Target => "target",
            Origin::WorkingDir => "working dir",
            Origin::Explicit => "explicit",
        }
    }
}

/// A discovered config layer.
#[derive(Debug, Clone, PartialEq, Eq)]
pub struct Source {
    /// Path of the config file.
    pub path: PathBuf,
    /// How it was found.
    pub origin: Origin,
    /// Why this layer does not contribute, when it does not. A file the user
    /// supplied is never rejected; one found by an upward walk is, until it
    /// has been trusted.
    pub rejected: Option<Rejected>,
}

impl Source {
    /// Whether this layer contributes to the resolved policy.
    pub fn applies(&self) -> (r: bool)
        ensures
            r == self.rejected.is_none(),
    {
        self.rejected.is_none()
    }
}

/// The layer a text denotes, read from `path` with relative paths resolving
/// against `base`: the TOML document, decoded as a config layer.
pub open spec fn layer_denoted(l: Layer, path: PathView, base: PathView, text: Seq<char>) -> bool {
    &&& l.path@ == path
    &&& l.base@ == base
    &&& toml_document(text) matches Ok(doc) && layer_is(doc, l.raw)
}

/// Whether a text fails to be a config layer.
pub open spec fn not_a_layer(text: Seq<char>) -> bool {
    match toml_document(text) {
        Err(_) => true,
        Ok(doc) => forall|raw: crate::schema::RawLayer| !layer_is(doc, raw),
    }
}

/// Whether `e` reports that the text read from `path` is not a config layer:
/// with the TOML parser's message when the text is not TOML at all.
pub open spec fn parse_error(e: ConfigErrorView, path: PathView, text: Seq<char>) -> bool {
    &&& not_a_layer(text)
    &&& e matches ConfigErrorView::Parse { path: p, reason }
    &&& p == path
    &&& (toml_document(text) matches Err(m) ==> reason == m)
}

/// Reads a config text as a layer; `path` names it in errors.
pub fn read_layer(path: PathBuf, base: PathBuf, text: &str) -> (r: Result<Layer, ConfigError>)
    ensures
        match r {
            Ok(l) => layer_denoted(l, path@, base@, text@),
            Err(e) => parse_error(e@, path@, text@),
        },
{
    let doc = match parse_document(text) {
        Ok(d) => d,
        Err(reason) => {
            return Err(ConfigError::Parse { path, reason });
        },
    };
    match decode_layer(&doc) {
        Ok(raw) => Ok(Layer { path, base, raw }),
        Err(e) => Err(ConfigError::Parse { path, reason: e.message() }),
    }
}

/// Reads a bundled profile text as a layer labelled `label`, whose relative
/// paths resolve against `base`.
pub fn parse_layer(label: &str, text: &str, base: &PathBuf) -> (r: Result<Layer, ConfigError>)
    ensures
        match r {
            Ok(l) => layer_denoted(l, parse_spec(label@), base@, text@),
            Err(e) => parse_error(e@, parse_spec(label@), text@),
        },
{
    read_layer(PathBuf::parse(label), base.duplicate(), text)
}

/// The directory a config file's relative paths resolve against: its
/// parent, or `/` for a path without one.
pub open spec fn file_base(path: PathView) -> PathView {
    match parent_spec(path) {
        Some(p) => p,
        None => parse_spec("/"@),
    }
}

/// Reads the text of the config file at `path` (already absolute) as a layer.
pub fn load_layer(path: &PathBuf, text: &str) -> (r: Result<Layer, ConfigError>)
    ensures
        match r {
            Ok(l) => layer_denoted(l, path@, file_base(path@), text@),
            Err(e) => parse_error(e@, path@, text@),
        },
{
    let base = match path.parent() {
        Some(p) => p,
        None => PathBuf::parse("/"),
    };
    read_layer(path.duplicate(), base, text)
}

/// `path` made absolute against the working directory; a relative path
/// stays as it is when the working directory is unknown.
pub open spec fn absolute_spec(path: PathView, env: HostEnv) -> PathView {
    if path.absolute {
        path
    } else {
        match env.cwd {
            Some(c) => join_spec(c@, path),
            None => path,
        }
    }
}

/// `path` made absolute against the working directory.
pub fn absolute(path: &PathBuf, env: &HostEnv) -> (r: PathBuf)
    ensures
        r@ == absolute_spec(path@, *env),
{
    if path.absolute {
        path.duplicate()
    } else {
        match &env.cwd {
            Some(c) => c.join(path),
            None => path.duplicate(),
        }
    }
}

/// The directory layers for `target` resolve against, and where the walk
/// for per-directory configs starts: the target's directory.
pub open spec fn target_dir_spec(target: PathView, env: HostEnv) -> PathView {
    file_base(absolute_spec(target, env))
}

/// The directory of `target`.
pub fn target_dir(target: &PathBuf, env: &HostEnv) -> (r: PathBuf)
    ensures
        r@ == target_dir_spec(target@, *env),
{
    let t = absolute(target, env);
    match t.parent() {
        Some(p) => p,
        None => PathBuf::parse("/"),
    }
}

/// The directories of the `PATH` variable, in order, as a colon-separated
/// list splits: an unset `PATH` reads as empty, and an empty entry is the
/// empty path.
pub open spec fn search_dirs_spec(env: HostEnv) -> Seq<Seq<char>> {
    match var_spec(vars_view(env.vars@), "PATH"@) {
        Some(p) => split_pieces(p, ':'),
        None => split_pieces(seq![], ':'),
    }
}

pub open spec fn candidate_in(name: Seq<char>) -> spec_fn(Seq<char>) -> PathView {
    |d: Seq<char>| join_spec(parse_spec(d), parse_spec(name))
}

/// Where a program name is looked for, in order: a name with a `/` in it is
/// a path as given; a bare name is looked for in each directory of `PATH`.
pub open spec fn target_candidates_spec(name: Seq<char>, env: HostEnv) -> Seq<PathView> {
    if name.contains('/') {
        seq![parse_spec(name)]
    } else {
        search_dirs_spec(env).map_values(candidate_in(name))
    }
}

fn contains_slash(name: &str) -> (r: bool)
    ensures
        r == name@.contains('/'),
{
    let cs = chars_of(name);
    let mut i: usize = 0;
    while i < cs.len()
        invariant
            i <= cs@.len(),
            cs@ == name@,
            forall|j: int| 0 <= j < i ==> cs@[j] != '/',
        decreases cs@.len() - i,
    {
        if cs[i] == '/' {
            return true;
        }
        i = i + 1;
    }
    false
}

/// The files a program name may refer to, in the order they are tried.
pub fn target_candidates(name: &str, env: &HostEnv) -> (r: Vec<PathBuf>)
    ensures
        crate::policy::paths_view(r@) == target_candidates_spec(name@, *env),
{
    let has_slash = contains_slash(name);
    if has_slash {
        let r = vec![PathBuf::parse(name)];
        assert(crate::policy::paths_view(r@) =~= seq![parse_spec(name@)]);
        return r;
    }
    assert(!name@.contains('/'));
    let path_var = match env.var("PATH") {
        Some(p) => chars_of(p.as_str()),
        None => Vec::new(),
    };
    assert(split_pieces(path_var@, ':') == search_dirs_spec(*env));
    let dirs = split_chars(&path_var, ':');
    let ghost want = search_dirs_spec(*env);
    let file = PathBuf::parse(name);
    let mut r: Vec<PathBuf> = Vec::new();
    let mut k: usize = 0;
    while k < dirs.len()
        invariant
            k <= dirs@.len(),
            dirs@.map_values(|l: Vec<char>| l@) == want,
            file@ == parse_spec(name@),
            crate::policy::paths_view(r@) == want.subrange(0, k as int).map_values(candidate_in(name@)),
        decreases dirs@.len() - k,
    {
        let ghost before = crate::policy::paths_view(r@);
        assert(dirs@[k as int]@ == want[k as int]);
        let dir_text = string_of(&dirs[k]);
        let candidate = PathBuf::parse(dir_text.as_str()).join(&file);
        r.push(candidate);
        assert(crate::policy::paths_view(r@) =~= before.push(candidate_in(name@)(want[k as int])));
        assert(want.subrange(0, k + 1).map_values(candidate_in(name@)) =~= want.subrange(0, k as int).map_values(
            candidate_in(name@),
        ).push(candidate_in(name@)(want[k as int])));
        k = k + 1;
    }
    assert(want.subrange(0, dirs@.len() as int) =~= want);
    r
}

/// Whether a file found for `name` is taken as the program: a path given
/// with a `/` needs only be a regular file; one found on `PATH` must also
/// have an execute bit set.
pub fn candidate_fits(name: &str, is_file: bool, mode: u32) -> (r: bool)
    ensures
        r == (is_file && (name@.contains('/') || mode & 0o111 != 0)),
{
    is_file && (contains_slash(name) || mode & 0o111 != 0)
}

pub open spec fn target_error_text(name: Seq<char>) -> Seq<char> {
    if name.contains('/') {
        "`"@ + name + "` does not exist"@
    } else {
        "`"@ + name + "` was not found on PATH"@
    }
}

/// Why no program called `name` could be found.
pub fn target_error(name: &str) -> (r: String)
    ensures
        r@ == target_error_text(name@),
{
    let has_slash = contains_slash(name);
    let mut out: Vec<char> = Vec::new();
    push_str(&mut out, "`");
    push_str(&mut out, name);
    if has_slash {
        push_str(&mut out, "` does not exist");
    } else {
        push_str(&mut out, "` was not found on PATH");
    }
    string_of(&out)
}

/// Where the global config lives: under `$XDG_CONFIG_HOME` when it is set
/// and not empty, else under `~/.config`.
pub open spec fn global_config_spec(env: HostEnv) -> Option<PathView> {
    match var_spec(vars_view(env.vars@), "XDG_CONFIG_HOME"@) {
        Some(x) if x.len() > 0 => Some(join_spec(parse_spec(x), parse_spec("bailey/config.toml"@))),
        _ => match home_of(env) {
            Some(h) => Some(join_spec(parse_spec(h), parse_spec(".config/bailey/config.toml"@))),
            None => None,
        },
    }
}

/// Where the global config lives.
pub fn global_config_path(env: &HostEnv) -> (r: Option<PathBuf>)
    ensures
        match r {
            Some(p) => global_config_spec(*env) == Some(p@),
            None => global_config_spec(*env) is None,
        },
{
    match env.var("XDG_CONFIG_HOME") {
        Some(x) => {
            if !x.as_str().is_empty() {
                let dir = PathBuf::parse(x.as_str());
                return Some(dir.join(&PathBuf::parse("bailey/config.toml")));
            }
        },
        None => {},
    }
    match env.var("HOME") {
        Some(h) => Some(PathBuf::parse(h.as_str()).join(&PathBuf::parse(".config/bailey/config.toml"))),
        None => None,
    }
}

/// Whether some base or discovered file cannot be read as a layer.
pub open spec fn input_fails(
    bases: Seq<(String, String)>,
    files: Seq<(PathBuf, Result<String, String>)>,
) -> bool {
    ||| exists|i: int| 0 <= i < bases.len() && not_a_layer(#[trigger] bases[i].1@)
    ||| exists|i: int| 0 <= i < files.len() && match #[trigger] files[i].1 {
        Err(_) => true,
        Ok(t) => not_a_layer(t@),
    }
}

/// Whether `ls` are the layers the bases and the files read as, in order.
pub open spec fn layers_read(
    ls: Seq<Layer>,
    bases: Seq<(String, String)>,
    dir: PathView,
    files: Seq<(PathBuf, Result<String, String>)>,
    env: HostEnv,
) -> bool {
    &&& ls.len() == bases.len() + files.len()
    &&& forall|i: int| 0 <= i < bases.len() ==> layer_denoted(#[trigger] ls[i], parse_spec(bases[i].0@), dir, bases[i].1@)
    &&& forall|i: int| 0 <= i < files.len() ==> file_read_as(#[trigger] ls[bases.len() + i], files[i], env)
}

/// Whether `l` is the layer a discovered file reads as.
pub open spec fn file_read_as(l: Layer, f: (PathBuf, Result<String, String>), env: HostEnv) -> bool {
    let p = absolute_spec(f.0@, env);
    f.1 matches Ok(t) && layer_denoted(l, p, file_base(p), t@)
}

/// Whether `e` is the error reading a discovered file gives.
pub open spec fn file_error(e: ConfigErrorView, f: (PathBuf, Result<String, String>), env: HostEnv) -> bool {
    match f.1 {
        Err(m) => e == ConfigErrorView::Read { path: absolute_spec(f.0@, env), reason: m@ },
        Ok(t) => parse_error(e, absolute_spec(f.0@, env), t@),
    }
}

/// Reads one discovered file, given its text or why it could not be read.
fn read_file(path: &PathBuf, text: &Result<String, String>, env: &HostEnv) -> (r: Result<Layer, ConfigError>)
    ensures
        match r {
            Ok(l) => file_read_as(l, (*path, *text), *env),
            Err(e) => file_error(e@, (*path, *text), *env),
        },
{
    let p = absolute(path, env);
    match text {
        Err(m) => Err(ConfigError::Read { path: p, reason: m.clone() }),
        Ok(t) => load_layer(&p, t.as_str()),
    }
}

/// Whether a discovered file cannot be read as a layer.
pub open spec fn file_fails(f: (PathBuf, Result<String, String>)) -> bool {
    match f.1 {
        Err(_) => true,
        Ok(t) => not_a_layer(t@),
    }
}

/// Whether `e` is the error of the first input, in precedence order, that
/// cannot be read as a layer: the first failing base, or, when every base
/// reads, the first failing file.
pub open spec fn input_error(
    e: ConfigErrorView,
    bases: Seq<(String, String)>,
    files: Seq<(PathBuf, Result<String, String>)>,
    env: HostEnv,
) -> bool {
    ||| exists|i: int| 0 <= i < bases.len() && parse_error(e, parse_spec(bases[i].0@), #[trigger] bases[i].1@)
        && forall|j: int| 0 <= j < i ==> !not_a_layer(#[trigger] bases[j].1@)
    ||| (forall|j: int| 0 <= j < bases.len() ==> !not_a_layer(#[trigger] bases[j].1@))
        && exists|i: int| 0 <= i < files.len() && file_error(e, #[trigger] files[i], env)
        && forall|j: int| 0 <= j < i ==> !file_fails(#[trigger] files[j])
}

/// Resolves the configuration for `target` from `bases` (each a label and a
/// bundled profile text, applied lowest, with relative paths resolving
/// against the target's directory) and `files` (each applying discovered
/// config file, in precedence order, with its text or why it could not be
/// read).
#[verifier::rlimit(30)]
pub fn resolve_with_bases(
    bases: &Vec<(String, String)>,
    target: &PathBuf,
    files: &Vec<(PathBuf, Result<String, String>)>,
    env: &HostEnv,
) -> (r: Result<Resolved, ConfigError>)
    ensures
        input_fails(bases@, files@) <==> (r matches Err(e) && input_error(e@, bases@, files@, *env)),
        !input_fails(bases@, files@) ==> exists|ls: Seq<Layer>| {
            &&& layers_read(ls, bases@, target_dir_spec(target@, *env), files@, *env)
            &&& match merge_spec(acc_empty(), ls, *env) {
                Ok(a) => r matches Ok(res) && resolved_from(res, a),
                Err(x) => r matches Err(e) && e@ == x,
            }
        },
{
    let dir = target_dir(target, env);
    let mut layers: Vec<Layer> = Vec::new();
    let mut i: usize = 0;
    while i < bases.len()
        invariant
            i <= bases.len(),
            dir@ == target_dir_spec(target@, *env),
            layers@.len() == i,
            forall|j: int| 0 <= j < i ==> layer_denoted(#[trigger] layers@[j], parse_spec(bases@[j].0@), dir@, bases@[j].1@),
        decreases bases.len() - i,
    {
        let (label, text) = &bases[i];
        match parse_layer(label.as_str(), text.as_str(), &dir) {
            Ok(l) => layers.push(l),
            Err(e) => {
                proof {
                    assert(not_a_layer(bases@[i as int].1@));
                    assert(input_fails(bases@, files@));
                    assert forall|j: int| 0 <= j < i implies !not_a_layer(#[trigger] bases@[j].1@) by {
                        assert(layer_denoted(layers@[j], parse_spec(bases@[j].0@), dir@, bases@[j].1@));
                    }
                    assert(input_error(e@, bases@, files@, *env));
                }
                return Err(e);
            },
        }
        i = i + 1;
    }
    assert forall|j: int| 0 <= j < bases@.len() implies !not_a_layer(#[trigger] bases@[j].1@) by {
        assert(layer_denoted(layers@[j], parse_spec(bases@[j].0@), dir@, bases@[j].1@));
    }
    let mut k: usize = 0;
    while k < files.len()
        invariant
            k <= files.len(),
            bases@.len() == i,
            forall|j: int| 0 <= j < bases@.len() ==> !not_a_layer(#[trigger] bases@[j].1@),
            forall|j: int| 0 <= j < k ==> !file_fails(#[trigger] files@[j]),
            layers@.len() == i + k,
            forall|j: int| 0 <= j < i ==> layer_denoted(#[trigger] layers@[j], parse_spec(bases@[j].0@), dir@, bases@[j].1@),
            forall|j: int| 0 <= j < k ==> file_read_as(#[trigger] layers@[i + j], files@[j], *env),
        decreases files.len() - k,
    {
        match read_file(&files[k].0, &files[k].1, env) {
            Ok(l) => {
                layers.push(l);
                proof {
                    assert(!file_fails(files@[k as int]));
                }
            },
            Err(e) => {
                proof {
                    lemma_file_error(e@, bases@, files@, *env, k as int);
                }
                return Err(e);
            },
        }
        k = k + 1;
    }
    proof {
        assert(!input_fails(bases@, files@)) by {
            assert forall|j: int| 0 <= j < bases.len() implies !not_a_layer(#[trigger] bases@[j].1@) by {
                assert(layer_denoted(layers@[j], parse_spec(bases@[j].0@), dir@, bases@[j].1@));
            }
            assert forall|j: int| 0 <= j < files.len() implies !(match #[trigger] files@[j].1 {
                Err(_) => true,
                Ok(t) => not_a_layer(t@),
            }) by {
                assert(file_read_as(layers@[i + j], files@[j], *env));
            }
        }
        assert(layers_read(layers@, bases@, dir@, files@, *env));
    }
    let r = merge(&layers, env);
    proof {
        lemma_merge_errors_are_not_input_errors(acc_empty(), layers@, *env);
        if r is Err {
            let e = r->Err_0;
            assert(!input_error(e@, bases@, files@, *env));
        }
    }
    r
}

proof fn lemma_file_error(
    e: ConfigErrorView,
    bases: Seq<(String, String)>,
    files: Seq<(PathBuf, Result<String, String>)>,
    env: HostEnv,
    k: int,
)
    requires
        0 <= k < files.len(),
        file_error(e, files[k], env),
        forall|j: int| 0 <= j < bases.len() ==> !not_a_layer(#[trigger] bases[j].1@),
        forall|j: int| 0 <= j < k ==> !file_fails(#[trigger] files[j]),
    ensures
        input_fails(bases, files),
        input_error(e, bases, files, env),
{
    assert(match files[k].1 {
        Err(_) => true,
        Ok(t) => not_a_layer(t@),
    });
}

/// Merging never fails the way reading does.
proof fn lemma_merge_errors_are_not_input_errors(acc: AccView, ls: Seq<Layer>, env: HostEnv)
    ensures
        merge_spec(acc, ls, env) matches Err(e) ==> (e is Invalid || e is Conflict),
    decreases ls.len(),
{
    if ls.len() > 0 {
        lemma_merge_errors_are_not_input_errors(acc, ls.drop_last(), env);
    }
}

/// The files of the discovered sources that apply, each with its text, in
/// the order they were found.
pub open spec fn applying_files(found: Seq<(Source, Result<String, String>)>) -> Seq<(PathBuf, Result<String, String>)>
    decreases found.len(),
{
    if found.len() == 0 {
        seq![]
    } else {
        let rest = applying_files(found.drop_last());
        if found.last().0.rejected is None {
            rest.push((found.last().0.path, found.last().1))
        } else {
            rest
        }
    }
}

/// A rejected source contributes nothing: two lists of discovered sources
/// that differ only in the texts of rejected ones layer the same files.
pub proof fn law_rejected_sources_contribute_nothing(
    a: Seq<(Source, Result<String, String>)>,
    b: Seq<(Source, Result<String, String>)>,
)
    requires
        a.len() == b.len(),
        forall|i: int| 0 <= i < a.len() ==> (#[trigger] a[i]).0 == b[i].0,
        forall|i: int| 0 <= i < a.len() && (#[trigger] a[i]).0.rejected is None ==> a[i].1 == b[i].1,
    ensures
        applying_files(a) == applying_files(b),
    decreases a.len(),
{
    if a.len() > 0 {
        let (a0, b0) = (a.drop_last(), b.drop_last());
        assert forall|i: int| 0 <= i < a0.len() implies (#[trigger] a0[i]).0 == b0[i].0 by {
            assert(a0[i] == a[i] && b0[i] == b[i]);
        }
        assert forall|i: int| 0 <= i < a0.len() && (#[trigger] a0[i]).0.rejected is None implies a0[i].1 == b0[i].1 by {
            assert(a0[i] == a[i] && b0[i] == b[i]);
        }
        law_rejected_sources_contribute_nothing(a0, b0);
        assert(a.last() == a[a.len() - 1] && b.last() == b[b.len() - 1]);
    }
}

/// Resolves the configuration for `target` from `bases` and the discovered
/// sources, each with its text or why it could not be read: exactly the
/// sources that apply are layered, in order, and a rejected one contributes
/// nothing.
pub fn resolve_found(
    bases: &Vec<(String, String)>,
    target: &PathBuf,
    found: Vec<(Source, Result<String, String>)>,
    env: &HostEnv,
) -> (r: Result<Resolved, ConfigError>)
    ensures
        input_fails(bases@, applying_files(found@)) <==> (r matches Err(e) && input_error(e@, bases@, applying_files(found@), *env)),
        !input_fails(bases@, applying_files(found@)) ==> exists|ls: Seq<Layer>| {
            &&& layers_read(ls, bases@, target_dir_spec(target@, *env), applying_files(found@), *env)
            &&& match merge_spec(acc_empty(), ls, *env) {
                Ok(a) => r matches Ok(res) && resolved_from(res, a),
                Err(x) => r matches Err(e) && e@ == x,
            }
        },
{
    let ghost all = found@;
    let old_len = found.len();
    let mut rest = found;
    let mut files: Vec<(PathBuf, Result<String, String>)> = Vec::new();
    let mut i: usize = 0;
    while rest.len() > 0
        invariant
            i + rest@.len() == all.len(),
            i <= all.len(),
            all.len() == old_len,
            rest@ == all.subrange(i as int, all.len() as int),
            files@ == applying_files(all.subrange(0, i as int)),
        decreases rest@.len(),
    {
        let (source, text) = rest.remove(0);
        let ghost pre = all.subrange(0, i + 1);
        assert(pre.drop_last() =~= all.subrange(0, i as int));
        assert(pre.last() == all[i as int]);
        assert((source, text) == all[i as int]);
        if source.rejected.is_none() {
            files.push((source.path, text));
        }
        i = i + 1;
        assert(rest@ =~= all.subrange(i as int, all.len() as int));
    }
    assert(all.subrange(0, i as int) =~= all);
    resolve_with_bases(bases, target, &files, env)
}

/// Resolves the configuration for `target` from the discovered files alone,
/// with no bundled bases.
pub fn resolve(target: &PathBuf, files: &Vec<(PathBuf, Result<String, String>)>, env: &HostEnv) -> (r: Result<Resolved, ConfigError>)
    ensures
        input_fails(Seq::empty(), files@) <==> (r matches Err(e) && input_error(e@, Seq::empty(), files@, *env)),
        !input_fails(Seq::empty(), files@) ==> exists|ls: Seq<Layer>| {
            &&& layers_read(ls, Seq::empty(), target_dir_spec(target@, *env), files@, *env)
            &&& match merge_spec(acc_empty(), ls, *env) {
                Ok(a) => r matches Ok(res) && resolved_from(res, a),
                Err(x) => r matches Err(e) && e@ == x,
            }
        },
{
    let bases: Vec<(String, String)> = Vec::new();
    assert(bases@ =~= Seq::<(String, String)>::empty());
    resolve_with_bases(&bases, target, files, env)
}

} // verus!
