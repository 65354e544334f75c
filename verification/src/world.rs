//! The world a target is placed in.
//!
//! Access control decides what a program may reach. This module decides what
//! it is handed before it starts: which environment variables cross the
//! boundary, where its home directory is, and which directory it starts in.
//! Getting those wrong leaks just as much: an inherited `SSH_AUTH_SOCK` is a
//! live credential no filesystem rule can take back.

use vstd::prelude::*;

use crate::config::{home_of, var_spec, vars_view, HostEnv};
use crate::network::{published, published_spec, NetworkMode};
use crate::path::{
    file_name_spec, join_spec, parse_spec, render, starts_with_spec, PathBuf, PathView,
};
use crate::policy::{any_matches, Policy};
use crate::strmap::{lists_names, StrMap};
use crate::text::{chars_of, owned, push_str, string_of};

verus! {

/// The `PATH` handed to a target, rather than the caller's, which commonly
/// includes directories the sandbox does not grant.
pub const SANDBOX_PATH: &'static str = "/usr/local/bin:/usr/bin:/bin";

proof fn lemma_caller_set_names(m: Map<Seq<char>, Seq<char>>, names: Seq<Seq<char>>, env: HostEnv, k: Seq<char>)
    ensures
        caller_set(m, names, env).contains_key(k) ==> m.contains_key(k) || names.contains(k),
    decreases names.len(),
{
    if names.len() > 0 {
        lemma_caller_set_names(m, names.drop_last(), env, k);
        if names.drop_last().contains(k) {
            let i = choose|i: int| 0 <= i < names.drop_last().len() && names.drop_last()[i] == k;
            assert(names[i] == k);
        }
        if k == names.last() {
            assert(names[names.len() - 1] == k);
        }
    }
}

proof fn lemma_passed_set_names(m: Map<Seq<char>, Seq<char>>, vars: Seq<(Seq<char>, Seq<char>)>, pass: Seq<Seq<char>>, k: Seq<char>)
    ensures
        passed_set(m, vars, pass).contains_key(k) ==> m.contains_key(k) || any_matches(pass, k),
    decreases vars.len(),
{
    if vars.len() > 0 {
        lemma_passed_set_names(m, vars.drop_last(), pass, k);
    }
}

/// The names the sandbox sets itself.
pub open spec fn own_names() -> Seq<Seq<char>> {
    seq!["PATH"@, "HOME"@, SANDBOX_MARKER@, "BAILEY_SANDBOX_NET"@, "TMPDIR"@]
}

/// The environment is built, not inherited: a variable reaches the target
/// only as one the sandbox sets itself, one of the fixed locale, terminal,
/// runtime-directory and display lists, one the policy passes, or one it
/// sets; and never one it denies.
pub proof fn law_environment_is_built(policy: Policy, world: World, network: NetworkMode, env: HostEnv, k: Seq<char>)
    requires
        environment_spec(policy, world, network, env).contains_key(k),
    ensures
        !any_matches(policy.env.deny.deep_view(), k),
        own_names().contains(k) || base_passthrough().contains(k) || runtime_dir_vars().contains(k) || x11_vars().contains(k)
            || any_matches(policy.env.pass.deep_view(), k) || crate::merge::values_view(policy.env.set.map()).contains_key(k),
{
    let m0 = Map::<Seq<char>, Seq<char>>::empty()
        .insert("PATH"@, SANDBOX_PATH@)
        .insert("HOME"@, render(world.home_inside@))
        .insert(SANDBOX_MARKER@, "1"@)
        .insert("BAILEY_SANDBOX_NET"@, published_spec(network));
    let m1 = if world.private_tmp { m0.insert("TMPDIR"@, "/tmp"@) } else { m0 };
    let m2 = caller_set(m1, base_passthrough(), env);
    let m3 = match var_spec(vars_view(env.vars@), "XDG_RUNTIME_DIR"@) {
        Some(d) => if covered_spec(policy, parse_spec(d)) { caller_set(m2, runtime_dir_vars(), env) } else { m2 },
        None => m2,
    };
    let m4 = if covered_spec(policy, parse_spec("/tmp/.X11-unix"@)) { caller_set(m3, x11_vars(), env) } else { m3 };
    let m5 = passed_set(m4, vars_view(env.vars@), policy.env.pass.deep_view());
    lemma_caller_set_names(m1, base_passthrough(), env, k);
    lemma_caller_set_names(m2, runtime_dir_vars(), env, k);
    lemma_caller_set_names(m3, x11_vars(), env, k);
    lemma_passed_set_names(m4, vars_view(env.vars@), policy.env.pass.deep_view(), k);
    if m1.contains_key(k) {
        assert(own_names()[0] == "PATH"@ && own_names()[1] == "HOME"@ && own_names()[2] == SANDBOX_MARKER@
            && own_names()[3] == "BAILEY_SANDBOX_NET"@ && own_names()[4] == "TMPDIR"@);
    }
}

/// Set in every confined environment, so that a bailey run from inside a
/// sandbox can tell one is already in force.
pub const SANDBOX_MARKER: &'static str = "BAILEY_SANDBOX";

/// Caller variables that carry locale and terminal settings: not
/// credentials, and a program without them behaves oddly enough to look
/// broken.
pub open spec fn base_passthrough() -> Seq<Seq<char>> {
    seq![
        "TERM"@, "LANG"@, "LC_ALL"@, "LC_CTYPE"@, "LC_TIME"@, "LC_NUMERIC"@, "LC_COLLATE"@, "LC_MESSAGES"@,
        "USER"@, "LOGNAME"@, "SHELL"@, "TZ"@,
    ]
}

/// Variables that only make sense when the session's runtime directory is
/// granted.
pub open spec fn runtime_dir_vars() -> Seq<Seq<char>> {
    seq!["XDG_RUNTIME_DIR"@, "WAYLAND_DISPLAY"@, "PULSE_SERVER"@, "XDG_SESSION_TYPE"@]
}

/// Variables that only make sense when the X11 socket directory is granted.
pub open spec fn x11_vars() -> Seq<Seq<char>> {
    seq!["DISPLAY"@, "XAUTHORITY"@]
}

fn base_name(i: usize) -> (r: &'static str)
    requires
        i < 12,
    ensures
        r@ == base_passthrough()[i as int],
{
    if i == 0 { "TERM" }
    else if i == 1 { "LANG" }
    else if i == 2 { "LC_ALL" }
    else if i == 3 { "LC_CTYPE" }
    else if i == 4 { "LC_TIME" }
    else if i == 5 { "LC_NUMERIC" }
    else if i == 6 { "LC_COLLATE" }
    else if i == 7 { "LC_MESSAGES" }
    else if i == 8 { "USER" }
    else if i == 9 { "LOGNAME" }
    else if i == 10 { "SHELL" }
    else { "TZ" }
}

fn runtime_name(i: usize) -> (r: &'static str)
    requires
        i < 4,
    ensures
        r@ == runtime_dir_vars()[i as int],
{
    if i == 0 { "XDG_RUNTIME_DIR" }
    else if i == 1 { "WAYLAND_DISPLAY" }
    else if i == 2 { "PULSE_SERVER" }
    else { "XDG_SESSION_TYPE" }
}

fn x11_name(i: usize) -> (r: &'static str)
    requires
        i < 2,
    ensures
        r@ == x11_vars()[i as int],
{
    if i == 0 { "DISPLAY" } else { "XAUTHORITY" }
}

/// Where the target's home, temporary storage and working directory are.
#[derive(Debug, Clone, PartialEq, Eq)]
pub struct World {
    /// The private home on the host, or `None` when the policy grants the
    /// real home and the target uses that instead.
    pub home_host: Option<PathBuf>,
    /// The path the home has from inside the sandbox.
    pub home_inside: PathBuf,
    /// Whether the target gets a private `/tmp`.
    pub private_tmp: bool,
    /// Whether the target gets a private `/dev/shm`.
    pub private_shm: bool,
    /// The directory the target starts in.
    pub cwd: PathBuf,
    /// Whether the invocation directory was granted and so kept as the
    /// working directory.
    pub kept_invocation_dir: bool,
    /// The terminal this run is attached to, when it has one.
    pub terminal: Option<PathBuf>,
}

/// Whether `path` lies at or under a filesystem or device grant.
pub open spec fn covered_spec(policy: Policy, path: PathView) -> bool {
    ||| exists|i: int| 0 <= i < policy.filesystem@.len() && starts_with_spec(path, (#[trigger] policy.filesystem@[i]).path@)
    ||| exists|i: int| 0 <= i < policy.devices@.len() && starts_with_spec(path, (#[trigger] policy.devices@[i]).path@)
}

/// Whether a grant overlaps `path` in either direction.
pub open spec fn touches_spec(policy: Policy, path: PathView) -> bool {
    ||| exists|i: int| 0 <= i < policy.filesystem@.len() && (starts_with_spec((#[trigger] policy.filesystem@[i]).path@, path)
        || starts_with_spec(path, policy.filesystem@[i].path@))
    ||| exists|i: int| 0 <= i < policy.devices@.len() && (starts_with_spec((#[trigger] policy.devices@[i]).path@, path)
        || starts_with_spec(path, policy.devices@[i].path@))
}

/// Whether `path` lies at or under a filesystem or device grant.
pub fn covered_by_grant(policy: &Policy, path: &PathBuf) -> (r: bool)
    ensures
        r == covered_spec(*policy, path@),
{
    let mut i: usize = 0;
    while i < policy.filesystem.len()
        invariant
            i <= policy.filesystem@.len(),
            forall|j: int| 0 <= j < i ==> !starts_with_spec(path@, (#[trigger] policy.filesystem@[j]).path@),
        decreases policy.filesystem@.len() - i,
    {
        if path.starts_with(&policy.filesystem[i].path) {
            return true;
        }
        i = i + 1;
    }
    let mut k: usize = 0;
    while k < policy.devices.len()
        invariant
            k <= policy.devices@.len(),
            forall|j: int| 0 <= j < policy.filesystem@.len() ==> !starts_with_spec(path@, (#[trigger] policy.filesystem@[j]).path@),
            forall|j: int| 0 <= j < k ==> !starts_with_spec(path@, (#[trigger] policy.devices@[j]).path@),
        decreases policy.devices@.len() - k,
    {
        if path.starts_with(&policy.devices[k].path) {
            return true;
        }
        k = k + 1;
    }
    false
}

/// Whether a grant overlaps `path` in either direction: the user has said
/// something about that hierarchy, so bailey stays out of it.
pub fn policy_touches(policy: &Policy, path: &PathBuf) -> (r: bool)
    ensures
        r == touches_spec(*policy, path@),
{
    let mut i: usize = 0;
    while i < policy.filesystem.len()
        invariant
            i <= policy.filesystem@.len(),
            forall|j: int| 0 <= j < i ==> !(starts_with_spec((#[trigger] policy.filesystem@[j]).path@, path@)
                || starts_with_spec(path@, policy.filesystem@[j].path@)),
        decreases policy.filesystem@.len() - i,
    {
        let g = &policy.filesystem[i].path;
        if g.starts_with(path) || path.starts_with(g) {
            return true;
        }
        i = i + 1;
    }
    let mut k: usize = 0;
    while k < policy.devices.len()
        invariant
            k <= policy.devices@.len(),
            forall|j: int| 0 <= j < policy.filesystem@.len() ==> !(starts_with_spec((#[trigger] policy.filesystem@[j]).path@, path@)
                || starts_with_spec(path@, policy.filesystem@[j].path@)),
            forall|j: int| 0 <= j < k ==> !(starts_with_spec((#[trigger] policy.devices@[j]).path@, path@)
                || starts_with_spec(path@, policy.devices@[j].path@)),
        decreases policy.devices@.len() - k,
    {
        let g = &policy.devices[k].path;
        if g.starts_with(path) || path.starts_with(g) {
            return true;
        }
        k = k + 1;
    }
    false
}

/// `path` with the prefix `base` taken off, as a relative path.
pub open spec fn strip_spec(path: PathView, base: PathView) -> PathView {
    PathView { absolute: false, parts: path.parts.subrange(base.parts.len() as int, path.parts.len() as int) }
}

/// Whether rule `i` is a relocated grant covering `path`.
pub open spec fn relocates(policy: Policy, path: PathView, i: int) -> bool {
    0 <= i < policy.filesystem@.len() && policy.filesystem@[i].at is Some
        && starts_with_spec(path, policy.filesystem@[i].path@)
}

/// Where `path` ends up when the first grant covering it that was placed
/// elsewhere moved it; `None` when no such grant covers it.
pub open spec fn relocated_spec(policy: Policy, path: PathView) -> Option<PathView> {
    if exists|i: int| relocates(policy, path, i) && forall|j: int| 0 <= j < i ==> !relocates(policy, path, j) {
        let i = choose|i: int| relocates(policy, path, i) && forall|j: int| 0 <= j < i ==> !relocates(policy, path, j);
        Some(join_spec(policy.filesystem@[i].at->0@, strip_spec(path, policy.filesystem@[i].path@)))
    } else {
        None
    }
}

/// `path` with the prefix `base` taken off.
fn strip(path: &PathBuf, base: &PathBuf) -> (r: PathBuf)
    requires
        starts_with_spec(path@, base@),
    ensures
        r@ == strip_spec(path@, base@),
{
    let mut parts: Vec<String> = Vec::new();
    let mut i: usize = if base.parts.len() <= path.parts.len() { base.parts.len() } else { path.parts.len() };
    let ghost from = i;
    proof {
        if !(base@.parts.len() <= path@.parts.len()) {
            assert(!base@.absolute && base@.parts.len() == 0);
        }
    }
    while i < path.parts.len()
        invariant
            from == base@.parts.len(),
            from <= i <= path@.parts.len(),
            parts.deep_view() == path@.parts.subrange(from as int, i as int),
        decreases path@.parts.len() - i,
    {
        let ghost before = parts.deep_view();
        let part = path.parts[i].clone();
        parts.push(part);
        assert(parts.deep_view() =~= before.push(path@.parts[i as int]));
        assert(parts.deep_view() =~= path@.parts.subrange(from as int, i + 1));
        i = i + 1;
    }
    PathBuf { absolute: false, parts }
}

/// Where `path` ends up when a grant covering it was placed elsewhere.
pub fn relocated_dir(policy: &Policy, path: &PathBuf) -> (r: Option<PathBuf>)
    ensures
        crate::merge::opt_path_view(r) == relocated_spec(*policy, path@),
{
    let mut i: usize = 0;
    while i < policy.filesystem.len()
        invariant
            i <= policy.filesystem@.len(),
            forall|j: int| 0 <= j < i ==> !relocates(*policy, path@, j),
        decreases policy.filesystem@.len() - i,
    {
        let rule = &policy.filesystem[i];
        match &rule.at {
            Some(at) => {
                if path.starts_with(&rule.path) {
                    let rel = strip(path, &rule.path);
                    proof {
                        assert(relocates(*policy, path@, i as int));
                        let c = choose|c: int| relocates(*policy, path@, c) && forall|j: int| 0 <= j < c ==> !relocates(*policy, path@, j);
                        if c < i {
                            assert(!relocates(*policy, path@, c));
                        } else if c > i {
                            assert(!relocates(*policy, path@, i as int));
                        }
                    }
                    return Some(at.join(&rel));
                }
            },
            None => {},
        }
        i = i + 1;
    }
    None
}

/// The caller's home: `$HOME`, or `/` without one.
pub open spec fn real_home_spec(env: HostEnv) -> PathView {
    match home_of(env) {
        Some(h) => parse_spec(h),
        None => parse_spec("/"@),
    }
}

/// Where per-user data lives: `$XDG_DATA_HOME` when set and not empty, else
/// `~/.local/share`.
pub open spec fn data_home_spec(env: HostEnv) -> PathView {
    match var_spec(vars_view(env.vars@), "XDG_DATA_HOME"@) {
        Some(d) if d.len() > 0 => parse_spec(d),
        _ => join_spec(real_home_spec(env), parse_spec(".local/share"@)),
    }
}

pub fn real_home(env: &HostEnv) -> (r: PathBuf)
    ensures
        r@ == real_home_spec(*env),
{
    match env.var("HOME") {
        Some(h) => PathBuf::parse(h.as_str()),
        None => PathBuf::parse("/"),
    }
}

pub fn data_home(env: &HostEnv) -> (r: PathBuf)
    ensures
        r@ == data_home_spec(*env),
{
    match env.var("XDG_DATA_HOME") {
        Some(d) => {
            if !d.as_str().is_empty() {
                return PathBuf::parse(d.as_str());
            }
        },
        None => {},
    }
    real_home(env).join(&PathBuf::parse(".local/share"))
}

/// `$XDG_DATA_HOME/bailey/<target's name>/home`, named after the target so
/// the directory is one a person can navigate to.
pub open spec fn default_home_spec(target: PathView, env: HostEnv) -> PathView {
    let name = match file_name_spec(target) {
        Some(n) => n,
        None => "target"@,
    };
    join_spec(
        join_spec(join_spec(data_home_spec(env), parse_spec("bailey"@)), PathView { absolute: false, parts: seq![name] }),
        parse_spec("home"@),
    )
}

/// The private home for `target` when the policy names none.
pub fn default_home(target: &PathBuf, env: &HostEnv) -> (r: PathBuf)
    ensures
        r@ == default_home_spec(target@, *env),
{
    let name = match target.file_name() {
        Some(n) => n,
        None => owned("target"),
    };
    let one = PathBuf { absolute: false, parts: vec![name] };
    assert(one@.parts =~= seq![one@.parts[0]]);
    data_home(env).join(&PathBuf::parse("bailey")).join(&one).join(&PathBuf::parse("home"))
}

/// The bytes of a path as the digest reads them: the UTF-8 of its text.
fn path_bytes(p: &PathBuf) -> (r: Vec<u8>)
    ensures
        r@ == vstd::utf8::encode_utf8(render(p@)),
{
    let text = p.display();
    let bytes = text.as_str().as_bytes();
    let mut r: Vec<u8> = Vec::new();
    let mut i: usize = 0;
    while i < bytes.len()
        invariant
            i <= bytes@.len(),
            r@ == bytes@.subrange(0, i as int),
        decreases bytes@.len() - i,
    {
        r.push(bytes[i]);
        i = i + 1;
        assert(r@ =~= bytes@.subrange(0, i as int));
    }
    assert(bytes@.subrange(0, bytes@.len() as int) =~= bytes@);
    r
}

/// The private home for a shell confined to `dir`:
/// `<data home>/bailey/shell/<name>-<digest>/home`, keyed on the directory
/// rather than on the shell's name, which would put every project in one
/// home called `bash`. The name keeps it navigable; the first four bytes of
/// the SHA-256 of the directory's text, in hexadecimal, tell two projects of
/// the same name apart.
pub open spec fn directory_home_spec(dir: PathView, env: HostEnv) -> PathView {
    let name = match file_name_spec(dir) {
        Some(n) => n,
        None => "root"@,
    };
    let digest = crate::trust::hex(crate::trust::sha256(vstd::utf8::encode_utf8(render(dir))).subrange(0, 4));
    join_spec(
        join_spec(
            join_spec(data_home_spec(env), parse_spec("bailey/shell"@)),
            PathView { absolute: false, parts: seq![name + "-"@ + digest] },
        ),
        parse_spec("home"@),
    )
}

/// The private home for a shell confined to `dir`.
pub fn directory_home(dir: &PathBuf, env: &HostEnv) -> (r: PathBuf)
    ensures
        r@ == directory_home_spec(dir@, *env),
{
    let name = match dir.file_name() {
        Some(n) => n,
        None => owned("root"),
    };
    let digest = crate::trust::sha256_of(&path_bytes(dir));
    let mut first: Vec<u8> = Vec::new();
    let mut i: usize = 0;
    while i < 4
        invariant
            i <= 4,
            digest@.len() == 32,
            first@ == digest@.subrange(0, i as int),
        decreases 4 - i,
    {
        first.push(digest[i]);
        i = i + 1;
        assert(first@ =~= digest@.subrange(0, i as int));
    }
    let mut label = chars_of(name.as_str());
    push_str(&mut label, "-");
    push_str(&mut label, crate::trust::hex_string(&first).as_str());
    let one = PathBuf { absolute: false, parts: vec![string_of(&label)] };
    assert(one@.parts =~= seq![one@.parts[0]]);
    data_home(env).join(&PathBuf::parse("bailey/shell")).join(&one).join(&PathBuf::parse("home"))
}

/// The world for `target` under `policy`.
///
/// Only a grant on the home itself, or on an ancestor of it, counts as asking
/// for the real home; otherwise the target gets a private one (the policy's,
/// or one named after the target). Under isolation the private home is
/// mounted where the real home would be. The target starts where it was
/// invoked from; under isolation only if that was granted (at the place a
/// relocated grant put it), and in its home otherwise. Private `/tmp` and
/// `/dev/shm` are made only under isolation, and only where the policy says
/// nothing about them.
pub open spec fn derive_spec(target: PathView, policy: Policy, isolated: bool, env: HostEnv) -> (
    Option<PathView>,
    PathView,
    bool,
    bool,
    PathView,
    bool,
) {
    let real_dir = real_home_spec(env);
    let home_host = if covered_spec(policy, real_dir) {
        None
    } else {
        Some(match policy.home {
            Some(h) => h@,
            None => default_home_spec(target, env),
        })
    };
    let home_inside = match home_host {
        Some(h) => if isolated { real_dir } else { h },
        None => real_dir,
    };
    let invocation = match env.cwd {
        Some(c) => c@,
        None => home_inside,
    };
    let kept = covered_spec(policy, invocation);
    let cwd = if !isolated {
        invocation
    } else if kept {
        match relocated_spec(policy, invocation) {
            Some(r) => r,
            None => invocation,
        }
    } else {
        home_inside
    };
    (
        home_host,
        home_inside,
        isolated && !touches_spec(policy, parse_spec("/tmp"@)),
        isolated && !touches_spec(policy, parse_spec("/dev/shm"@)),
        cwd,
        kept,
    )
}

pub open spec fn world_view(w: World) -> (Option<PathView>, PathView, bool, bool, PathView, bool) {
    (crate::merge::opt_path_view(w.home_host), w.home_inside@, w.private_tmp, w.private_shm, w.cwd@, w.kept_invocation_dir)
}

/// Whether a path names a terminal device: beneath `/dev/pts`, or
/// `/dev/tty` itself or beneath it, taken component by component.
pub open spec fn terminal_spec(p: PathView) -> bool {
    starts_with_spec(p, parse_spec("/dev/pts"@)) || starts_with_spec(p, parse_spec("/dev/tty"@))
}

/// Whether a path a standard stream links to is a terminal the run is
/// attached to.
pub fn is_terminal(p: &PathBuf) -> (r: bool)
    ensures
        r == terminal_spec(p@),
{
    p.starts_with(&PathBuf::parse("/dev/pts")) || p.starts_with(&PathBuf::parse("/dev/tty"))
}

impl World {
    /// Works out the world for `target` under `policy`; `isolated` says
    /// whether the mount namespace will be built, and `terminal` is the
    /// terminal the run is attached to.
    pub fn derive(target: &PathBuf, policy: &Policy, isolated: bool, env: &HostEnv, terminal: Option<PathBuf>) -> (r: World)
        ensures
            world_view(r) == derive_spec(target@, *policy, isolated, *env),
            r.terminal == terminal,
    {
        let real_dir = real_home(env);
        let home_host = if covered_by_grant(policy, &real_dir) {
            None
        } else {
            Some(match &policy.home {
                Some(h) => h.duplicate(),
                None => default_home(target, env),
            })
        };
        let home_inside = match &home_host {
            Some(h) => if isolated { real_dir.duplicate() } else { h.duplicate() },
            None => real_dir.duplicate(),
        };
        let invocation = match &env.cwd {
            Some(c) => c.duplicate(),
            None => home_inside.duplicate(),
        };
        let kept = covered_by_grant(policy, &invocation);
        let cwd = if !isolated {
            invocation
        } else if kept {
            match relocated_dir(policy, &invocation) {
                Some(r) => r,
                None => invocation,
            }
        } else {
            home_inside.duplicate()
        };
        let private_tmp = isolated && !policy_touches(policy, &PathBuf::parse("/tmp"));
        let private_shm = isolated && !policy_touches(policy, &PathBuf::parse("/dev/shm"));
        World { home_host, home_inside, private_tmp, private_shm, cwd, kept_invocation_dir: kept, terminal }
    }
}

/// `m` with each of `names` the caller has set taken from the caller.
pub open spec fn caller_set(m: Map<Seq<char>, Seq<char>>, names: Seq<Seq<char>>, env: HostEnv) -> Map<Seq<char>, Seq<char>>
    decreases names.len(),
{
    if names.len() == 0 {
        m
    } else {
        let m1 = caller_set(m, names.drop_last(), env);
        match var_spec(vars_view(env.vars@), names.last()) {
            Some(v) => m1.insert(names.last(), v),
            None => m1,
        }
    }
}

/// `m` with each caller variable the policy passes, in the caller's order.
pub open spec fn passed_set(m: Map<Seq<char>, Seq<char>>, vars: Seq<(Seq<char>, Seq<char>)>, pass: Seq<Seq<char>>) -> Map<Seq<char>, Seq<char>>
    decreases vars.len(),
{
    if vars.len() == 0 {
        m
    } else {
        let m1 = passed_set(m, vars.drop_last(), pass);
        if any_matches(pass, vars.last().0) { m1.insert(vars.last().0, vars.last().1) } else { m1 }
    }
}

/// The whole environment a target receives, by name: the sandbox's own
/// `PATH`, `HOME` at the home inside, the sandbox marker and the network a
/// nested run inherits, `TMPDIR` with a private `/tmp`, the caller's locale
/// and terminal settings, the display and audio variables when their
/// sockets are granted, the caller variables the policy passes, the values
/// it sets, and none of the names it denies.
pub open spec fn environment_spec(policy: Policy, world: World, network: NetworkMode, env: HostEnv) -> Map<Seq<char>, Seq<char>> {
    let m0 = Map::<Seq<char>, Seq<char>>::empty()
        .insert("PATH"@, SANDBOX_PATH@)
        .insert("HOME"@, render(world.home_inside@))
        .insert(SANDBOX_MARKER@, "1"@)
        .insert("BAILEY_SANDBOX_NET"@, published_spec(network));
    let m1 = if world.private_tmp { m0.insert("TMPDIR"@, "/tmp"@) } else { m0 };
    let m2 = caller_set(m1, base_passthrough(), env);
    let m3 = match var_spec(vars_view(env.vars@), "XDG_RUNTIME_DIR"@) {
        Some(d) => if covered_spec(policy, parse_spec(d)) { caller_set(m2, runtime_dir_vars(), env) } else { m2 },
        None => m2,
    };
    let m4 = if covered_spec(policy, parse_spec("/tmp/.X11-unix"@)) { caller_set(m3, x11_vars(), env) } else { m3 };
    let m5 = passed_set(m4, vars_view(env.vars@), policy.env.pass.deep_view());
    let m6 = m5.union_prefer_right(crate::merge::values_view(policy.env.set.map()));
    Map::new(|k: Seq<char>| m6.contains_key(k) && !any_matches(policy.env.deny.deep_view(), k), |k: Seq<char>| m6[k])
}

pub open spec fn pairs_of(v: Seq<(String, String)>) -> Seq<(Seq<char>, Seq<char>)> {
    v.map_values(|p: (String, String)| (p.0@, p.1@))
}

/// Sets `name` from the caller, when the caller has it.
fn take_from_caller(m: &mut StrMap<String>, name: &str, env: &HostEnv)
    requires
        old(m).wf(),
    ensures
        final(m).wf(),
        crate::merge::values_view(final(m).map()) == match var_spec(vars_view(env.vars@), name@) {
            Some(v) => crate::merge::values_view(old(m).map()).insert(name@, v),
            None => crate::merge::values_view(old(m).map()),
        },
{
    let ghost before = m.map();
    match env.var(name) {
        Some(v) => {
            m.insert(owned(name), v);
            assert(crate::merge::values_view(m.map()) =~= crate::merge::values_view(before).insert(name@, v@));
        },
        None => {},
    }
}

/// Sets each of `names` from the caller, when the caller has it.
fn take_all_from_caller(m: &mut StrMap<String>, which: u8, env: &HostEnv)
    requires
        old(m).wf(),
        which < 3,
    ensures
        final(m).wf(),
        crate::merge::values_view(final(m).map()) == caller_set(
            crate::merge::values_view(old(m).map()),
            if which == 0 { base_passthrough() } else if which == 1 { runtime_dir_vars() } else { x11_vars() },
            *env,
        ),
{
    let ghost names = if which == 0 { base_passthrough() } else if which == 1 { runtime_dir_vars() } else { x11_vars() };
    let ghost start = crate::merge::values_view(m.map());
    let count: usize = if which == 0 { 12 } else if which == 1 { 4 } else { 2 };
    let mut i: usize = 0;
    assert(names.subrange(0, 0) =~= Seq::<Seq<char>>::empty());
    while i < count
        invariant
            i <= count,
            count == names.len(),
            which < 3,
            names == (if which == 0 { base_passthrough() } else if which == 1 { runtime_dir_vars() } else { x11_vars() }),
            m.wf(),
            crate::merge::values_view(m.map()) == caller_set(start, names.subrange(0, i as int), *env),
        decreases count - i,
    {
        let name = if which == 0 { base_name(i) } else if which == 1 { runtime_name(i) } else { x11_name(i) };
        let ghost pre = names.subrange(0, i + 1);
        assert(pre.drop_last() =~= names.subrange(0, i as int));
        assert(pre.last() == name@);
        take_from_caller(m, name, env);
        i = i + 1;
    }
    assert(names.subrange(0, count as int) =~= names);
}

/// Builds the environment the target receives: the whole of it, applied to
/// a cleared environment, in name order.
pub fn environment(policy: &Policy, world: &World, network: NetworkMode, env: &HostEnv) -> (r: Vec<(String, String)>)
    requires
        policy.env.wf(),
    ensures
        lists_names(pairs_of(r@), environment_spec(*policy, *world, network, *env)),
{
    let mut m: StrMap<String> = StrMap::new();
    m.insert(owned("PATH"), owned(SANDBOX_PATH));
    m.insert(owned("HOME"), world.home_inside.display());
    m.insert(owned(SANDBOX_MARKER), owned("1"));
    m.insert(owned("BAILEY_SANDBOX_NET"), owned(published(network)));
    let ghost m0 = Map::<Seq<char>, Seq<char>>::empty()
        .insert("PATH"@, SANDBOX_PATH@)
        .insert("HOME"@, render(world.home_inside@))
        .insert(SANDBOX_MARKER@, "1"@)
        .insert("BAILEY_SANDBOX_NET"@, published_spec(network));
    assert(crate::merge::values_view(m.map()) =~= m0);
    if world.private_tmp {
        let ghost before = m.map();
        m.insert(owned("TMPDIR"), owned("/tmp"));
        assert(crate::merge::values_view(m.map()) =~= crate::merge::values_view(before).insert("TMPDIR"@, "/tmp"@));
    }
    take_all_from_caller(&mut m, 0, env);
    match env.var("XDG_RUNTIME_DIR") {
        Some(d) => {
            if covered_by_grant(policy, &PathBuf::parse(d.as_str())) {
                take_all_from_caller(&mut m, 1, env);
            }
        },
        None => {},
    }
    if covered_by_grant(policy, &PathBuf::parse("/tmp/.X11-unix")) {
        take_all_from_caller(&mut m, 2, env);
    }
    let ghost m4 = crate::merge::values_view(m.map());
    let ghost vars = vars_view(env.vars@);
    let mut i: usize = 0;
    assert(vars.subrange(0, 0) =~= Seq::<(Seq<char>, Seq<char>)>::empty());
    while i < env.vars.len()
        invariant
            i <= env.vars@.len(),
            vars == vars_view(env.vars@),
            m.wf(),
            crate::merge::values_view(m.map()) == passed_set(m4, vars.subrange(0, i as int), policy.env.pass.deep_view()),
        decreases env.vars@.len() - i,
    {
        let (name, value) = &env.vars[i];
        let ghost pre = vars.subrange(0, i + 1);
        assert(pre.drop_last() =~= vars.subrange(0, i as int));
        assert(pre.last() == (name@, value@));
        if policy.env.passes(name) {
            let ghost before = m.map();
            m.insert(name.clone(), value.clone());
            assert(crate::merge::values_view(m.map()) =~= crate::merge::values_view(before).insert(name@, value@));
        }
        i = i + 1;
    }
    assert(vars.subrange(0, vars.len() as int) =~= vars);
    let ghost m5 = crate::merge::values_view(m.map());
    let set = &policy.env.set;
    let mut k: usize = 0;
    proof {
        set.lemma_wf();
        assert(crate::merge::values_view(m.map()) =~= Map::new(
            |n: Seq<char>| m5.contains_key(n) || named_before(set.seq(), n, 0),
            |n: Seq<char>| if named_before(set.seq(), n, 0) { set.map()[n]@ } else { m5[n] },
        ));
    }
    while k < set.len()
        invariant
            k <= set.seq().len(),
            set.wf(),
            lists_names(set.seq(), set.map()),
            m.wf(),
            crate::merge::values_view(m.map()) == Map::new(
                |n: Seq<char>| m5.contains_key(n) || named_before(set.seq(), n, k as int),
                |n: Seq<char>| if named_before(set.seq(), n, k as int) { set.map()[n]@ } else { m5[n] },
            ),
        decreases set.seq().len() - k,
    {
        let name = set.key_at(k);
        let value = set.value_at(k);
        proof {
            crate::strmap::lemma_names_map_index(set.seq(), k as int);
        }
        let ghost before = crate::merge::values_view(m.map());
        m.insert(name.clone(), value.clone());
        k = k + 1;
        proof {
            assert(crate::merge::values_view(m.map()) =~= before.insert(name@, value@));
            assert forall|n: Seq<char>| #[trigger] named_before(set.seq(), n, k as int) <==> (named_before(set.seq(), n, k - 1)
                || set.seq()[k - 1].0 == n) by {
                if named_before(set.seq(), n, k as int) {
                    let j = choose|j: int| 0 <= j < k && #[trigger] set.seq()[j].0 == n;
                    if j < k - 1 {
                        assert(named_before(set.seq(), n, k - 1));
                    }
                }
                if named_before(set.seq(), n, k - 1) {
                    let j = choose|j: int| 0 <= j < k - 1 && #[trigger] set.seq()[j].0 == n;
                    assert(0 <= j < k && set.seq()[j].0 == n);
                }
                if set.seq()[k - 1].0 == n {
                    assert(0 <= k - 1 < k && set.seq()[k - 1].0 == n);
                }
            }
            assert(crate::merge::values_view(m.map()) =~= Map::new(
                |n: Seq<char>| m5.contains_key(n) || named_before(set.seq(), n, k as int),
                |n: Seq<char>| if named_before(set.seq(), n, k as int) { set.map()[n]@ } else { m5[n] },
            ));
        }
    }
    let ghost m6 = m5.union_prefer_right(crate::merge::values_view(policy.env.set.map()));
    proof {
        assert forall|n: Seq<char>| #[trigger] named_before(set.seq(), n, set.seq().len() as int) <==> set.map().contains_key(n) by {
            if set.map().contains_key(n) {
                assert(crate::strmap::has_name(set.seq(), n));
            }
        }
        assert(crate::merge::values_view(m.map()) =~= m6);
    }
    let mut names: Vec<String> = Vec::new();
    let mut a: usize = 0;
    while a < m.len()
        invariant
            a <= m.seq().len(),
            names@.len() == a,
            forall|t: int| 0 <= t < a ==> (#[trigger] names@[t])@ == m.seq()[t].0,
        decreases m.seq().len() - a,
    {
        names.push(m.key_at(a).clone());
        a = a + 1;
    }
    let ghost listed = m.map();
    proof {
        m.lemma_wf();
        assert forall|n: Seq<char>| #[trigger] listed.contains_key(n) ==> exists|t: int| 0 <= t < names@.len() && names@[t]@ == n by {
            if listed.contains_key(n) {
                assert(crate::strmap::has_name(m.seq(), n));
                let t = choose|t: int| 0 <= t < m.seq().len() && #[trigger] m.seq()[t].0 == n;
                assert(names@[t]@ == n);
            }
        }
    }
    let mut b: usize = 0;
    while b < names.len()
        invariant
            b <= names@.len(),
            m.wf(),
            crate::merge::values_view(m.map()) == Map::new(
                |n: Seq<char>| m6.contains_key(n) && !(any_matches(policy.env.deny.deep_view(), n)
                    && listed_before(names@, n, b as int)),
                |n: Seq<char>| m6[n],
            ),
        decreases names@.len() - b,
    {
        let ghost before = crate::merge::values_view(m.map());
        let ghost before_map = m.map();
        let denied = policy.env.denies(&names[b]);
        if denied {
            m.remove(&names[b]);
            assert(crate::merge::values_view(m.map()) =~= before.remove(names@[b as int]@));
        }
        b = b + 1;
        proof {
            let nb = names@[b - 1]@;
            assert forall|n: Seq<char>| #[trigger] listed_before(names@, n, b as int) <==> (listed_before(names@, n, b - 1) || n == nb) by {
                if listed_before(names@, n, b as int) {
                    let t = choose|t: int| 0 <= t < b && (#[trigger] names@[t])@ == n;
                    if t < b - 1 {
                        assert(0 <= t < b - 1 && names@[t]@ == n);
                    }
                }
                if listed_before(names@, n, b - 1) {
                    let t = choose|t: int| 0 <= t < b - 1 && (#[trigger] names@[t])@ == n;
                    assert(0 <= t < b && names@[t]@ == n);
                }
                if n == nb {
                    assert(0 <= b - 1 < b && names@[b - 1]@ == n);
                }
            }
            assert(crate::merge::values_view(m.map()) =~= Map::new(
                |n: Seq<char>| m6.contains_key(n) && !(any_matches(policy.env.deny.deep_view(), n)
                    && listed_before(names@, n, b as int)),
                |n: Seq<char>| m6[n],
            ));
        }
    }
    proof {
        assert(crate::merge::values_view(m.map()) =~= environment_spec(*policy, *world, network, *env)) by {
            assert forall|n: Seq<char>| m6.contains_key(n) implies #[trigger] listed_before(names@, n, names@.len() as int) by {
                assert(listed.contains_key(n));
            }
        }
    }
    let mut out: Vec<(String, String)> = Vec::new();
    proof {
        m.lemma_wf();
    }
    let mut c: usize = 0;
    while c < m.len()
        invariant
            c <= m.seq().len(),
            out@.len() == c,
            forall|t: int| 0 <= t < c ==> (#[trigger] out@[t]).0@ == m.seq()[t].0 && out@[t].1@ == m.seq()[t].1@,
        decreases m.seq().len() - c,
    {
        out.push((m.key_at(c).clone(), m.value_at(c).clone()));
        c = c + 1;
    }
    proof {
        lemma_listing_views(m.seq(), pairs_of(out@));
    }
    out
}

/// Whether `n` is the text of one of the first `k` strings of `v`.
pub open spec fn listed_before(v: Seq<String>, n: Seq<char>, k: int) -> bool {
    exists|t: int| 0 <= t < k && (#[trigger] v[t])@ == n
}

/// Whether `n` is among the first `k` names of `s`.
pub open spec fn named_before<V>(s: Seq<(Seq<char>, V)>, n: Seq<char>, k: int) -> bool {
    exists|j: int| 0 <= j < k && #[trigger] s[j].0 == n
}

/// A sorted listing, with its values taken by their views, lists the map
/// of those views.
proof fn lemma_listing_views(s: Seq<(Seq<char>, String)>, t: Seq<(Seq<char>, Seq<char>)>)
    requires
        crate::strmap::sorted_names(s),
        t.len() == s.len(),
        forall|i: int| 0 <= i < s.len() ==> (#[trigger] t[i]).0 == s[i].0 && t[i].1 == s[i].1@,
    ensures
        lists_names(t, crate::merge::values_view(crate::strmap::names_map(s))),
{
    assert(crate::strmap::sorted_names(t)) by {
        assert forall|i: int, j: int| 0 <= i < j < t.len() implies crate::text::str_lt(#[trigger] t[i].0, #[trigger] t[j].0) by {
            assert(t[i].0 == s[i].0 && t[j].0 == s[j].0);
        }
    }
    let a = crate::strmap::names_map(t);
    let b = crate::merge::values_view(crate::strmap::names_map(s));
    assert forall|n: Seq<char>| a.contains_key(n) <==> b.contains_key(n) by {
        if crate::strmap::has_name(t, n) {
            let i = choose|i: int| 0 <= i < t.len() && #[trigger] t[i].0 == n;
            assert(s[i].0 == n);
            assert(crate::strmap::has_name(s, n));
        }
        if crate::strmap::has_name(s, n) {
            let i = choose|i: int| 0 <= i < s.len() && #[trigger] s[i].0 == n;
            assert(t[i].0 == n);
            assert(crate::strmap::has_name(t, n));
        }
    }
    assert forall|n: Seq<char>| #[trigger] a.contains_key(n) implies a[n] == b[n] by {
        let i = choose|i: int| 0 <= i < t.len() && #[trigger] t[i].0 == n;
        crate::strmap::lemma_names_map_index(t, i);
        crate::strmap::lemma_names_map_index(s, i);
    }
    assert(a =~= b);
}

} // verus!
